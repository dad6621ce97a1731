//! Unsigned numbers as bytes: least significant byte first, or in the order in which
//! the machine keeps them in memory.

use vstd::endian::Endian;
use vstd::prelude::*;

verus! {

/// The `n` low bytes of `v`, least significant first.
pub open spec fn le_bytes(v: nat, n: nat) -> Seq<u8>
    decreases n,
{
    if n == 0 {
        seq![]
    } else {
        seq![(v % 256) as u8] + le_bytes(v / 256, (n - 1) as nat)
    }
}

/// The number whose bytes, least significant first, are `s`.
pub open spec fn le_value(s: Seq<u8>) -> nat
    decreases s.len(),
{
    if s.len() == 0 {
        0
    } else {
        s[0] as nat + 256 * le_value(s.skip(1))
    }
}

/// 256 to the power `n`: how many numbers `n` bytes can tell apart.
pub open spec fn byte_range(n: nat) -> nat
    decreases n,
{
    if n == 0 {
        1
    } else {
        256 * byte_range((n - 1) as nat)
    }
}

/// A number that fits in `n` bytes is written in `n` bytes and read back from them.
pub proof fn le_bytes_read_back(v: nat, n: nat)
    requires
        v < byte_range(n),
    ensures
        le_bytes(v, n).len() == n,
        le_value(le_bytes(v, n)) == v,
    decreases n,
{
    if n > 0 {
        le_bytes_read_back(v / 256, (n - 1) as nat);
        assert(le_bytes(v, n).skip(1) == le_bytes(v / 256, (n - 1) as nat));
    }
}

/// The digits of a number but the last are those of the number without it.
pub proof fn lemma_place(v: nat, b: nat, k: nat)
    requires
        b > 0,
        k > 0,
    ensures
        vstd::arithmetic::power::pow(b as int, (k - 1) as nat) > 0,
        v as int / vstd::arithmetic::power::pow(b as int, k) == (v / b) as int
            / vstd::arithmetic::power::pow(b as int, (k - 1) as nat),
{
    vstd::arithmetic::power::lemma_pow_positive(b as int, (k - 1) as nat);
    assert(vstd::arithmetic::power::pow(b as int, k) == b * vstd::arithmetic::power::pow(
        b as int,
        (k - 1) as nat,
    )) by {
        reveal(vstd::arithmetic::power::pow);
    }
    vstd::arithmetic::div_mod::lemma_div_denominator(
        v as int,
        b as int,
        vstd::arithmetic::power::pow(b as int, (k - 1) as nat),
    );
}

/// The byte in place `i` is the digit of the number in that place, in base 256.
pub proof fn bytes_are_digits_in_base_256(v: nat, n: nat)
    ensures
        le_bytes(v, n).len() == n,
        forall|i: int|
            0 <= i < n ==> #[trigger] le_bytes(v, n)[i] as int == v as int
                / vstd::arithmetic::power::pow(256, i as nat) % 256,
    decreases n,
{
    vstd::arithmetic::power::lemma_pow0(256);
    if n > 0 {
        let rest = le_bytes(v / 256, (n - 1) as nat);
        bytes_are_digits_in_base_256(v / 256, (n - 1) as nat);
        assert forall|i: int| 0 <= i < n implies #[trigger] le_bytes(v, n)[i] as int == v as int
            / vstd::arithmetic::power::pow(256, i as nat) % 256 by {
            if i > 0 {
                assert(le_bytes(v, n)[i] == rest[i - 1]);
                lemma_place(v, 256, i as nat);
            }
        }
    }
}

/// The number that bytes hold has those bytes, and is smaller than any number that
/// needs one byte more.
pub proof fn bytes_hold_one_number(s: Seq<u8>)
    ensures
        le_bytes(le_value(s), s.len()) == s,
        le_value(s) < vstd::arithmetic::power::pow(256, s.len()),
    decreases s.len(),
{
    vstd::arithmetic::power::lemma_pow0(256);
    if s.len() > 0 {
        let rest = s.skip(1);
        bytes_hold_one_number(rest);
        assert(vstd::arithmetic::power::pow(256, s.len()) == 256 * vstd::arithmetic::power::pow(
            256,
            rest.len(),
        )) by {
            reveal(vstd::arithmetic::power::pow);
        }
        assert(seq![s[0]] + rest == s);
    }
}

/// Four bytes hold the sum of what each is worth in its place.
pub proof fn four_bytes_hold_their_sum(s: Seq<u8>)
    requires
        s.len() == 4,
    ensures
        le_value(s) == s[0] + 256 * s[1] + 65536 * s[2] + 16777216 * s[3],
{
    reveal_with_fuel(le_value, 5);
    assert(s.skip(1).skip(1) == s.skip(2));
    assert(s.skip(2).skip(1) == s.skip(3));
}

/// How many numbers two and four bytes can tell apart.
pub proof fn byte_range_values()
    ensures
        byte_range(2) == 65536,
        byte_range(4) == 4294967296,
{
    reveal_with_fuel(byte_range, 5);
}

/// The `n` low bytes of `v`, in the byte order of the machine, which vstd calls
/// `endianness()`.
pub open spec fn ne_bytes(v: nat, n: nat) -> Seq<u8> {
    match vstd::endian::endianness() {
        Endian::Little => le_bytes(v, n),
        Endian::Big => le_bytes(v, n).reverse(),
    }
}

/// The number whose bytes, in the byte order of the machine, are `s`.
pub open spec fn ne_value(s: Seq<u8>) -> nat {
    match vstd::endian::endianness() {
        Endian::Little => le_value(s),
        Endian::Big => le_value(s.reverse()),
    }
}

/// A number that fits in `n` bytes is written in `n` bytes and read back from them, in
/// the byte order of the machine too.
pub proof fn ne_bytes_read_back(v: nat, n: nat)
    requires
        v < byte_range(n),
    ensures
        ne_bytes(v, n).len() == n,
        ne_value(ne_bytes(v, n)) == v,
{
    le_bytes_read_back(v, n);
    assert(le_bytes(v, n).reverse().reverse() == le_bytes(v, n));
}

/// The machine keeps the digit in each place of a number where its byte order has it.
pub proof fn machine_order_is_one_of_two(v: nat, n: nat, i: int)
    requires
        0 <= i < n,
    ensures
        ne_bytes(v, n).len() == n,
        vstd::endian::endianness() is Little ==> ne_bytes(v, n)[i] as int == v as int
            / vstd::arithmetic::power::pow(256, i as nat) % 256,
        vstd::endian::endianness() is Big ==> ne_bytes(v, n)[n - 1 - i] as int == v as int
            / vstd::arithmetic::power::pow(256, i as nat) % 256,
{
    bytes_are_digits_in_base_256(v, n);
}

/// `u16::to_ne_bytes` of std: the two bytes of `x` as they stand in memory, in the byte
/// order of the machine.
#[verifier::external_body]
pub(crate) fn u16_to_ne(x: u16) -> (r: Vec<u8>)
    ensures
        r@ == ne_bytes(x as nat, 2),
{
    x.to_ne_bytes().to_vec()
}

/// `u32::to_ne_bytes` of std: the four bytes of `x` as they stand in memory, in the byte
/// order of the machine.
#[verifier::external_body]
pub(crate) fn u32_to_ne(x: u32) -> (r: Vec<u8>)
    ensures
        r@ == ne_bytes(x as nat, 4),
{
    x.to_ne_bytes().to_vec()
}

/// The two bytes of `v`, least significant first.
pub fn u16_to_le(v: u16) -> (r: Vec<u8>)
    ensures
        r@ == le_bytes(v as nat, 2),
{
    let r = vec![(v % 256) as u8, (v / 256) as u8];
    proof {
        reveal_with_fuel(le_bytes, 3);
        assert(r@ == le_bytes(v as nat, 2));
    }
    r
}

/// The number that four bytes hold, least significant first.
pub fn u32_from_le(b: &[u8]) -> (r: u32)
    requires
        b@.len() == 4,
    ensures
        r == le_value(b@),
{
    proof {
        reveal_with_fuel(le_value, 5);
    }
    let ghost s = b@;
    assert(s.skip(1)[0] == s[1]);
    assert(s.skip(1).skip(1) == s.skip(2));
    assert(s.skip(2).skip(1) == s.skip(3));
    assert(s.skip(3).skip(1) == Seq::<u8>::empty());
    assert(s.skip(2)[0] == s[2]);
    assert(s.skip(3)[0] == s[3]);
    b[0] as u32 + 256 * (b[1] as u32) + 65536 * (b[2] as u32) + 16777216 * (b[3] as u32)
}

} // verus!
