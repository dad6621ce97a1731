//! Text as the gateway's protocols use it: white space and words, letter case,
//! decimal numbers and padding.
//!
//! A text is modelled as the sequence of its characters.

use vstd::prelude::*;
use vstd::string::*;

verus! {

// ---------------------------------------------------------------------------
// White space and words
// ---------------------------------------------------------------------------

/// The characters with the Unicode property `White_Space`.
pub open spec fn white_space(c: char) -> bool {
    let u = c as u32;
    ||| 0x09 <= u <= 0x0D
    ||| u == 0x20
    ||| u == 0x85
    ||| u == 0xA0
    ||| u == 0x1680
    ||| 0x2000 <= u <= 0x200A
    ||| u == 0x2028
    ||| u == 0x2029
    ||| u == 0x202F
    ||| u == 0x205F
    ||| u == 0x3000
}

/// White space is these 25 characters.
pub proof fn white_space_is_listed(c: char)
    ensures
        white_space(c) <==> seq![
            0x09u32, 0x0A, 0x0B, 0x0C, 0x0D, 0x20, 0x85, 0xA0, 0x1680, 0x2000, 0x2001, 0x2002, 0x2003,
            0x2004, 0x2005, 0x2006, 0x2007, 0x2008, 0x2009, 0x200A, 0x2028, 0x2029, 0x202F, 0x205F,
            0x3000,
        ].contains(c as u32),
{
    let listed = seq![
        0x09u32, 0x0A, 0x0B, 0x0C, 0x0D, 0x20, 0x85, 0xA0, 0x1680, 0x2000, 0x2001, 0x2002, 0x2003,
        0x2004, 0x2005, 0x2006, 0x2007, 0x2008, 0x2009, 0x200A, 0x2028, 0x2029, 0x202F, 0x205F,
        0x3000,
    ];
    let u = c as u32;
    if 0x09 <= u <= 0x0D {
        assert(listed[u - 0x09] == u);
    } else if 0x2000 <= u <= 0x200A {
        assert(listed[u - 0x2000 + 9] == u);
    } else {
        assert(listed[5] == 0x20 && listed[6] == 0x85 && listed[7] == 0xA0 && listed[8] == 0x1680);
        assert(listed[20] == 0x2028 && listed[21] == 0x2029 && listed[22] == 0x202F);
        assert(listed[23] == 0x205F && listed[24] == 0x3000);
    }
}

/// `char::is_whitespace` of std: true of exactly the characters with the
/// Unicode property `White_Space`.
pub assume_specification[ char::is_whitespace ](c: char) -> (r: bool)
    ensures
        r == white_space(c),
;

/// `s` without its leading white space.
pub open spec fn trim_start(s: Seq<char>) -> Seq<char>
    decreases s.len(),
{
    if s.len() > 0 && white_space(s[0]) {
        trim_start(s.skip(1))
    } else {
        s
    }
}

/// `s` without its trailing white space.
pub open spec fn trim_end(s: Seq<char>) -> Seq<char>
    decreases s.len(),
{
    if s.len() > 0 && white_space(s.last()) {
        trim_end(s.drop_last())
    } else {
        s
    }
}

/// `s` without leading and trailing white space.
pub open spec fn trimmed(s: Seq<char>) -> Seq<char> {
    trim_end(trim_start(s))
}

/// Trimming takes away white space and nothing else, and leaves none at the ends.
pub proof fn trimming_takes_white_space_only(s: Seq<char>) -> (ends: (int, int))
    ensures
        0 <= ends.0 <= ends.1 <= s.len(),
        trimmed(s) == s.subrange(ends.0, ends.1),
        forall|i: int|
            0 <= i < ends.0 || ends.1 <= i < s.len() ==> white_space(#[trigger] s[i]),
        ends.0 < ends.1 ==> !white_space(s[ends.0]) && !white_space(s[ends.1 - 1]),
    decreases s.len(),
{
    if s.len() > 0 && white_space(s[0]) {
        let rest = s.skip(1);
        let ends = trimming_takes_white_space_only(rest);
        assert(rest.subrange(ends.0, ends.1) == s.subrange(ends.0 + 1, ends.1 + 1));
        assert forall|i: int|
            0 <= i < ends.0 + 1 || ends.1 + 1 <= i < s.len() implies white_space(#[trigger] s[i]) by {
            if i > 0 {
                assert(rest[i - 1] == s[i]);
            }
        }
        if ends.0 < ends.1 {
            assert(rest[ends.0] == s[ends.0 + 1]);
            assert(rest[ends.1 - 1] == s[ends.1]);
        }
        (ends.0 + 1, ends.1 + 1)
    } else {
        let n = lemma_trim_end(s);
        assert(s.subrange(0, n) == s.take(n));
        if n > 0 {
            assert(s.take(n).last() == s[n - 1]);
        }
        (0, n)
    }
}

proof fn lemma_trim_end(s: Seq<char>) -> (n: int)
    ensures
        0 <= n <= s.len(),
        trim_end(s) == s.take(n),
        forall|i: int| n <= i < s.len() ==> white_space(#[trigger] s[i]),
        n > 0 ==> !white_space(s[n - 1]),
    decreases s.len(),
{
    if s.len() > 0 && white_space(s.last()) {
        let init = s.drop_last();
        let n = lemma_trim_end(init);
        assert(init.take(n) == s.take(n));
        assert forall|i: int| n <= i < s.len() implies white_space(#[trigger] s[i]) by {
            if i < init.len() {
                assert(init[i] == s[i]);
            }
        }
        n
    } else {
        assert(s.take(s.len() as int) == s);
        s.len() as int
    }
}

/// How many characters stand in `s` before its first white space.
pub open spec fn word_len(s: Seq<char>) -> nat
    decreases s.len(),
{
    if s.len() == 0 || white_space(s[0]) {
        0
    } else {
        1 + word_len(s.skip(1))
    }
}

/// A word is no longer than the text it starts, and holds no white space; white
/// space or the end of the text follows it.
pub proof fn lemma_word_len(s: Seq<char>)
    ensures
        word_len(s) <= s.len(),
        forall|i: int| 0 <= i < word_len(s) ==> !white_space(#[trigger] s[i]),
        word_len(s) < s.len() ==> white_space(s[word_len(s) as int]),
    decreases s.len(),
{
    if s.len() > 0 && !white_space(s[0]) {
        let rest = s.skip(1);
        lemma_word_len(rest);
        assert forall|i: int| 0 <= i < word_len(s) implies !white_space(#[trigger] s[i]) by {
            if i > 0 {
                assert(rest[i - 1] == s[i]);
            }
        }
    }
}

/// The words of `s`: its longest pieces without white space, in order.
pub open spec fn words(s: Seq<char>) -> Seq<Seq<char>>
    decreases s.len(),
{
    if s.len() == 0 {
        seq![]
    } else if white_space(s[0]) {
        words(s.skip(1))
    } else {
        proof {
            lemma_word_len(s);
        }
        seq![s.take(word_len(s) as int)] + words(s.skip(word_len(s) as int))
    }
}

/// What a list of strings holds.
pub open spec fn views(v: Seq<String>) -> Seq<Seq<char>> {
    v.map_values(|s: String| s@)
}

/// The characters of `s`, in order.
pub fn to_chars(s: &str) -> (v: Vec<char>)
    ensures
        v@ == s@,
{
    let mut v: Vec<char> = Vec::new();
    for c in it: s.chars()
        invariant
            it.seq() == s@,
            v@ == it.seq().take(it.index() as int),
    {
        v.push(c);
    }
    v
}

/// The first word of `s` is as long as the run of other characters that starts it.
pub proof fn lemma_word_len_is(s: Seq<char>, n: int)
    requires
        0 <= n <= s.len(),
        forall|i: int| 0 <= i < n ==> !white_space(#[trigger] s[i]),
        n < s.len() ==> white_space(s[n]),
    ensures
        word_len(s) == n,
{
    lemma_word_len(s);
    let m = word_len(s) as int;
    if m < n {
        assert(white_space(s[m]));
    } else if n < m {
        assert(!white_space(s[n]));
    }
}

/// The words of `s`, each as a string of its own.
pub fn split_words(s: &str) -> (v: Vec<String>)
    ensures
        views(v@) == words(s@),
{
    let chars = to_chars(s);
    let n: usize = chars.len();
    let mut v: Vec<String> = Vec::new();
    let mut i: usize = 0;
    assert(s@.skip(0) == s@);
    assert(views(v@) == Seq::<Seq<char>>::empty());
    assert(Seq::<Seq<char>>::empty() + words(s@) == words(s@));
    while i < n
        invariant
            n == chars@.len(),
            chars@ == s@,
            i <= n,
            views(v@) + words(s@.skip(i as int)) == words(s@),
        decreases n - i,
    {
        let ghost rest = s@.skip(i as int);
        assert(rest[0] == s@[i as int]);
        if chars[i].is_whitespace() {
            assert(rest.skip(1) == s@.skip(i + 1));
            i += 1;
        } else {
            let start: usize = i;
            i += 1;
            while i < n && !chars[i].is_whitespace()
                invariant
                    n == chars@.len(),
                    chars@ == s@,
                    start < i <= n,
                    forall|k: int| start <= k < i ==> !white_space(#[trigger] s@[k]),
                decreases n - i,
            {
                i += 1;
            }
            let word = s.substring_char(start, i);
            let ghost before = v@;
            v.push(word.to_owned());
            proof {
                let len = i - start;
                assert forall|k: int| 0 <= k < len implies !white_space(#[trigger] rest[k]) by {
                    assert(rest[k] == s@[start + k]);
                }
                if len < rest.len() {
                    assert(rest[len] == s@[i as int]);
                }
                lemma_word_len_is(rest, len);
                assert(rest.take(len) == word@);
                assert(rest.skip(len) == s@.skip(i as int));
                assert(views(v@) == views(before).push(word@));
                assert(views(before) + (seq![word@] + words(rest.skip(len))) == views(v@) + words(
                    s@.skip(i as int),
                ));
            }
        }
    }
    assert(s@.skip(n as int) == Seq::<char>::empty());
    assert(views(v@) + Seq::<Seq<char>>::empty() == views(v@));
    v
}

/// `s` without leading and trailing white space.
pub fn trim(s: &str) -> (r: &str)
    ensures
        r@ == trimmed(s@),
{
    let chars = to_chars(s);
    let n: usize = chars.len();
    let mut from: usize = 0;
    assert(s@.skip(0) == s@);
    while from < n && chars[from].is_whitespace()
        invariant
            n == chars@.len(),
            chars@ == s@,
            from <= n,
            trim_start(s@.skip(from as int)) == trim_start(s@),
        decreases n - from,
    {
        assert(s@.skip(from as int)[0] == s@[from as int]);
        assert(s@.skip(from as int).skip(1) == s@.skip(from + 1));
        from += 1;
    }
    proof {
        if from < n {
            assert(s@.skip(from as int)[0] == s@[from as int]);
        }
    }
    let ghost rest = s@.skip(from as int);
    assert(trim_start(s@) == rest);
    let mut to: usize = n;
    assert(s@.subrange(from as int, n as int) == rest);
    while to > from && chars[to - 1].is_whitespace()
        invariant
            n == chars@.len(),
            chars@ == s@,
            from <= to <= n,
            trim_end(s@.subrange(from as int, to as int)) == trim_end(rest),
        decreases to,
    {
        let ghost piece = s@.subrange(from as int, to as int);
        assert(piece.last() == s@[to - 1]);
        assert(piece.drop_last() == s@.subrange(from as int, to - 1));
        to -= 1;
    }
    proof {
        let piece = s@.subrange(from as int, to as int);
        if to > from {
            assert(piece.last() == s@[to - 1]);
        }
    }
    s.substring_char(from, to)
}

// ---------------------------------------------------------------------------
// Letter case
// ---------------------------------------------------------------------------

/// The upper-case form of an ASCII letter; any other character as it is.
pub open spec fn ascii_upper(c: char) -> char {
    if 'a' <= c && c <= 'z' {
        (c as u32 - 32) as char
    } else {
        c
    }
}

/// The lower-case form of an ASCII letter; any other character as it is.
pub open spec fn ascii_lower(c: char) -> char {
    if 'A' <= c && c <= 'Z' {
        (c as u32 + 32) as char
    } else {
        c
    }
}

/// Whether two texts differ in the case of ASCII letters alone.
pub open spec fn case_variants(a: Seq<char>, b: Seq<char>) -> bool {
    &&& a.len() == b.len()
    &&& forall|i: int| 0 <= i < a.len() ==> ascii_upper(#[trigger] a[i]) == ascii_upper(b[i])
}

/// What Unicode gives as the upper-case form of a character that is not ASCII.
pub uninterp spec fn unicode_uppercase(c: char) -> Seq<char>;

/// The upper-case form of a character, which may be several characters.
pub open spec fn char_uppercase(c: char) -> Seq<char> {
    if (c as u32) < 128 {
        seq![ascii_upper(c)]
    } else {
        unicode_uppercase(c)
    }
}

/// The upper-case form of a text.
pub open spec fn uppercase(s: Seq<char>) -> Seq<char>
    decreases s.len(),
{
    if s.len() == 0 {
        seq![]
    } else {
        uppercase(s.drop_last()) + char_uppercase(s.last())
    }
}

/// `str::to_uppercase` of std: each character is replaced by its upper-case form. Of
/// the ASCII characters, the letters `a` to `z` become `A` to `Z` and the rest stay;
/// what another character becomes is what it becomes as a text of its own, as Unicode
/// defines it, of which nothing more is said here.
pub assume_specification[ str::to_uppercase ](s: &str) -> (r: String)
    ensures
        r@ == uppercase(s@),
        s@.len() == 1 && (s@[0] as u32) >= 128 ==> r@ == unicode_uppercase(s@[0]),
;

/// The upper-case form of a text is those of its parts, one after the other.
pub proof fn uppercase_of_parts(a: Seq<char>, b: Seq<char>)
    ensures
        uppercase(a + b) == uppercase(a) + uppercase(b),
        uppercase(Seq::<char>::empty()) == Seq::<char>::empty(),
    decreases b.len(),
{
    if b.len() == 0 {
        assert(a + b == a);
        assert(uppercase(a) + uppercase(b) == uppercase(a));
    } else {
        let init = b.drop_last();
        uppercase_of_parts(a, init);
        assert((a + b).drop_last() == a + init);
        assert((a + b).last() == b.last());
        assert(uppercase(a) + (uppercase(init) + char_uppercase(b.last())) == uppercase(a)
            + uppercase(init) + char_uppercase(b.last()));
    }
}

/// The ASCII letters pair up by case; no other character changes with case.
pub proof fn ascii_letters_pair_up(i: int, c: char)
    requires
        0 <= i < 26,
    ensures
        ascii_upper("abcdefghijklmnopqrstuvwxyz"@[i]) == "ABCDEFGHIJKLMNOPQRSTUVWXYZ"@[i],
        ascii_lower("ABCDEFGHIJKLMNOPQRSTUVWXYZ"@[i]) == "abcdefghijklmnopqrstuvwxyz"@[i],
        ascii_upper(c) != c ==> "abcdefghijklmnopqrstuvwxyz"@.contains(c),
        ascii_lower(c) != c ==> "ABCDEFGHIJKLMNOPQRSTUVWXYZ"@.contains(c),
{
    reveal_strlit("abcdefghijklmnopqrstuvwxyz");
    reveal_strlit("ABCDEFGHIJKLMNOPQRSTUVWXYZ");
    if ascii_upper(c) != c {
        assert("abcdefghijklmnopqrstuvwxyz"@[c as int - 97] == c);
    }
    if ascii_lower(c) != c {
        assert("ABCDEFGHIJKLMNOPQRSTUVWXYZ"@[c as int - 65] == c);
    }
}

/// The upper-case form of ASCII text has an upper-case letter for each letter.
pub proof fn ascii_uppercase(s: Seq<char>)
    requires
        vstd::utf8::is_ascii_chars(s),
    ensures
        uppercase(s) == s.map_values(|c: char| ascii_upper(c)),
    decreases s.len(),
{
    let upper = s.map_values(|c: char| ascii_upper(c));
    if s.len() == 0 {
        assert(upper == Seq::<char>::empty());
    } else {
        let init = s.drop_last();
        assert forall|i: int| 0 <= i < init.len() implies 0 <= #[trigger] init[i] as nat <= 127 by {
            assert(init[i] == s[i]);
        }
        ascii_uppercase(init);
        assert((s[s.len() - 1] as u32) < 128);
        assert(upper == uppercase(init) + seq![ascii_upper(s.last())]);
    }
}

/// Texts that differ in the case of ASCII letters alone have the same upper-case form.
pub proof fn case_variants_agree(a: Seq<char>, b: Seq<char>)
    requires
        case_variants(a, b),
    ensures
        uppercase(a) == uppercase(b),
    decreases a.len(),
{
    if a.len() > 0 {
        assert forall|i: int| 0 <= i < a.len() - 1 implies ascii_upper(
            #[trigger] a.drop_last()[i],
        ) == ascii_upper(b.drop_last()[i]) by {
            assert(a.drop_last()[i] == a[i]);
        }
        case_variants_agree(a.drop_last(), b.drop_last());
        assert(ascii_upper(a[a.len() - 1]) == ascii_upper(b[b.len() - 1]));
    }
}

/// The words of two texts that differ in letter case alone differ in letter case alone.
pub proof fn case_variants_have_the_same_words(a: Seq<char>, b: Seq<char>)
    requires
        case_variants(a, b),
    ensures
        words(a).len() == words(b).len(),
        forall|i: int|
            0 <= i < words(a).len() ==> case_variants(#[trigger] words(a)[i], words(b)[i]),
    decreases a.len(),
{
    if a.len() > 0 {
        assert(white_space(a[0]) == white_space(b[0]));
        lemma_word_len(a);
        lemma_word_len(b);
        if white_space(a[0]) {
            lemma_case_variants_subrange(a, b, 1, a.len() as int);
            assert(a.subrange(1, a.len() as int) == a.skip(1));
            assert(b.subrange(1, a.len() as int) == b.skip(1));
            case_variants_have_the_same_words(a.skip(1), b.skip(1));
        } else {
            let n = word_len(a) as int;
            assert forall|i: int| 0 <= i < n implies !white_space(#[trigger] b[i]) by {
                assert(!white_space(a[i]));
            }
            if n < a.len() {
                assert(white_space(a[n]));
            }
            lemma_word_len_is(b, n);
            lemma_case_variants_subrange(a, b, 0, n);
            lemma_case_variants_subrange(a, b, n, a.len() as int);
            assert(a.subrange(0, n) == a.take(n));
            assert(b.subrange(0, n) == b.take(n));
            assert(a.subrange(n, a.len() as int) == a.skip(n));
            assert(b.subrange(n, a.len() as int) == b.skip(n));
            case_variants_have_the_same_words(a.skip(n), b.skip(n));
            assert forall|i: int| 0 <= i < words(a).len() implies case_variants(
                #[trigger] words(a)[i],
                words(b)[i],
            ) by {
                if i > 0 {
                    assert(words(a)[i] == words(a.skip(n))[i - 1]);
                    assert(words(b)[i] == words(b.skip(n))[i - 1]);
                }
            }
        }
    }
}

/// Texts that differ in letter case alone do so without their surrounding white space.
pub proof fn case_variants_trim_alike(a: Seq<char>, b: Seq<char>)
    requires
        case_variants(a, b),
    ensures
        case_variants(trimmed(a), trimmed(b)),
{
    lemma_case_variants_trim_start(a, b);
    lemma_case_variants_trim_end(trim_start(a), trim_start(b));
}

proof fn lemma_case_variants_subrange(a: Seq<char>, b: Seq<char>, from: int, to: int)
    requires
        case_variants(a, b),
        0 <= from <= to <= a.len(),
    ensures
        case_variants(a.subrange(from, to), b.subrange(from, to)),
{
    assert forall|i: int| 0 <= i < to - from implies ascii_upper(#[trigger] a.subrange(from, to)[i])
        == ascii_upper(b.subrange(from, to)[i]) by {
        assert(a.subrange(from, to)[i] == a[from + i]);
    }
}

proof fn lemma_case_variants_trim_start(a: Seq<char>, b: Seq<char>)
    requires
        case_variants(a, b),
    ensures
        case_variants(trim_start(a), trim_start(b)),
    decreases a.len(),
{
    if a.len() > 0 {
        assert(white_space(a[0]) == white_space(b[0]));
        lemma_case_variants_subrange(a, b, 1, a.len() as int);
        assert(a.subrange(1, a.len() as int) == a.skip(1));
        assert(b.subrange(1, a.len() as int) == b.skip(1));
        lemma_case_variants_trim_start(a.skip(1), b.skip(1));
    }
}

proof fn lemma_case_variants_trim_end(a: Seq<char>, b: Seq<char>)
    requires
        case_variants(a, b),
    ensures
        case_variants(trim_end(a), trim_end(b)),
    decreases a.len(),
{
    if a.len() > 0 {
        let n = a.len() - 1;
        assert(white_space(a[n]) == white_space(b[n]));
        lemma_case_variants_subrange(a, b, 0, n);
        assert(a.subrange(0, n) == a.drop_last());
        assert(b.subrange(0, n) == b.drop_last());
        lemma_case_variants_trim_end(a.drop_last(), b.drop_last());
    }
}

// ---------------------------------------------------------------------------
// Text in bytes
// ---------------------------------------------------------------------------

/// The text that stands for bytes that are not UTF-8.
pub uninterp spec fn utf8_repaired(bytes: Seq<u8>) -> Seq<char>;

/// The text that bytes stand for: what they encode in UTF-8, or, where they are not
/// UTF-8, a text in their place.
pub open spec fn text_of(bytes: Seq<u8>) -> Seq<char> {
    if vstd::utf8::valid_utf8(bytes) {
        vstd::utf8::decode_utf8(bytes)
    } else {
        utf8_repaired(bytes)
    }
}

/// `String::from_utf8_lossy` of std: UTF-8 is decoded; other bytes give a text that
/// is a function of the bytes alone, in which replacement characters stand for what
/// could not be decoded. How many stand where is not said.
#[verifier::external_body]
pub(crate) fn from_utf8_lossy(bytes: &[u8]) -> (r: String)
    ensures
        vstd::utf8::valid_utf8(bytes@) ==> r@ == vstd::utf8::decode_utf8(bytes@),
        !vstd::utf8::valid_utf8(bytes@) ==> r@ == utf8_repaired(bytes@),
{
    String::from_utf8_lossy(bytes).into_owned()
}

/// A text that is sent in UTF-8 is the text that is received.
pub proof fn text_sent_is_received(s: Seq<char>)
    ensures
        text_of(vstd::utf8::encode_utf8(s)) == s,
{
    vstd::utf8::encode_utf8_valid_utf8(s);
    vstd::utf8::encode_utf8_decode_utf8(s);
}

// ---------------------------------------------------------------------------
// Decimal numbers
// ---------------------------------------------------------------------------

/// The decimal digit `d`.
pub open spec fn digit_char(d: nat) -> char {
    (48 + d) as char
}

/// Whether `c` is one of the decimal digits `0` to `9`.
pub open spec fn is_digit(c: char) -> bool {
    '0' <= c && c <= '9'
}

/// The number that a decimal digit stands for.
pub open spec fn digit_value(c: char) -> nat {
    (c as u32 - 48) as nat
}

/// The decimal digits of `n`, without leading zeros.
pub open spec fn decimal(n: nat) -> Seq<char>
    decreases n,
{
    if n < 10 {
        seq![digit_char(n)]
    } else {
        decimal(n / 10).push(digit_char(n % 10))
    }
}

/// The number that a run of decimal digits stands for.
pub open spec fn digits_value(s: Seq<char>) -> nat
    decreases s.len(),
{
    if s.len() == 0 {
        0
    } else {
        10 * digits_value(s.drop_last()) + digit_value(s.last())
    }
}

/// Whether every character of `s` is a decimal digit.
pub open spec fn all_digits(s: Seq<char>) -> bool {
    forall|i: int| 0 <= i < s.len() ==> is_digit(#[trigger] s[i])
}

/// `s` without the plus sign that it may start with.
pub open spec fn unsigned_digits(s: Seq<char>) -> Seq<char> {
    if s.len() > 0 && s[0] == '+' {
        s.skip(1)
    } else {
        s
    }
}

/// The 16-bit number that `s` denotes: an optional plus sign and at least one
/// decimal digit, with a value that fits.
pub open spec fn u16_value(s: Seq<char>) -> Option<u16> {
    let digits = unsigned_digits(s);
    if digits.len() > 0 && all_digits(digits) && digits_value(digits) <= u16::MAX {
        Some(digits_value(digits) as u16)
    } else {
        None
    }
}

fn digit_text(d: u64) -> (r: &'static str)
    requires
        d < 10,
    ensures
        r@ == seq![digit_char(d as nat)],
{
    proof {
        reveal_strlit("0");
        reveal_strlit("1");
        reveal_strlit("2");
        reveal_strlit("3");
        reveal_strlit("4");
        reveal_strlit("5");
        reveal_strlit("6");
        reveal_strlit("7");
        reveal_strlit("8");
        reveal_strlit("9");
    }
    if d == 0 {
        "0"
    } else if d == 1 {
        "1"
    } else if d == 2 {
        "2"
    } else if d == 3 {
        "3"
    } else if d == 4 {
        "4"
    } else if d == 5 {
        "5"
    } else if d == 6 {
        "6"
    } else if d == 7 {
        "7"
    } else if d == 8 {
        "8"
    } else {
        "9"
    }
}

/// `n` written in decimal.
pub fn decimal_text(n: u64) -> (r: String)
    ensures
        r@ == decimal(n as nat),
    decreases n,
{
    if n < 10 {
        digit_text(n).to_owned()
    } else {
        let mut r = decimal_text(n / 10);
        let ghost before = r@;
        r.append(digit_text(n % 10));
        assert(before + seq![digit_char((n % 10) as nat)] == before.push(
            digit_char((n % 10) as nat),
        ));
        r
    }
}

/// Digits can only make a number larger.
proof fn lemma_digits_value_grows(s: Seq<char>, k: int)
    requires
        0 <= k <= s.len(),
    ensures
        digits_value(s.take(k)) <= digits_value(s),
    decreases s.len(),
{
    if k < s.len() {
        lemma_digits_value_grows(s.drop_last(), k);
        assert(s.drop_last().take(k) == s.take(k));
    } else {
        assert(s.take(k) == s);
    }
}

/// Reads a 16-bit number in decimal.
pub fn parse_u16(s: &str) -> (r: Option<u16>)
    ensures
        r == u16_value(s@),
{
    let chars = to_chars(s);
    let n: usize = chars.len();
    let start: usize = if n > 0 && chars[0] == '+' {
        1
    } else {
        0
    };
    let ghost digits = unsigned_digits(s@);
    assert(digits == s@.skip(start as int));
    if start == n {
        return None;
    }
    let mut value: u32 = 0;
    let mut i: usize = start;
    assert(digits.take(0) == Seq::<char>::empty());
    while i < n
        invariant
            n == chars@.len(),
            chars@ == s@,
            start <= i <= n,
            digits == unsigned_digits(s@),
            digits == s@.skip(start as int),
            forall|k: int| 0 <= k < i - start ==> is_digit(#[trigger] digits[k]),
            value == digits_value(digits.take(i - start)),
            value <= u16::MAX,
        decreases n - i,
    {
        let c = chars[i];
        assert(digits[i - start] == c);
        if c < '0' || c > '9' {
            assert(!is_digit(digits[i - start]));
            return None;
        }
        value = value * 10 + (c as u32 - 48);
        i += 1;
        proof {
            let read = digits.take(i - start);
            assert(read.drop_last() == digits.take(i - start - 1));
            assert(read.last() == c);
        }
        if value > 0xFFFF {
            proof {
                lemma_digits_value_grows(digits, i - start);
            }
            return None;
        }
    }
    assert(digits.take(n - start) == digits);
    Some(value as u16)
}

/// Writing a number in decimal and reading it back gives the number.
pub proof fn decimal_reads_back(n: nat)
    ensures
        decimal(n).len() > 0,
        all_digits(decimal(n)),
        digits_value(decimal(n)) == n,
        n <= u16::MAX ==> u16_value(decimal(n)) == Some(n as u16),
    decreases n,
{
    if n < 10 {
        let s = seq![digit_char(n)];
        assert(s.drop_last() == Seq::<char>::empty());
        assert(digit_value(s.last()) == n);
        assert(digits_value(s.drop_last()) == 0);
        assert(is_digit(s[0]));
    } else {
        decimal_reads_back(n / 10);
        let s = decimal(n);
        assert(s.drop_last() == decimal(n / 10));
        assert(is_digit(s.last()));
        assert forall|i: int| 0 <= i < s.len() implies is_digit(#[trigger] s[i]) by {
            if i < s.len() - 1 {
                assert(s[i] == decimal(n / 10)[i]);
            }
        }
    }
    assert(is_digit(decimal(n)[0]));
    assert(unsigned_digits(decimal(n)) == decimal(n));
}

/// The decimal digit of `n` in the place of the ones, tens, hundreds and so on.
pub open spec fn digit_at(n: nat, place: nat) -> char {
    "0123456789"@[n as int / vstd::arithmetic::power::pow(10, place) % 10]
}

proof fn lemma_digit_char(d: nat)
    requires
        d < 10,
    ensures
        "0123456789"@[d as int] == digit_char(d),
        is_digit(digit_char(d)),
        digit_value(digit_char(d)) == d,
{
    reveal_strlit("0123456789");
}

proof fn lemma_digit_places(n: nat, k: nat)
    ensures
        k == 0 ==> digit_at(n, k) == digit_char(n % 10),
        k > 0 ==> digit_at(n, k) == digit_at(n / 10, (k - 1) as nat),
        vstd::arithmetic::power::pow(10, k) > 0,
        vstd::arithmetic::power::pow(10, 0) == 1,
        vstd::arithmetic::power::pow(10, k + 1) == 10 * vstd::arithmetic::power::pow(10, k),
{
    vstd::arithmetic::power::lemma_pow0(10);
    vstd::arithmetic::power::lemma_pow_positive(10, k);
    reveal(vstd::arithmetic::power::pow);
    if k > 0 {
        crate::bytes::lemma_place(n, 10, k);
    } else {
        lemma_digit_char(n % 10);
    }
}

/// A number is written with its own digits, each in its place, and with no more of them
/// than it needs.
pub proof fn decimal_has_the_digits_of_the_number(n: nat)
    ensures
        decimal(n).len() > 0,
        forall|i: int|
            0 <= i < decimal(n).len() ==> #[trigger] decimal(n)[i] == digit_at(
                n,
                (decimal(n).len() - 1 - i) as nat,
            ),
        n < vstd::arithmetic::power::pow(10, decimal(n).len()),
        decimal(n).len() > 1 ==> n >= vstd::arithmetic::power::pow(
            10,
            (decimal(n).len() - 1) as nat,
        ),
    decreases n,
{
    let s = decimal(n);
    lemma_digit_places(n, 0);
    if n < 10 {
        assert(n % 10 == n);
        assert(s.len() == 1);
    } else {
        let init = decimal(n / 10);
        decimal_has_the_digits_of_the_number(n / 10);
        lemma_digit_places(n, init.len());
        lemma_digit_places(n, (init.len() - 1) as nat);
        assert forall|i: int| 0 <= i < s.len() implies #[trigger] s[i] == digit_at(
            n,
            (s.len() - 1 - i) as nat,
        ) by {
            if i < s.len() - 1 {
                assert(s[i] == init[i]);
                lemma_digit_places(n, (s.len() - 1 - i) as nat);
            }
        }
    }
}

/// A run of digits stands for the number that has these digits in these places.
pub proof fn digits_stand_for_one_number(s: Seq<char>, n: nat)
    ensures
        (all_digits(s) && digits_value(s) == n) <==> {
            &&& n < vstd::arithmetic::power::pow(10, s.len())
            &&& forall|i: int|
                0 <= i < s.len() ==> #[trigger] s[i] == digit_at(n, (s.len() - 1 - i) as nat)
        },
    decreases s.len(),
{
    lemma_digit_places(n, 0);
    if s.len() > 0 {
        let init = s.drop_last();
        let m = n / 10;
        digits_stand_for_one_number(init, m);
        lemma_digit_places(n, init.len());
        lemma_digit_char(n % 10);
        assert forall|i: int|
            #![trigger s[i]]
            0 <= i < init.len() implies digit_at(n, (s.len() - 1 - i) as nat) == digit_at(
            m,
            (init.len() - 1 - i) as nat,
        ) by {
            lemma_digit_places(n, (s.len() - 1 - i) as nat);
        }
        if all_digits(s) && digits_value(s) == n {
            assert(is_digit(s[s.len() - 1]));
            assert forall|i: int| 0 <= i < init.len() implies is_digit(#[trigger] init[i]) by {
                assert(is_digit(s[i]));
            }
            assert(n / 10 == digits_value(init));
            lemma_digit_char(digit_value(s.last()));
            assert forall|i: int| 0 <= i < s.len() implies #[trigger] s[i] == digit_at(
                n,
                (s.len() - 1 - i) as nat,
            ) by {
                if i < init.len() {
                    assert(init[i] == s[i]);
                }
            }
        }
        if n < vstd::arithmetic::power::pow(10, s.len()) && forall|i: int|
            0 <= i < s.len() ==> #[trigger] s[i] == digit_at(n, (s.len() - 1 - i) as nat) {
            assert(s[s.len() - 1] == digit_at(n, 0));
            assert forall|i: int| 0 <= i < init.len() implies #[trigger] init[i] == digit_at(
                m,
                (init.len() - 1 - i) as nat,
            ) by {
                assert(init[i] == s[i]);
            }
            assert forall|i: int| 0 <= i < s.len() implies is_digit(#[trigger] s[i]) by {
                if i < init.len() {
                    assert(is_digit(init[i]));
                }
            }
        }
    }
}

/// A text is read as a 16-bit number exactly where it holds, behind at most one plus
/// sign, the digits of that number in their places; so no number is read as another,
/// and none that needs more than 16 bits is read at all.
pub proof fn a_number_read_is_the_number_written(plus: Seq<char>, digits: Seq<char>, v: u16)
    requires
        plus == seq!['+'] || (plus.len() == 0 && (digits.len() == 0 || digits[0] != '+')),
    ensures
        u16_value(plus + digits) == Some(v) <==> {
            &&& digits.len() > 0
            &&& v < vstd::arithmetic::power::pow(10, digits.len())
            &&& forall|i: int|
                0 <= i < digits.len() ==> #[trigger] digits[i] == digit_at(
                    v as nat,
                    (digits.len() - 1 - i) as nat,
                )
        },
{
    assert(unsigned_digits(plus + digits) == digits) by {
        if plus.len() > 0 {
            assert((plus + digits).skip(1) == digits);
        } else {
            assert(plus + digits == digits);
        }
    }
    digits_stand_for_one_number(digits, v as nat);
}

/// Letter case does not matter in a number.
pub proof fn case_variants_are_the_same_number(a: Seq<char>, b: Seq<char>)
    requires
        case_variants(a, b),
    ensures
        u16_value(a) == u16_value(b),
{
    if a.len() > 0 {
        assert(ascii_upper(a[0]) == ascii_upper(b[0]));
        lemma_case_variants_subrange(a, b, 1, a.len() as int);
        assert(a.subrange(1, a.len() as int) == a.skip(1));
        assert(b.subrange(1, a.len() as int) == b.skip(1));
    }
    lemma_case_variants_digits(unsigned_digits(a), unsigned_digits(b));
}

proof fn lemma_case_variants_digits(a: Seq<char>, b: Seq<char>)
    requires
        case_variants(a, b),
    ensures
        all_digits(a) == all_digits(b),
        all_digits(a) ==> a == b,
{
    assert forall|i: int| 0 <= i < a.len() implies is_digit(a[i]) == is_digit(b[i]) && (is_digit(
        a[i],
    ) ==> a[i] == b[i]) by {
        assert(ascii_upper(a[i]) == ascii_upper(b[i]));
    }
    if all_digits(b) {
        assert forall|i: int| 0 <= i < a.len() implies is_digit(#[trigger] a[i]) by {
            assert(is_digit(b[i]));
        }
    }
}

// ---------------------------------------------------------------------------
// Padding
// ---------------------------------------------------------------------------

/// `n` spaces.
pub open spec fn spaces(n: nat) -> Seq<char> {
    Seq::new(n, |i: int| ' ')
}

/// `s` followed by as many spaces as bring it to `width` characters; a text that
/// is as long already stays as it is.
pub open spec fn padded(s: Seq<char>, width: nat) -> Seq<char> {
    if s.len() < width {
        s + spaces((width - s.len()) as nat)
    } else {
        s
    }
}

/// A padded text starts with the text, only spaces follow, and it fills the field.
pub proof fn padding_only_adds_spaces(s: Seq<char>, width: nat)
    ensures
        padded(s, width).len() == (if s.len() > width {
            s.len()
        } else {
            width
        }),
        padded(s, width).take(s.len() as int) == s,
        forall|i: int| s.len() <= i < padded(s, width).len() ==> #[trigger] padded(s, width)[i] == ' ',
{
}

/// `s` on the left of a field of `width` characters.
pub fn pad_right(s: &str, width: usize) -> (r: String)
    ensures
        r@ == padded(s@, width as nat),
{
    let mut r = s.to_owned();
    let len: usize = s.unicode_len();
    let mut i: usize = len;
    proof {
        reveal_strlit(" ");
    }
    assert(s@ + spaces(0) == s@);
    while i < width
        invariant
            len == s@.len(),
            len <= i,
            i <= width || i == len,
            r@ == s@ + spaces((i - len) as nat),
            " "@ == seq![' '],
        decreases width - i,
    {
        r.append(" ");
        i += 1;
        assert(spaces((i - 1 - len) as nat) + seq![' '] == spaces((i - len) as nat));
        assert(s@ + spaces((i - 1 - len) as nat) + seq![' '] == s@ + spaces((i - len) as nat));
    }
    r
}

} // verus!
