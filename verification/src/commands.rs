//! Text commands that set a variable of the device, and the packets that carry
//! them over the serial line.
//!
//! A command is `!NAME VALUE`. The name is matched without regard to letter case;
//! the value is read as the type of the named variable.

use vstd::prelude::*;
use vstd::string::*;

use crate::bytes::{u16_to_le, u16_to_ne, u32_to_ne};
use crate::text::{parse_u16, split_words, trim};

verus! {

/// A variable of the device, with the value it is to take.
#[derive(Debug, Clone, Copy, PartialEq, Eq, Structural)]
pub enum Variable {
    /// `PWM_A`: a duty cycle.
    PwmA(u16),
    /// `PWM_B`: a duty cycle.
    PwmB(u16),
    /// `F_TEST`: a single-precision number, as its IEEE 754 bit pattern.
    FTest(u32),
}

impl Variable {
    /// The byte that names the variable in a packet.
    pub open spec fn id(self) -> u8 {
        match self {
            Variable::PwmA(_) => 1,
            Variable::PwmB(_) => 2,
            Variable::FTest(_) => 3,
        }
    }

    /// The value as it stands in a packet: its bytes in memory, in the byte order of the
    /// machine.
    pub open spec fn value(self) -> Seq<u8> {
        match self {
            Variable::PwmA(v) => crate::bytes::ne_bytes(v as nat, 2),
            Variable::PwmB(v) => crate::bytes::ne_bytes(v as nat, 2),
            Variable::FTest(v) => crate::bytes::ne_bytes(v as nat, 4),
        }
    }

    /// The packet that sets the variable.
    pub open spec fn packet(self) -> Seq<u8> {
        packet_bytes(self.id(), self.value())
    }

    /// The variable that a command names, with the value it gives. A number for
    /// `F_TEST` comes from `float_bits`.
    pub open spec fn named(name: Seq<char>, value: Seq<char>, float_bits: Option<u32>) -> Option<
        Variable,
    > {
        let id = crate::text::uppercase(name);
        if id == "PWM_A"@ {
            match crate::text::u16_value(value) {
                Some(v) => Some(Variable::PwmA(v)),
                None => None,
            }
        } else if id == "PWM_B"@ {
            match crate::text::u16_value(value) {
                Some(v) => Some(Variable::PwmB(v)),
                None => None,
            }
        } else if id == "F_TEST"@ {
            match float_bits {
                Some(v) => Some(Variable::FTest(v)),
                None => None,
            }
        } else {
            None
        }
    }

    /// The byte that names the variable in a packet.
    pub fn discriminant(&self) -> (r: u8)
        ensures
            r == self.id(),
    {
        match self {
            Variable::PwmA(_) => 0x01,
            Variable::PwmB(_) => 0x02,
            Variable::FTest(_) => 0x03,
        }
    }

    /// The bytes of the value, in the byte order of the machine.
    pub fn value_as_bytes(&self) -> (r: Vec<u8>)
        ensures
            r@ == self.value(),
    {
        match self {
            Variable::PwmA(v) => u16_to_ne(*v),
            Variable::PwmB(v) => u16_to_ne(*v),
            Variable::FTest(v) => u32_to_ne(*v),
        }
    }

    /// The variable that `name_input` names, with the value that `value_str_input`
    /// gives it.
    ///
    /// `float_bits` is the single-precision number that `value_str_input` reads as,
    /// or nothing where it is no number. Only `F_TEST` looks at it.
    pub fn from_var_id_and_value(
        name_input: &str,
        value_str_input: &str,
        float_bits: Option<u32>,
    ) -> (r: Option<Variable>)
        ensures
            r == Variable::named(name_input@, value_str_input@, float_bits),
    {
        let name_upper = name_input.to_uppercase();
        if name_upper == "PWM_A".to_owned() {
            match parse_u16(value_str_input) {
                Some(v) => Some(Variable::PwmA(v)),
                None => None,
            }
        } else if name_upper == "PWM_B".to_owned() {
            match parse_u16(value_str_input) {
                Some(v) => Some(Variable::PwmB(v)),
                None => None,
            }
        } else if name_upper == "F_TEST".to_owned() {
            match float_bits {
                Some(v) => Some(Variable::FTest(v)),
                None => None,
            }
        } else {
            None
        }
    }
}

/// A packet: the number of bytes that follow, in two bytes, least significant first;
/// the byte that names a variable; the bytes of its value.
pub open spec fn packet_bytes(id: u8, value: Seq<u8>) -> Seq<u8> {
    crate::bytes::le_bytes(1 + value.len(), 2) + seq![id] + value
}

/// The name and the value of the command that a message holds.
pub open spec fn command(msg: Seq<char>) -> Option<(Seq<char>, Seq<char>)> {
    let line = crate::text::trimmed(msg);
    if line.len() > 0 && line[0] == '!' {
        let parts = crate::text::words(line.skip(1));
        if parts.len() == 2 {
            Some((parts[0], parts[1]))
        } else {
            None
        }
    } else {
        None
    }
}

/// The packet that a message asks for.
pub open spec fn requested_packet(msg: Seq<char>, float_bits: Option<u32>) -> Option<Seq<u8>> {
    match command(msg) {
        Some((name, value)) => match Variable::named(name, value, float_bits) {
            Some(v) => Some(v.packet()),
            None => None,
        },
        None => None,
    }
}

/// The text in a message that is to be read as a single-precision number.
pub open spec fn requested_float(msg: Seq<char>) -> Option<Seq<char>> {
    match command(msg) {
        Some((name, value)) => if crate::text::uppercase(name) == "F_TEST"@ {
            Some(value)
        } else {
            None
        },
        None => None,
    }
}

fn parse_command(msg: &str) -> (r: Option<(String, String)>)
    ensures
        match r {
            Some((name, value)) => command(msg@) == Some((name@, value@)),
            None => command(msg@) is None,
        },
{
    let msg = trim(msg);
    let len: usize = msg.unicode_len();
    if len == 0 || msg.get_char(0) != '!' {
        return None;
    }
    let rest = msg.substring_char(1, len);
    assert(rest@ == msg@.skip(1));
    let mut parts = split_words(rest);
    assert(crate::text::views(parts@).len() == parts@.len());
    if parts.len() != 2 {
        return None;
    }
    assert(crate::text::views(parts@)[0] == parts@[0]@);
    assert(crate::text::views(parts@)[1] == parts@[1]@);
    let value = parts.remove(1);
    let name = parts.remove(0);
    Some((name, value))
}

/// The packet that the command in `msg` asks for, or nothing where `msg` holds no
/// valid command.
///
/// `float_bits` is the single-precision number that the text of [`float_text`]
/// reads as, by its bit pattern, or nothing where that text is no number.
pub fn process_udp_message(msg: &str, float_bits: Option<u32>) -> (r: Option<Vec<u8>>)
    ensures
        match r {
            Some(packet) => requested_packet(msg@, float_bits) == Some(packet@),
            None => requested_packet(msg@, float_bits) is None,
        },
{
    match parse_command(msg) {
        Some((name, value)) => match Variable::from_var_id_and_value(
            name.as_str(),
            value.as_str(),
            float_bits,
        ) {
            Some(var) => Some(create_variable_packet(var)),
            None => None,
        },
        None => None,
    }
}

/// The text in `msg` that is to be read as a single-precision number: the value of
/// a command that names `F_TEST`.
pub fn float_text(msg: &str) -> (r: Option<String>)
    ensures
        match r {
            Some(text) => requested_float(msg@) == Some(text@),
            None => requested_float(msg@) is None,
        },
{
    match parse_command(msg) {
        Some((name, value)) => if name.as_str().to_uppercase() == "F_TEST".to_owned() {
            Some(value)
        } else {
            None
        },
        None => None,
    }
}

/// The packet that sets `var`.
pub fn create_variable_packet(var: Variable) -> (r: Vec<u8>)
    ensures
        r@ == var.packet(),
{
    proof {
        lemma_value_len(var);
    }
    variable_packet(var.discriminant(), var.value_as_bytes())
}

/// The packet that sets the variable named by `id` to the value with the given bytes.
pub fn variable_packet(id: u8, value: Vec<u8>) -> (r: Vec<u8>)
    requires
        value@.len() < u16::MAX,
    ensures
        r@ == packet_bytes(id, value@),
{
    let mut data = value;
    let total_len: u16 = 1 + data.len() as u16;
    let mut buffer = u16_to_le(total_len);
    buffer.push(id);
    buffer.append(&mut data);
    assert(buffer@ == packet_bytes(id, value@));
    buffer
}

// ---------------------------------------------------------------------------
// Packets
// ---------------------------------------------------------------------------

proof fn lemma_value_len(var: Variable)
    ensures
        var.value().len() == (if var is FTest {
            4nat
        } else {
            2nat
        }),
        crate::bytes::ne_value(var.value()) == (match var {
            Variable::PwmA(v) => v as nat,
            Variable::PwmB(v) => v as nat,
            Variable::FTest(v) => v as nat,
        }),
{
    crate::bytes::byte_range_values();
    match var {
        Variable::PwmA(v) => crate::bytes::ne_bytes_read_back(v as nat, 2),
        Variable::PwmB(v) => crate::bytes::ne_bytes_read_back(v as nat, 2),
        Variable::FTest(v) => crate::bytes::ne_bytes_read_back(v as nat, 4),
    }
}

/// A packet starts with the number of the bytes that follow those two; the id
/// comes next; the rest is the value.
pub proof fn packet_layout(var: Variable)
    ensures
        var.packet().len() >= 3,
        crate::bytes::le_value(var.packet().take(2)) == var.packet().len() - 2,
        var.packet()[2] == var.id(),
        var.packet().skip(3) == var.value(),
        crate::bytes::ne_value(var.packet().skip(3)) == (match var {
            Variable::PwmA(v) => v as nat,
            Variable::PwmB(v) => v as nat,
            Variable::FTest(v) => v as nat,
        }),
{
    lemma_value_len(var);
    crate::bytes::byte_range_values();
    let head = crate::bytes::le_bytes(1 + var.value().len(), 2);
    crate::bytes::le_bytes_read_back(1 + var.value().len(), 2);
    assert(var.packet().take(2) == head);
    assert(var.packet().skip(3) == var.value());
}

/// Packets delimit themselves: from the bytes of a packet and whatever follows it,
/// the variable, its value and what follows can be told.
pub proof fn packets_delimit_themselves(a: Variable, b: Variable, x: Seq<u8>, y: Seq<u8>)
    requires
        a.packet() + x == b.packet() + y,
    ensures
        a == b,
        x == y,
{
    packet_layout(a);
    packet_layout(b);
    lemma_value_len(a);
    lemma_value_len(b);
    let s = a.packet() + x;
    assert(s.take(2) == a.packet().take(2));
    assert(s.take(2) == b.packet().take(2));
    let n = a.packet().len() as int;
    assert(b.packet().len() == n);
    assert(s.take(n) == a.packet());
    assert(s.take(n) == b.packet());
    assert(s.skip(n) == x);
    assert(s.skip(n) == y);
}

// ---------------------------------------------------------------------------
// Messages
// ---------------------------------------------------------------------------

/// Whether `s` holds nothing but white space.
pub open spec fn blank(s: Seq<char>) -> bool {
    forall|i: int| 0 <= i < s.len() ==> crate::text::white_space(#[trigger] s[i])
}

/// Whether `s` is one word: not empty, and without white space.
pub open spec fn one_word(s: Seq<char>) -> bool {
    &&& s.len() > 0
    &&& forall|i: int| 0 <= i < s.len() ==> !crate::text::white_space(#[trigger] s[i])
}

proof fn lemma_blank_rest(s: Seq<char>)
    requires
        blank(s),
        s.len() > 0,
    ensures
        blank(s.skip(1)),
{
    assert forall|i: int| 0 <= i < s.skip(1).len() implies crate::text::white_space(
        #[trigger] s.skip(1)[i],
    ) by {
        assert(s.skip(1)[i] == s[i + 1]);
    }
}

proof fn lemma_trim_start_blank(l: Seq<char>, s: Seq<char>)
    requires
        blank(l),
    ensures
        crate::text::trim_start(l + s) == crate::text::trim_start(s),
    decreases l.len(),
{
    if l.len() == 0 {
        assert(l + s == s);
    } else {
        assert((l + s)[0] == l[0]);
        assert((l + s).skip(1) == l.skip(1) + s);
        lemma_blank_rest(l);
        lemma_trim_start_blank(l.skip(1), s);
    }
}

proof fn lemma_trim_end_blank(s: Seq<char>, r: Seq<char>)
    requires
        blank(r),
    ensures
        crate::text::trim_end(s + r) == crate::text::trim_end(s),
    decreases r.len(),
{
    if r.len() == 0 {
        assert(s + r == s);
    } else {
        assert((s + r).last() == r[r.len() - 1]);
        assert((s + r).drop_last() == s + r.drop_last());
        lemma_trim_end_blank(s, r.drop_last());
    }
}

proof fn lemma_trimmed_blank_end(m: Seq<char>, r: Seq<char>)
    requires
        blank(r),
    ensures
        crate::text::trimmed(m + r) == crate::text::trimmed(m),
    decreases m.len(),
{
    if m.len() == 0 {
        assert(m + r == r + m);
        lemma_trim_start_blank(r, m);
    } else if crate::text::white_space(m[0]) {
        assert((m + r)[0] == m[0]);
        assert((m + r).skip(1) == m.skip(1) + r);
        lemma_trimmed_blank_end(m.skip(1), r);
    } else {
        assert((m + r)[0] == m[0]);
        lemma_trim_end_blank(m, r);
    }
}

proof fn lemma_words_blank(l: Seq<char>, s: Seq<char>)
    requires
        blank(l),
    ensures
        crate::text::words(l + s) == crate::text::words(s),
    decreases l.len(),
{
    if l.len() == 0 {
        assert(l + s == s);
    } else {
        assert((l + s)[0] == l[0]);
        assert((l + s).skip(1) == l.skip(1) + s);
        lemma_blank_rest(l);
        lemma_words_blank(l.skip(1), s);
    }
}

proof fn lemma_words_first(w: Seq<char>, s: Seq<char>)
    requires
        one_word(w),
        s.len() > 0 ==> crate::text::white_space(s[0]),
    ensures
        crate::text::words(w + s) == seq![w] + crate::text::words(s),
{
    let t = w + s;
    assert(t[0] == w[0]);
    assert forall|i: int| 0 <= i < w.len() implies !crate::text::white_space(#[trigger] t[i]) by {
        assert(t[i] == w[i]);
    }
    if w.len() < t.len() {
        assert(t[w.len() as int] == s[0]);
    }
    crate::text::lemma_word_len_is(t, w.len() as int);
    assert(t.take(w.len() as int) == w);
    assert(t.skip(w.len() as int) == s);
}

/// White space around a message does not matter.
pub proof fn surrounding_white_space_is_ignored(
    before: Seq<char>,
    msg: Seq<char>,
    after: Seq<char>,
    float_bits: Option<u32>,
)
    requires
        blank(before),
        blank(after),
    ensures
        command(before + msg + after) == command(msg),
        requested_float(before + msg + after) == requested_float(msg),
        requested_packet(before + msg + after, float_bits) == requested_packet(msg, float_bits),
{
    lemma_trimmed_blank_end(before + msg, after);
    lemma_trim_start_blank(before, msg);
}

/// An exclamation mark and two words are a command, whatever white space stands
/// between them.
pub proof fn two_words_are_a_command(
    margin: Seq<char>,
    name: Seq<char>,
    gap: Seq<char>,
    value: Seq<char>,
)
    requires
        blank(margin),
        one_word(name),
        gap.len() > 0,
        blank(gap),
        one_word(value),
    ensures
        command(seq!['!'] + margin + name + gap + value) == Some((name, value)),
{
    let line = seq!['!'] + margin + name + gap + value;
    assert(line[0] == '!');
    assert(line.last() == value[value.len() - 1]);
    assert(crate::text::trim_start(line) == line);
    assert(crate::text::trim_end(line) == line);
    let none = Seq::<char>::empty();
    assert(line.skip(1) == margin + (name + (gap + (value + none))));
    lemma_words_blank(margin, name + (gap + (value + none)));
    assert((gap + (value + none))[0] == gap[0]);
    lemma_words_first(name, gap + (value + none));
    lemma_words_blank(gap, value + none);
    lemma_words_first(value, none);
    assert(crate::text::words(none) == Seq::<Seq<char>>::empty());
    assert(crate::text::words(line.skip(1)) == seq![name, value]);
}

/// The words of a text are found one by one: white space in front of a word is passed
/// over, a word ends at white space or at the end, and white space alone holds none.
pub proof fn words_are_found_one_by_one(gap: Seq<char>, word: Seq<char>, rest: Seq<char>)
    requires
        blank(gap),
        one_word(word),
        rest.len() == 0 || crate::text::white_space(rest[0]),
    ensures
        crate::text::words(gap) == Seq::<Seq<char>>::empty(),
        crate::text::words(gap + word + rest) == seq![word] + crate::text::words(rest),
{
    let none = Seq::<char>::empty();
    assert(gap + none == gap);
    assert(crate::text::words(none) == Seq::<Seq<char>>::empty());
    lemma_words_blank(gap, none);
    assert(gap + word + rest == gap + (word + rest));
    lemma_words_blank(gap, word + rest);
    lemma_words_first(word, rest);
}

/// Where a text has no words it is white space; otherwise it starts with white space and
/// the first of its words, and the other words stand in what follows.
proof fn lemma_first_word(s: Seq<char>) -> (parts: (Seq<char>, Seq<char>))
    ensures
        crate::text::words(s).len() == 0 ==> blank(s),
        crate::text::words(s).len() > 0 ==> {
            &&& blank(parts.0)
            &&& one_word(crate::text::words(s)[0])
            &&& s == parts.0 + crate::text::words(s)[0] + parts.1
            &&& parts.1.len() == 0 || crate::text::white_space(parts.1[0])
            &&& crate::text::words(parts.1) == crate::text::words(s).skip(1)
        },
    decreases s.len(),
{
    let none = Seq::<char>::empty();
    if s.len() == 0 {
        (none, none)
    } else if crate::text::white_space(s[0]) {
        let rest = s.skip(1);
        let parts = lemma_first_word(rest);
        let gap = seq![s[0]] + parts.0;
        if crate::text::words(s).len() == 0 {
            assert forall|i: int| 0 <= i < s.len() implies crate::text::white_space(
                #[trigger] s[i],
            ) by {
                if i > 0 {
                    assert(rest[i - 1] == s[i]);
                }
            }
        } else {
            assert(s == seq![s[0]] + rest);
            assert(s == gap + crate::text::words(s)[0] + parts.1);
        }
        (gap, parts.1)
    } else {
        crate::text::lemma_word_len(s);
        let n = crate::text::word_len(s) as int;
        let word = s.take(n);
        assert forall|i: int| 0 <= i < n implies !crate::text::white_space(#[trigger] word[i]) by {
            assert(word[i] == s[i]);
        }
        assert(s == none + word + s.skip(n));
        assert(crate::text::words(s).skip(1) == crate::text::words(s.skip(n)));
        (none, s.skip(n))
    }
}

/// The pieces of a message that holds a command.
pub struct CommandParts {
    /// White space in front of the exclamation mark.
    pub before: Seq<char>,
    /// White space in front of the name.
    pub margin: Seq<char>,
    /// White space between the name and the value.
    pub gap: Seq<char>,
    /// White space behind the value.
    pub after: Seq<char>,
}

/// A message holds a command only where it is an exclamation mark and two words, with
/// white space around them.
pub proof fn commands_are_two_words(msg: Seq<char>, name: Seq<char>, value: Seq<char>) -> (parts:
    CommandParts)
    requires
        command(msg) == Some((name, value)),
    ensures
        blank(parts.before),
        blank(parts.margin),
        one_word(name),
        parts.gap.len() > 0,
        blank(parts.gap),
        one_word(value),
        blank(parts.after),
        msg == parts.before + seq!['!'] + parts.margin + name + parts.gap + value + parts.after,
{
    let ends = crate::text::trimming_takes_white_space_only(msg);
    let line = crate::text::trimmed(msg);
    let before = msg.take(ends.0);
    let behind = msg.skip(ends.1);
    assert forall|i: int| 0 <= i < before.len() implies crate::text::white_space(
        #[trigger] before[i],
    ) by {
        assert(before[i] == msg[i]);
    }
    assert forall|i: int| 0 <= i < behind.len() implies crate::text::white_space(
        #[trigger] behind[i],
    ) by {
        assert(behind[i] == msg[ends.1 + i]);
    }
    let s = line.skip(1);
    let first = lemma_first_word(s);
    let t = first.1;
    assert(crate::text::words(t).len() == 1);
    assert(crate::text::words(t)[0] == value);
    let second = lemma_first_word(t);
    let u = second.1;
    let last = lemma_first_word(u);
    assert(crate::text::words(u).len() == 0);
    let after = u + behind;
    assert forall|i: int| 0 <= i < after.len() implies crate::text::white_space(
        #[trigger] after[i],
    ) by {
        if i < u.len() {
            assert(after[i] == u[i]);
        } else {
            assert(after[i] == behind[i - u.len()]);
        }
    }
    if second.0.len() == 0 {
        assert(t[0] == value[0]);
    }
    assert(msg == before + line + behind);
    assert(line == seq!['!'] + s);
    assert(msg == before + seq!['!'] + first.0 + name + second.0 + value + after);
    CommandParts { before, margin: first.0, gap: second.0, after }
}

/// An exclamation mark and two words are a command, whatever white space stands around
/// and between them.
pub proof fn two_words_are_a_command_in_any_place(
    parts: CommandParts,
    name: Seq<char>,
    value: Seq<char>,
)
    requires
        blank(parts.before),
        blank(parts.margin),
        one_word(name),
        parts.gap.len() > 0,
        blank(parts.gap),
        one_word(value),
        blank(parts.after),
    ensures
        command(
            parts.before + seq!['!'] + parts.margin + name + parts.gap + value + parts.after,
        ) == Some((name, value)),
{
    let line = seq!['!'] + parts.margin + name + parts.gap + value;
    two_words_are_a_command(parts.margin, name, parts.gap, value);
    surrounding_white_space_is_ignored(parts.before, line, parts.after, None);
    assert(parts.before + line + parts.after == parts.before + seq!['!'] + parts.margin + name
        + parts.gap + value + parts.after);
}

/// Letter case does not matter: messages that differ in the case of ASCII letters alone
/// ask for the same packet, and the texts that they give for a single-precision number
/// differ in letter case alone.
pub proof fn letter_case_does_not_matter(m1: Seq<char>, m2: Seq<char>, float_bits: Option<u32>)
    requires
        crate::text::case_variants(m1, m2),
    ensures
        requested_packet(m1, float_bits) == requested_packet(m2, float_bits),
        requested_float(m1) is Some == requested_float(m2) is Some,
        requested_float(m1) is Some ==> crate::text::case_variants(
            requested_float(m1)->0,
            requested_float(m2)->0,
        ),
{
    crate::text::case_variants_trim_alike(m1, m2);
    let l1 = crate::text::trimmed(m1);
    let l2 = crate::text::trimmed(m2);
    if l1.len() > 0 {
        assert(crate::text::ascii_upper(l1[0]) == crate::text::ascii_upper(l2[0]));
        assert forall|i: int| 0 <= i < l1.len() - 1 implies crate::text::ascii_upper(
            #[trigger] l1.skip(1)[i],
        ) == crate::text::ascii_upper(l2.skip(1)[i]) by {
            assert(l1.skip(1)[i] == l1[i + 1]);
        }
        crate::text::case_variants_have_the_same_words(l1.skip(1), l2.skip(1));
        let w1 = crate::text::words(l1.skip(1));
        let w2 = crate::text::words(l2.skip(1));
        if w1.len() == 2 {
            assert(crate::text::case_variants(w1[0], w2[0]));
            assert(crate::text::case_variants(w1[1], w2[1]));
            crate::text::case_variants_agree(w1[0], w2[0]);
            crate::text::case_variants_are_the_same_number(w1[1], w2[1]);
        }
    }
}

/// A message asks for the same packet in lower case and in upper case.
pub proof fn lower_and_upper_case_ask_for_the_same(msg: Seq<char>, float_bits: Option<u32>)
    ensures
        requested_packet(msg.map_values(|c: char| crate::text::ascii_lower(c)), float_bits)
            == requested_packet(msg, float_bits),
        requested_packet(msg.map_values(|c: char| crate::text::ascii_upper(c)), float_bits)
            == requested_packet(msg, float_bits),
{
    let lower = msg.map_values(|c: char| crate::text::ascii_lower(c));
    let upper = msg.map_values(|c: char| crate::text::ascii_upper(c));
    assert(crate::text::case_variants(lower, msg));
    assert(crate::text::case_variants(upper, msg));
    letter_case_does_not_matter(lower, msg, float_bits);
    letter_case_does_not_matter(upper, msg, float_bits);
}

/// Every value of a 16-bit variable can be set: its decimal digits after the
/// variable's name, in any letter case, ask for the packet that sets it.
pub proof fn every_pwm_value_can_be_set(name: Seq<char>, v: u16, float_bits: Option<u32>)
    requires
        one_word(name),
    ensures
        crate::text::uppercase(name) == "PWM_A"@ ==> requested_packet(
            seq!['!'] + name + seq![' '] + crate::text::decimal(v as nat),
            float_bits,
        ) == Some(Variable::PwmA(v).packet()),
        crate::text::uppercase(name) == "PWM_B"@ ==> requested_packet(
            seq!['!'] + name + seq![' '] + crate::text::decimal(v as nat),
            float_bits,
        ) == Some(Variable::PwmB(v).packet()),
{
    let digits = crate::text::decimal(v as nat);
    let none = Seq::<char>::empty();
    crate::text::decimal_reads_back(v as nat);
    assert forall|i: int| 0 <= i < digits.len() implies !crate::text::white_space(
        #[trigger] digits[i],
    ) by {
        assert(crate::text::is_digit(digits[i]));
    }
    two_words_are_a_command(none, name, seq![' '], digits);
    assert(seq!['!'] + none == seq!['!']);
    reveal_strlit("PWM_A");
    reveal_strlit("PWM_B");
    assert("PWM_A"@[4] != "PWM_B"@[4]);
}

/// Every single-precision number can be set: whatever word is read as the number
/// after a name of `F_TEST`, the number's bit pattern is what the packet carries.
pub proof fn every_float_can_be_set(name: Seq<char>, value: Seq<char>, bits: u32)
    requires
        one_word(name),
        one_word(value),
        crate::text::uppercase(name) == "F_TEST"@,
    ensures
        requested_float(seq!['!'] + name + seq![' '] + value) == Some(value),
        requested_packet(seq!['!'] + name + seq![' '] + value, Some(bits)) == Some(
            Variable::FTest(bits).packet(),
        ),
        requested_packet(seq!['!'] + name + seq![' '] + value, None) is None,
{
    let none = Seq::<char>::empty();
    two_words_are_a_command(none, name, seq![' '], value);
    assert(seq!['!'] + none == seq!['!']);
    reveal_strlit("PWM_A");
    reveal_strlit("PWM_B");
    reveal_strlit("F_TEST");
    assert("F_TEST"@.len() != "PWM_A"@.len());
    assert("F_TEST"@.len() != "PWM_B"@.len());
}

/// The number read from a message's text matters only where the message asks for
/// one to be read.
pub proof fn floats_matter_only_where_requested(
    msg: Seq<char>,
    bits1: Option<u32>,
    bits2: Option<u32>,
)
    requires
        requested_float(msg) is None,
    ensures
        requested_packet(msg, bits1) == requested_packet(msg, bits2),
{
}

} // verus!
