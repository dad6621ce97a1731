//! What the operations are for: laws over what is handed to them and what they give.

use vstd::prelude::*;
use vstd::string::*;

use crate::commands::{
    create_variable_packet, float_text, process_udp_message, variable_packet, CommandParts, Variable,
};
use crate::frames::{decode_frame, log_record, FrameError, SerialBuffer};
use crate::gateway::{
    datagram_float_text, event_source, handle_command_read, log_line, telemetry_failure,
    write_failure, CommandRead, CommandStep, EventSource, FrameStep, GatewayState, LogDisplay,
    LogStep, SerialGateway, SerialRead, SerialStep,
};
use crate::plots::{timeplot_data, xyplot_data};
use crate::setup::{
    command_address, command_notice, precache_notice, telemetry_address, telemetry_notice, SetupStep,
};
use crate::telemetry::{plot_messages, ArgValue, LogRecord};
use crate::text::{decimal_text, pad_right, parse_u16, split_words, to_chars, trim};

verus! {

// ---------------------------------------------------------------------------
// Text and numbers
// ---------------------------------------------------------------------------

/// What follows the plus sign that a text may start with.
pub open spec fn behind_plus(s: Seq<char>) -> Seq<char> {
    if s.len() > 0 && s[0] == '+' {
        s.skip(1)
    } else {
        s
    }
}

/// Whether `s` is made of the digits of `n`, each in its place, behind zeros or nothing.
pub open spec fn has_digits_of(s: Seq<char>, n: nat) -> bool {
    &&& s.len() > 0
    &&& n < vstd::arithmetic::power::pow(10, s.len())
    &&& forall|i: int|
        0 <= i < s.len() ==> #[trigger] s[i] == crate::text::digit_at(n, (s.len() - 1 - i) as nat)
}

proof fn lemma_u16_value(s: Seq<char>, v: u16)
    ensures
        crate::text::u16_value(s) == Some(v) <==> has_digits_of(behind_plus(s), v as nat),
{
    let plus = s.take(s.len() - behind_plus(s).len());
    assert(plus + behind_plus(s) == s);
    assert(plus == seq!['+'] || plus.len() == 0);
    crate::text::a_number_read_is_the_number_written(plus, behind_plus(s), v);
}

proof fn lemma_decimal(n: nat)
    ensures
        has_digits_of(crate::text::decimal(n), n),
        crate::text::decimal(n).len() > 1 ==> crate::text::decimal(n)[0] != '0',
{
    crate::text::decimal_has_the_digits_of_the_number(n);
    let d = crate::text::decimal(n);
    if d.len() > 1 {
        let p = vstd::arithmetic::power::pow(10, (d.len() - 1) as nat);
        vstd::arithmetic::power::lemma_pow_positive(10, (d.len() - 1) as nat);
        assert(vstd::arithmetic::power::pow(10, d.len()) == 10 * p) by {
            reveal(vstd::arithmetic::power::pow);
        }
        assert(1 <= n as int / p < 10) by (nonlinear_arith)
            requires
                0 < p <= n < 10 * p,
        ;
        reveal_strlit("0123456789");
        assert(d[0] == crate::text::digit_at(n, (d.len() - 1) as nat));
    }
}

/// `parse_u16` reads a number exactly where the text is made of that number's digits,
/// behind at most one plus sign.
pub proof fn parse_u16_reads_the_number_that_stands_there(s: &str, r: Option<u16>, v: u16)
    requires
        call_ensures(parse_u16, (s,), r),
    ensures
        r == Some(v) <==> has_digits_of(behind_plus(s@), v as nat),
{
    lemma_u16_value(s@, v);
}

/// `decimal_text` writes a number with its own digits, and with no zero in front of
/// others.
pub proof fn decimal_text_writes_the_digits(n: u64, r: String)
    requires
        call_ensures(decimal_text, (n,), r),
    ensures
        has_digits_of(r@, n as nat),
        r@.len() > 1 ==> r@[0] != '0',
{
    lemma_decimal(n as nat);
}

/// `pad_right` keeps the text, and fills the field behind it with spaces.
pub proof fn pad_right_adds_spaces_only(s: &str, width: usize, r: String)
    requires
        call_ensures(pad_right, (s, width), r),
    ensures
        r@.len() >= s@.len(),
        r@.take(s@.len() as int) == s@,
        forall|i: int| s@.len() <= i < r@.len() ==> #[trigger] r@[i] == ' ',
        s@.len() <= width ==> r@.len() == width,
        s@.len() > width ==> r@ == s@,
{
    crate::text::padding_only_adds_spaces(s@, width as nat);
}

/// `to_chars` gives each character once, in order.
pub proof fn to_chars_keeps_every_character(s: &str, r: Vec<char>)
    requires
        call_ensures(to_chars, (s,), r),
    ensures
        r@.len() == s@.len(),
        forall|i: int| 0 <= i < s@.len() ==> r@[i] == #[trigger] s@[i],
{
}

/// `trim` takes away white space and nothing else, and leaves none at the ends.
pub proof fn trim_takes_white_space_only(s: &str, r: &str) -> (ends: (int, int))
    requires
        call_ensures(trim, (s,), r),
    ensures
        0 <= ends.0 <= ends.1 <= s@.len(),
        r@ == s@.subrange(ends.0, ends.1),
        forall|i: int|
            0 <= i < ends.0 || ends.1 <= i < s@.len() ==> crate::text::white_space(
                #[trigger] s@[i],
            ),
        ends.0 < ends.1 ==> !crate::text::white_space(s@[ends.0]) && !crate::text::white_space(
            s@[ends.1 - 1],
        ),
{
    crate::text::trimming_takes_white_space_only(s@)
}

/// `split_words` of white space, a word and a rest that starts with white space gives the
/// word, and then the words of the rest; of white space alone it gives nothing.
pub proof fn split_words_finds_word_after_word(
    s: &str,
    r: Vec<String>,
    rest: &str,
    others: Vec<String>,
    gap: Seq<char>,
    word: Seq<char>,
)
    requires
        call_ensures(split_words, (s,), r),
        call_ensures(split_words, (rest,), others),
        crate::commands::blank(gap),
        crate::commands::one_word(word),
        rest@.len() == 0 || crate::text::white_space(rest@[0]),
    ensures
        s@ == gap ==> r@.len() == 0,
        s@ == gap + word + rest@ ==> {
            &&& r@.len() == 1 + others@.len()
            &&& r@[0]@ == word
            &&& forall|i: int| 0 <= i < others@.len() ==> #[trigger] r@[i + 1]@ == others@[i]@
        },
{
    crate::commands::words_are_found_one_by_one(gap, word, rest@);
    let found = crate::text::views(r@);
    let more = crate::text::views(others@);
    assert(found.len() == r@.len());
    assert(more.len() == others@.len());
    if s@ == gap + word + rest@ {
        assert(found == seq![word] + more);
        assert(found[0] == r@[0]@);
        assert forall|i: int| 0 <= i < others@.len() implies #[trigger] r@[i + 1]@
            == others@[i]@ by {
            assert(found[i + 1] == r@[i + 1]@);
            assert(more[i] == others@[i]@);
        }
    }
}

// ---------------------------------------------------------------------------
// Commands
// ---------------------------------------------------------------------------

/// A packet starts with the number of bytes behind the first two, least significant byte
/// first; then come the id and the value, as they were given.
pub proof fn variable_packet_states_its_length(id: u8, value: Vec<u8>, r: Vec<u8>)
    requires
        call_ensures(variable_packet, (id, value), r),
    ensures
        r@.len() == 3 + value@.len(),
        value@.len() < u16::MAX ==> r@[0] + 256 * r@[1] == r@.len() - 2,
        r@[2] == id,
        r@.skip(3) == value@,
{
    let n = 1 + value@.len();
    let head = crate::bytes::le_bytes(n, 2);
    crate::bytes::bytes_are_digits_in_base_256(n, 2);
    assert(head[0] == n % 256 && (n < 65536 ==> head[1] == n / 256)) by {
        reveal_with_fuel(crate::bytes::le_bytes, 3);
    }
    assert(r@[0] == head[0] && r@[1] == head[1]);
    assert(r@.skip(3) == value@);
}

/// The packet for a variable holds the variable's id and the bytes of its value, in the
/// byte order of the machine.
pub proof fn create_variable_packet_carries_the_value(var: Variable, r: Vec<u8>)
    requires
        call_ensures(create_variable_packet, (var,), r),
    ensures
        match var {
            Variable::PwmA(v) => r@ == seq![3u8, 0, 1] + crate::bytes::ne_bytes(v as nat, 2),
            Variable::PwmB(v) => r@ == seq![3u8, 0, 2] + crate::bytes::ne_bytes(v as nat, 2),
            Variable::FTest(v) => r@ == seq![5u8, 0, 3] + crate::bytes::ne_bytes(v as nat, 4),
        },
{
    lemma_packet(var);
}

proof fn lemma_packet(var: Variable)
    ensures
        var.packet() == (match var {
            Variable::PwmA(v) => seq![3u8, 0, 1] + crate::bytes::ne_bytes(v as nat, 2),
            Variable::PwmB(v) => seq![3u8, 0, 2] + crate::bytes::ne_bytes(v as nat, 2),
            Variable::FTest(v) => seq![5u8, 0, 3] + crate::bytes::ne_bytes(v as nat, 4),
        }),
{
    crate::bytes::byte_range_values();
    reveal_with_fuel(crate::bytes::le_bytes, 3);
    match var {
        Variable::PwmA(v) => {
            crate::bytes::ne_bytes_read_back(v as nat, 2);
            assert(var.packet() == seq![3u8, 0, 1] + crate::bytes::ne_bytes(v as nat, 2));
        },
        Variable::PwmB(v) => {
            crate::bytes::ne_bytes_read_back(v as nat, 2);
            assert(var.packet() == seq![3u8, 0, 2] + crate::bytes::ne_bytes(v as nat, 2));
        },
        Variable::FTest(v) => {
            crate::bytes::ne_bytes_read_back(v as nat, 4);
            assert(var.packet() == seq![5u8, 0, 3] + crate::bytes::ne_bytes(v as nat, 4));
        },
    }
}

/// The id and the bytes of a variable are those that its packet carries.
pub proof fn variables_are_what_their_packets_carry(
    var: Variable,
    packet: Vec<u8>,
    id: u8,
    value: Vec<u8>,
)
    requires
        call_ensures(create_variable_packet, (var,), packet),
        call_ensures(Variable::discriminant, (&var,), id),
        call_ensures(Variable::value_as_bytes, (&var,), value),
    ensures
        packet@.len() == 3 + value@.len(),
        packet@[2] == id,
        packet@.skip(3) == value@,
{
    lemma_packet(var);
    crate::commands::packet_layout(var);
}

/// A name and a value give a variable exactly where the name is, but for letter case, the
/// variable's own, and the value is a number that it can take; and they give that number.
pub proof fn a_variable_takes_the_value_that_was_given(
    name: &str,
    value: &str,
    float_bits: Option<u32>,
    r: Option<Variable>,
    v: u16,
    bits: u32,
)
    requires
        call_ensures(Variable::from_var_id_and_value, (name, value, float_bits), r),
    ensures
        r == Some(Variable::PwmA(v)) <==> crate::text::uppercase(name@) == "PWM_A"@
            && has_digits_of(behind_plus(value@), v as nat),
        r == Some(Variable::PwmB(v)) <==> crate::text::uppercase(name@) == "PWM_B"@
            && has_digits_of(behind_plus(value@), v as nat),
        r == Some(Variable::FTest(bits)) <==> crate::text::uppercase(name@) == "F_TEST"@
            && float_bits == Some(bits),
{
    lemma_named(name@, value@, float_bits, v, bits);
}

proof fn lemma_named(
    name: Seq<char>,
    value: Seq<char>,
    float_bits: Option<u32>,
    v: u16,
    bits: u32,
)
    ensures
        ({
            let r = Variable::named(name, value, float_bits);
            &&& r == Some(Variable::PwmA(v)) <==> crate::text::uppercase(name) == "PWM_A"@
                && has_digits_of(behind_plus(value), v as nat)
            &&& r == Some(Variable::PwmB(v)) <==> crate::text::uppercase(name) == "PWM_B"@
                && has_digits_of(behind_plus(value), v as nat)
            &&& r == Some(Variable::FTest(bits)) <==> crate::text::uppercase(name) == "F_TEST"@
                && float_bits == Some(bits)
        }),
{
    lemma_u16_value(value, v);
    reveal_strlit("PWM_A");
    reveal_strlit("PWM_B");
    reveal_strlit("F_TEST");
    assert("PWM_A"@[4] != "PWM_B"@[4]);
    assert("F_TEST"@.len() != "PWM_A"@.len());
    assert("F_TEST"@.len() != "PWM_B"@.len());
}

/// Whether `packet` sets the variable called `name` to the number that `value` is.
pub open spec fn sets(
    name: Seq<char>,
    value: Seq<char>,
    float_bits: Option<u32>,
    packet: Seq<u8>,
) -> bool {
    let id = crate::text::uppercase(name);
    ||| id == "PWM_A"@ && exists|v: u16|
        #[trigger] has_digits_of(behind_plus(value), v as nat) && packet == seq![3u8, 0, 1]
            + crate::bytes::ne_bytes(v as nat, 2)
    ||| id == "PWM_B"@ && exists|v: u16|
        #[trigger] has_digits_of(behind_plus(value), v as nat) && packet == seq![3u8, 0, 2]
            + crate::bytes::ne_bytes(v as nat, 2)
    ||| id == "F_TEST"@ && float_bits is Some && packet == seq![5u8, 0, 3]
        + crate::bytes::ne_bytes(float_bits->0 as nat, 4)
}

proof fn lemma_sets(name: Seq<char>, value: Seq<char>, float_bits: Option<u32>, packet: Seq<u8>)
    ensures
        sets(name, value, float_bits, packet) <==> {
            &&& Variable::named(name, value, float_bits) is Some
            &&& Variable::named(name, value, float_bits)->0.packet() == packet
        },
{
    let id = crate::text::uppercase(name);
    match Variable::named(name, value, float_bits) {
        Some(var) => {
            lemma_packet(var);
            match var {
                Variable::PwmA(v) => {
                    lemma_named(name, value, float_bits, v, 0);
                    assert(has_digits_of(behind_plus(value), v as nat));
                },
                Variable::PwmB(v) => {
                    lemma_named(name, value, float_bits, v, 0);
                    assert(has_digits_of(behind_plus(value), v as nat));
                },
                Variable::FTest(b) => {
                    lemma_named(name, value, float_bits, 0, b);
                },
            }
        },
        None => {},
    }
    if sets(name, value, float_bits, packet) {
        if id == "PWM_A"@ && exists|v: u16|
            #[trigger] has_digits_of(behind_plus(value), v as nat) && packet == seq![3u8, 0, 1]
                + crate::bytes::ne_bytes(v as nat, 2) {
            let v = choose|v: u16|
                #[trigger] has_digits_of(behind_plus(value), v as nat) && packet == seq![3u8, 0, 1]
                    + crate::bytes::ne_bytes(v as nat, 2);
            lemma_named(name, value, float_bits, v, 0);
            lemma_packet(Variable::PwmA(v));
        } else if id == "PWM_B"@ && exists|v: u16|
            #[trigger] has_digits_of(behind_plus(value), v as nat) && packet == seq![3u8, 0, 2]
                + crate::bytes::ne_bytes(v as nat, 2) {
            let v = choose|v: u16|
                #[trigger] has_digits_of(behind_plus(value), v as nat) && packet == seq![3u8, 0, 2]
                    + crate::bytes::ne_bytes(v as nat, 2);
            lemma_named(name, value, float_bits, v, 0);
            lemma_packet(Variable::PwmB(v));
        } else {
            lemma_named(name, value, float_bits, 0, float_bits->0);
            lemma_packet(Variable::FTest(float_bits->0));
        }
    }
}

/// A message gives a packet only where it is an exclamation mark, the name of a variable
/// and a number that the variable can take, with white space around and between them; and
/// the packet sets that variable to that number.
pub proof fn packets_are_what_was_asked_for(
    msg: &str,
    float_bits: Option<u32>,
    r: Option<Vec<u8>>,
) -> (found: (CommandParts, Seq<char>, Seq<char>))
    requires
        call_ensures(process_udp_message, (msg, float_bits), r),
        r is Some,
    ensures
        ({
            let (parts, name, value) = found;
            &&& crate::commands::blank(parts.before)
            &&& crate::commands::blank(parts.margin)
            &&& crate::commands::one_word(name)
            &&& parts.gap.len() > 0
            &&& crate::commands::blank(parts.gap)
            &&& crate::commands::one_word(value)
            &&& crate::commands::blank(parts.after)
            &&& msg@ == parts.before + seq!['!'] + parts.margin + name + parts.gap + value
                + parts.after
            &&& sets(name, value, float_bits, r->0@)
        }),
{
    let (name, value) = crate::commands::command(msg@)->0;
    lemma_sets(name, value, float_bits, r->0@);
    (crate::commands::commands_are_two_words(msg@, name, value), name, value)
}

/// An exclamation mark, the name of a variable and a number that the variable can take
/// give the packet that sets it, whatever white space stands around and between them.
pub proof fn what_was_asked_for_gives_a_packet(
    msg: &str,
    float_bits: Option<u32>,
    r: Option<Vec<u8>>,
    parts: CommandParts,
    name: Seq<char>,
    value: Seq<char>,
    packet: Seq<u8>,
)
    requires
        call_ensures(process_udp_message, (msg, float_bits), r),
        crate::commands::blank(parts.before),
        crate::commands::blank(parts.margin),
        crate::commands::one_word(name),
        parts.gap.len() > 0,
        crate::commands::blank(parts.gap),
        crate::commands::one_word(value),
        crate::commands::blank(parts.after),
        msg@ == parts.before + seq!['!'] + parts.margin + name + parts.gap + value + parts.after,
        sets(name, value, float_bits, packet),
    ensures
        r is Some,
        r->0@ == packet,
{
    crate::commands::two_words_are_a_command_in_any_place(parts, name, value);
    lemma_sets(name, value, float_bits, packet);
}

/// A text is to be read as a number only where it is the second word of a command for
/// `F_TEST`.
pub proof fn float_text_is_the_value_of_the_command(msg: &str, r: Option<String>) -> (found: (
    CommandParts,
    Seq<char>,
))
    requires
        call_ensures(float_text, (msg,), r),
        r is Some,
    ensures
        ({
            let (parts, name) = found;
            &&& crate::commands::blank(parts.before)
            &&& crate::commands::blank(parts.margin)
            &&& crate::commands::one_word(name)
            &&& parts.gap.len() > 0
            &&& crate::commands::blank(parts.gap)
            &&& crate::commands::one_word(r->0@)
            &&& crate::commands::blank(parts.after)
            &&& msg@ == parts.before + seq!['!'] + parts.margin + name + parts.gap + r->0@
                + parts.after
            &&& crate::text::uppercase(name) == "F_TEST"@
        }),
{
    let (name, value) = crate::commands::command(msg@)->0;
    (crate::commands::commands_are_two_words(msg@, name, value), name)
}

/// The second word of a command for `F_TEST` is to be read as a number; that of another
/// command is not.
pub proof fn the_value_of_a_float_command_is_read(
    msg: &str,
    r: Option<String>,
    parts: CommandParts,
    name: Seq<char>,
    value: Seq<char>,
)
    requires
        call_ensures(float_text, (msg,), r),
        crate::commands::blank(parts.before),
        crate::commands::blank(parts.margin),
        crate::commands::one_word(name),
        parts.gap.len() > 0,
        crate::commands::blank(parts.gap),
        crate::commands::one_word(value),
        crate::commands::blank(parts.after),
        msg@ == parts.before + seq!['!'] + parts.margin + name + parts.gap + value + parts.after,
    ensures
        crate::text::uppercase(name) == "F_TEST"@ ==> r is Some && r->0@ == value,
        crate::text::uppercase(name) != "F_TEST"@ ==> r is None,
{
    crate::commands::two_words_are_a_command_in_any_place(parts, name, value);
}

/// Whether `bytes` stand for `text`: they are its encoding, or they encode nothing and
/// the text is what std puts in their place.
pub open spec fn stand_for(bytes: Seq<u8>, text: Seq<char>) -> bool {
    ||| bytes == vstd::utf8::encode_utf8(text)
    ||| !vstd::utf8::valid_utf8(bytes) && text == crate::text::utf8_repaired(bytes)
}

proof fn lemma_text_of(bytes: Seq<u8>, text: Seq<char>)
    requires
        stand_for(bytes, text),
    ensures
        crate::text::text_of(bytes) == text,
{
    crate::text::text_sent_is_received(text);
}

/// A datagram is treated as the text that it holds: its packet is written, or, where it
/// asks for none, the text and its sender are reported.
pub proof fn datagrams_are_treated_as_their_text(
    read: &CommandRead,
    float_bits: Option<u32>,
    r: CommandStep,
    bytes: Vec<u8>,
    source: String,
    text: &str,
    packet: Option<Vec<u8>>,
)
    requires
        call_ensures(handle_command_read, (read, float_bits), r),
        *read == (CommandRead::Datagram { bytes, source }),
        stand_for(bytes@, text@),
        call_ensures(process_udp_message, (text, float_bits), packet),
    ensures
        packet is Some ==> (r matches CommandStep::Write(p) && p@ == packet->0@),
        packet is None ==> (r matches CommandStep::Report(m) && m@ == "\nInvalid command from "@
            + source@ + ": "@ + text@),
{
    lemma_text_of(bytes@, text@);
}

/// The text of a datagram that is to be read as a number is the one in the text that the
/// datagram holds.
pub proof fn numbers_in_datagrams_are_those_in_their_text(
    bytes: &[u8],
    r: Option<String>,
    text: &str,
    wanted: Option<String>,
)
    requires
        call_ensures(datagram_float_text, (bytes,), r),
        stand_for(bytes@, text@),
        call_ensures(float_text, (text,), wanted),
    ensures
        r is Some <==> wanted is Some,
        r is Some ==> r->0@ == wanted->0@,
{
    lemma_text_of(bytes@, text@);
}

/// Reading commands stops only where none is waiting; a failure is reported with its
/// reason.
pub proof fn reading_commands_stops_only_where_none_is_waiting(
    read: &CommandRead,
    float_bits: Option<u32>,
    r: CommandStep,
)
    requires
        call_ensures(handle_command_read, (read, float_bits), r),
    ensures
        r is Stop <==> read is WouldBlock,
        *read matches CommandRead::Failed(e) ==> (r matches CommandStep::Report(m) && m@
            == "\nCommand UDP receive error: "@ + e@),
{
}

/// The serial port has the token 0, the command socket the token 1, and no other token
/// belongs to either.
pub proof fn tokens_tell_events_apart(token: usize, r: Option<EventSource>)
    requires
        call_ensures(event_source, (token,), r),
    ensures
        token == 0 ==> r == Some(EventSource::Serial),
        token == 1 ==> r == Some(EventSource::Commands),
        token > 1 ==> r is None,
{
    if r is Some {
        match r->0 {
            EventSource::Serial => {},
            EventSource::Commands => {},
        }
    }
}

// ---------------------------------------------------------------------------
// Frames and records
// ---------------------------------------------------------------------------

/// The number that the first four bytes hold, least significant first.
pub open spec fn stated_length(decoded: Seq<u8>) -> int {
    decoded[0] + 256 * decoded[1] + 65536 * decoded[2] + 16777216 * decoded[3]
}

/// `log_record` takes out what follows the first four bytes exactly where they state how
/// much that is.
pub proof fn log_record_takes_out_what_the_length_states(
    decoded: &[u8],
    r: Result<Vec<u8>, FrameError>,
)
    requires
        call_ensures(log_record, (decoded,), r),
    ensures
        r is Ok <==> decoded@.len() >= 4 && stated_length(decoded@) == decoded@.len() - 4,
        r is Ok ==> decoded@.len() == 4 + r->Ok_0@.len(),
        r is Ok ==> forall|i: int|
            0 <= i < r->Ok_0@.len() ==> #[trigger] r->Ok_0@[i] == decoded@[i + 4],
        r == Err::<Vec<u8>, FrameError>(FrameError::TooShort) <==> decoded@.len() < 4,
        r != Err::<Vec<u8>, FrameError>(FrameError::Encoding),
{
    lemma_record_of(decoded@);
}

proof fn lemma_record_of(decoded: Seq<u8>)
    ensures
        crate::frames::record_of(decoded) == (if decoded.len() < 4 {
            Err::<Seq<u8>, FrameError>(FrameError::TooShort)
        } else if stated_length(decoded) == decoded.len() - 4 {
            Ok(decoded.skip(4))
        } else {
            Err(FrameError::LengthMismatch)
        }),
{
    crate::frames::records_are_taken_out_whole(decoded, decoded.skip(4));
    match crate::frames::record_of(decoded) {
        Ok(record) => crate::frames::records_are_taken_out_whole(decoded, record),
        Err(_) => {},
    }
}

/// `decode_frame` fails exactly where a zero byte stands in the frame, and for that reason.
pub proof fn decode_frame_fails_at_zero_bytes_only(frame: &[u8], r: Result<Vec<u8>, FrameError>)
    requires
        call_ensures(decode_frame, (frame,), r),
    ensures
        r is Err <==> exists|i: int| 0 <= i < frame@.len() && #[trigger] frame@[i] == 0,
        r is Err ==> r == Err::<Vec<u8>, FrameError>(FrameError::Encoding),
        r is Ok ==> r->Ok_0@ == crate::frames::cobsr_decoded(frame@),
        r is Ok ==> r->Ok_0@.len() <= frame@.len(),
{
    crate::frames::decoding_never_grows(frame@);
}

/// A decoded frame that states its own length has its record decoded and changes nothing
/// yet; any other is dropped, counts once as dropped, and changes nothing else.
pub proof fn decoded_frames_are_taken_or_dropped(
    gateway: &mut SerialGateway,
    decoded: &[u8],
    r: FrameStep,
)
    requires
        call_ensures(SerialGateway::handle_decoded_frame, (gateway, decoded), r),
    ensures
        decoded@.len() >= 4 && stated_length(decoded@) == decoded@.len() - 4 ==> {
            &&& r matches FrameStep::Decode(record)
            &&& record@ == decoded@.skip(4)
            &&& final(gateway)@ == old(gateway)@
        },
        decoded@.len() >= 4 && stated_length(decoded@) != decoded@.len() - 4 ==> {
            &&& r matches FrameStep::Dropped(m)
            &&& m@ == "Length mismatch"@
            &&& counted_as_dropped(old(gateway)@, final(gateway)@)
        },
        decoded@.len() < 4 ==> {
            &&& r matches FrameStep::Dropped(m)
            &&& m@ == "Frame too short"@
            &&& counted_as_dropped(old(gateway)@, final(gateway)@)
        },
{
    lemma_record_of(decoded@);
}

/// Whether `after` is `before` with one more dropped frame and nothing else changed.
pub open spec fn counted_as_dropped(before: GatewayState, after: GatewayState) -> bool {
    &&& after.dropped_count == before.dropped_count + 1
    &&& after.msg_count == before.msg_count
    &&& after.last_status_update == before.last_status_update
    &&& after.status_only == before.status_only
    &&& after.pending == before.pending
}

/// Whether `after` is `before` with one more decoded record and nothing else changed.
pub open spec fn counted_as_message(before: GatewayState, after: GatewayState) -> bool {
    &&& after.msg_count == before.msg_count + 1
    &&& after.dropped_count == before.dropped_count
    &&& after.last_status_update == before.last_status_update
    &&& after.status_only == before.status_only
    &&& after.pending == before.pending
}

/// A frame with a zero byte in it is dropped; any other is treated as the data that it
/// stands for.
pub proof fn frames_are_treated_as_their_data(
    gateway: &mut SerialGateway,
    frame: &[u8],
    r: FrameStep,
    data: Seq<u8>,
)
    requires
        call_ensures(SerialGateway::handle_frame, (gateway, frame), r),
        data == crate::frames::cobsr_decoded(frame@),
    ensures
        (exists|i: int| 0 <= i < frame@.len() && #[trigger] frame@[i] == 0) ==> {
            &&& r matches FrameStep::Dropped(m)
            &&& m@ == "COBS decode error - skipping frame"@
            &&& counted_as_dropped(old(gateway)@, final(gateway)@)
        },
        (forall|i: int| 0 <= i < frame@.len() ==> #[trigger] frame@[i] != 0) ==> {
            &&& data.len() >= 4 && stated_length(data) == data.len() - 4 ==> {
                &&& r matches FrameStep::Decode(record)
                &&& record@ == data.skip(4)
                &&& final(gateway)@ == old(gateway)@
            }
            &&& data.len() >= 4 && stated_length(data) != data.len() - 4 ==> {
                &&& r matches FrameStep::Dropped(m)
                &&& m@ == "Length mismatch"@
                &&& counted_as_dropped(old(gateway)@, final(gateway)@)
            }
            &&& data.len() < 4 ==> {
                &&& r matches FrameStep::Dropped(m)
                &&& m@ == "Frame too short"@
                &&& counted_as_dropped(old(gateway)@, final(gateway)@)
            }
        },
{
    crate::frames::only_encoded_frames_hold_records(frame@);
    lemma_record_of(data);
}

/// A record that was decoded counts once as a message, whatever its arguments are, and
/// its plot messages are numbered by the messages before it; one that could not be
/// decoded counts once as dropped, and the reason is reported.
pub proof fn records_count_once(
    gateway: &mut SerialGateway,
    decoded: Result<LogRecord, String>,
    r: LogStep,
    x: u64,
    log: &LogRecord,
    messages: Result<Vec<String>, String>,
)
    requires
        call_ensures(SerialGateway::handle_decoded_log, (gateway, decoded), r),
        x == old(gateway)@.msg_count,
        call_ensures(plot_messages, (x, log), messages),
    ensures
        decoded is Ok ==> r is Accepted && counted_as_message(old(gateway)@, final(gateway)@),
        decoded == Ok::<LogRecord, String>(*log) ==> match messages {
            Ok(m) => (r matches LogStep::Accepted(Ok(p)) && p@.len() == m@.len() && forall|i: int|
                0 <= i < m@.len() ==> #[trigger] p@[i]@ == m@[i]@),
            Err(e) => (r matches LogStep::Accepted(Err(f)) && f@ == e@),
        },
        decoded matches Err(e) ==> {
            &&& r matches LogStep::Dropped(m)
            &&& m@ == "Err: "@ + e@
            &&& counted_as_dropped(old(gateway)@, final(gateway)@)
        },
{
    if decoded == Ok::<LogRecord, String>(*log) {
        match messages {
            Ok(m) => {
                match r {
                    LogStep::Accepted(Ok(p)) => {
                        let a = crate::text::views(p@);
                        let b = crate::text::views(m@);
                        assert(a == b);
                        assert(a.len() == p@.len() && b.len() == m@.len());
                        assert forall|i: int| 0 <= i < m@.len() implies #[trigger] p@[i]@
                            == m@[i]@ by {
                            assert(a[i] == p@[i]@);
                            assert(b[i] == m@[i]@);
                        }
                    },
                    _ => {},
                }
            },
            Err(_) => {},
        }
    }
}

// ---------------------------------------------------------------------------
// The serial line
// ---------------------------------------------------------------------------

/// Frames on the line stand one behind the other, each with a zero byte behind it.
pub proof fn each_frame_on_the_line_ends_in_a_zero_byte(frames: Seq<Seq<u8>>, last: Seq<u8>)
    ensures
        crate::frames::joined(Seq::<Seq<u8>>::empty()) == Seq::<u8>::empty(),
        crate::frames::joined(frames.push(last)) == crate::frames::joined(frames) + last + seq![0u8],
    decreases frames.len(),
{
    let all = frames.push(last);
    if frames.len() == 0 {
        assert(crate::frames::joined(all.skip(1)) == Seq::<u8>::empty());
        assert(all[0] == last);
        assert(crate::frames::joined(all) == last + seq![0u8] + Seq::<u8>::empty());
    } else {
        each_frame_on_the_line_ends_in_a_zero_byte(frames.skip(1), last);
        assert(all.skip(1) == frames.skip(1).push(last));
        assert(crate::frames::joined(all) == frames[0] + seq![0u8] + crate::frames::joined(
            frames.skip(1),
        ) + last + seq![0u8]);
    }
}

/// The sizes, times and tokens that the gateway goes by.
pub proof fn limits_of_the_gateway()
    ensures
        crate::frames::SERIAL_BUF_SIZE == 64,
        crate::gateway::MAX_UDP_PACKET_SIZE == 512,
        crate::gateway::STATUS_INTERVAL == 500_000_000,
        crate::gateway::SERIAL_TOKEN == 0,
        crate::gateway::COMMAND_UDP_TOKEN == 1,
{
}

/// What is read from the line comes out again: the frames, each with the zero byte that
/// ended it, and what is kept are what was kept before and the bytes that were read. The
/// gateway gives up exactly where 64 bytes hold no zero byte. Nothing else changes.
pub proof fn no_byte_of_the_line_is_lost(
    gateway: &mut SerialGateway,
    read: &SerialRead,
    r: SerialStep,
    bytes: Vec<u8>,
)
    requires
        call_ensures(SerialGateway::handle_serial_read, (gateway, read), r),
        *read == SerialRead::Bytes(bytes),
        bytes@.len() > 0,
        old(gateway)@.pending.len() + bytes@.len() <= 64,
    ensures
        ({
            let line = old(gateway)@.pending + bytes@;
            let zero_free = forall|i: int| 0 <= i < line.len() ==> #[trigger] line[i] != 0;
            &&& line.len() == 64 && zero_free ==> {
                &&& r matches SerialStep::Fail(e)
                &&& e@ == "Buffer full without finding frame boundary"@
            }
            &&& !(line.len() == 64 && zero_free) ==> {
                &&& r matches SerialStep::Frames(frames)
                &&& crate::frames::joined(frames@.map_values(|f: Vec<u8>| f@))
                    + final(gateway)@.pending == line
                &&& forall|i: int, k: int|
                    0 <= i < frames@.len() && 0 <= k < frames@[i]@.len()
                        ==> #[trigger] frames@[i]@[k] != 0
            }
            &&& forall|i: int|
                0 <= i < final(gateway)@.pending.len() ==> #[trigger] final(gateway)@.pending[i] != 0
            &&& r is Fail ==> final(gateway)@.pending == line
            &&& final(gateway)@ == (GatewayState {
                pending: final(gateway)@.pending,
                ..old(gateway)@
            })
        }),
{
    let line = old(gateway)@.pending + bytes@;
    crate::frames::no_byte_is_lost(line);
    let rest = crate::frames::unfinished(line);
    let frames = crate::frames::whole_frames(line);
    if rest.len() == 64 {
        crate::gateway::full_buffer_holds_no_frame(old(gateway)@.pending, bytes@);
        assert(crate::frames::joined(frames).len() == 0);
    }
    if line.len() == 64 && crate::frames::zero_free(line) {
        assert(crate::frames::joined(Seq::<Seq<u8>>::empty()) + line == line);
        crate::frames::frames_sent_are_received(Seq::<Seq<u8>>::empty(), line);
    }
    match r {
        SerialStep::Frames(f) => {
            let v = crate::frames::views(f@);
            assert(v == f@.map_values(|f: Vec<u8>| f@));
            assert forall|i: int, k: int|
                0 <= i < f@.len() && 0 <= k < f@[i]@.len() implies #[trigger] f@[i]@[k] != 0 by {
                assert(v[i] == f@[i]@);
                assert(crate::frames::zero_free(frames[i]));
            }
        },
        _ => {},
    }
}

/// Where nothing was read, the line stays as it is: reading stops, or the gateway gives
/// up for the reason given.
pub proof fn nothing_read_changes_nothing(
    gateway: &mut SerialGateway,
    read: &SerialRead,
    r: SerialStep,
)
    requires
        call_ensures(SerialGateway::handle_serial_read, (gateway, read), r),
        *read matches SerialRead::Bytes(bytes) ==> bytes@.len() == 0,
    ensures
        final(gateway)@ == old(gateway)@,
        !(read is Failed) ==> r is Stop,
        *read matches SerialRead::Failed(e) ==> (r matches SerialStep::Fail(m) && m@
            == "Serial read error: "@ + e@),
{
}

/// What is kept of the line and the room that is left make up 64 bytes.
pub proof fn room_and_kept_bytes_fill_the_buffer(gateway: &mut SerialGateway, r: usize)
    requires
        call_ensures(SerialGateway::make_room, (gateway,), r),
    ensures
        r + old(gateway)@.pending.len() == 64,
        final(gateway)@ == old(gateway)@,
{
}

/// A buffer that is fed loses no byte, and hands out frames without zero bytes.
pub proof fn feeding_loses_no_byte(buffer: &mut SerialBuffer, bytes: &[u8], r: Vec<Vec<u8>>)
    requires
        call_ensures(SerialBuffer::feed, (buffer, bytes), r),
    ensures
        crate::frames::joined(r@.map_values(|f: Vec<u8>| f@)) + final(buffer)@ == old(buffer)@
            + bytes@,
        forall|i: int, k: int|
            0 <= i < r@.len() && 0 <= k < r@[i]@.len() ==> #[trigger] r@[i]@[k] != 0,
        forall|k: int| 0 <= k < final(buffer)@.len() ==> #[trigger] final(buffer)@[k] != 0,
{
    let line = old(buffer)@ + bytes@;
    crate::frames::no_byte_is_lost(line);
    let v = crate::frames::views(r@);
    assert(v == r@.map_values(|f: Vec<u8>| f@));
    assert forall|i: int, k: int|
        0 <= i < r@.len() && 0 <= k < r@[i]@.len() implies #[trigger] r@[i]@[k] != 0 by {
        assert(v[i] == r@[i]@);
        assert(crate::frames::zero_free(crate::frames::whole_frames(line)[i]));
    }
}

/// A buffer is full where it keeps 64 bytes, and has room for the others otherwise.
pub proof fn full_buffers_have_no_room(
    buffer: &mut SerialBuffer,
    room: usize,
    full: bool,
)
    requires
        call_ensures(SerialBuffer::make_room, (buffer,), room),
        call_ensures(SerialBuffer::is_full, (&*final(buffer),), full),
    ensures
        room + old(buffer)@.len() == 64,
        full <==> room == 0,
        final(buffer)@ == old(buffer)@,
{
}

// ---------------------------------------------------------------------------
// Plots
// ---------------------------------------------------------------------------

/// A data point of an x-y plot ends in its y value, behind the number of its x value; in
/// front of them stand the channel and the series.
pub proof fn xyplot_data_carries_the_point(channel: &str, series: &str, x: u64, y: &str, r: String)
    requires
        call_ensures(xyplot_data, (channel, series, x, y), r),
    ensures
        ({
            let from = r@.len() - 2 - y@.len();
            let digits = crate::text::decimal(x as nat);
            let head = "{XYPLOT:"@ + channel@ + "|DATA|"@ + series@ + "|"@;
            &&& r@.len() == head.len() + digits.len() + y@.len() + 3
            &&& r@.take(head.len() as int) == head
            &&& r@.subrange(head.len() as int, from - 1) == digits
            &&& r@[from - 1] == '|'
            &&& r@.subrange(from, r@.len() - 2) == y@
            &&& r@.skip(r@.len() - 2) == "}\n"@
        }),
{
    reveal_strlit("{XYPLOT:");
    reveal_strlit("|DATA|");
    reveal_strlit("|");
    reveal_strlit("}\n");
    let digits = crate::text::decimal(x as nat);
    let head = "{XYPLOT:"@ + channel@ + "|DATA|"@ + series@ + "|"@;
    let from = r@.len() - 2 - y@.len();
    assert(r@ == head + digits + "|"@ + y@ + "}\n"@);
    assert(r@.take(head.len() as int) == head);
    assert(r@.subrange(head.len() as int, from - 1) == digits);
    assert(r@.subrange(from, r@.len() - 2) == y@);
    assert(r@.skip(r@.len() - 2) == "}\n"@);
}

/// A data point of a time plot ends in its value; in front of it stand the channel and
/// the series.
pub proof fn timeplot_data_carries_the_value(channel: &str, series: &str, value: u32, r: String)
    requires
        call_ensures(timeplot_data, (channel, series, value), r),
    ensures
        ({
            let digits = crate::text::decimal(value as nat);
            let head = "{TIMEPLOT:"@ + channel@ + "|DATA|"@ + series@ + "|T|"@;
            &&& r@.len() == head.len() + digits.len() + 2
            &&& r@.take(head.len() as int) == head
            &&& r@.subrange(head.len() as int, r@.len() - 2) == digits
            &&& r@.skip(r@.len() - 2) == "}\n"@
        }),
{
    reveal_strlit("}\n");
    let digits = crate::text::decimal(value as nat);
    let head = "{TIMEPLOT:"@ + channel@ + "|DATA|"@ + series@ + "|T|"@;
    assert(r@ == head + digits + "}\n"@);
    assert(r@.take(head.len() as int) == head);
    assert(r@.subrange(head.len() as int, r@.len() - 2) == digits);
    assert(r@.skip(r@.len() - 2) == "}\n"@);
}

/// Whether argument `k` of a log record is there and of the type that is plotted: two
/// whole numbers, and then three single-precision numbers.
pub open spec fn plottable(args: Seq<ArgValue>, k: int) -> bool {
    &&& k < args.len()
    &&& k < 2 ==> args[k] is U16
    &&& k >= 2 ==> args[k] is F32
}

/// A log record without arguments gives no plot messages; one that lacks an argument is
/// reported with the number of the first that it lacks.
pub proof fn the_first_missing_argument_is_reported(
    x: u64,
    log: &LogRecord,
    r: Result<Vec<String>, String>,
    args: Vec<ArgValue>,
    k: int,
)
    requires
        call_ensures(plot_messages, (x, log), r),
        0 <= k < 5,
    ensures
        log.args is None ==> r is Ok && r->Ok_0@.len() == 0,
        log.args == Some(args) && !plottable(args@, k) && (forall|j: int|
            0 <= j < k ==> #[trigger] plottable(args@, j)) ==> {
            &&& r matches Err(e)
            &&& e@ == "arg "@ + seq![crate::text::digit_at(k as nat, 0)] + " missing"@
        },
{
    if log.args is None {
        assert(crate::text::views(r->Ok_0@).len() == r->Ok_0@.len());
    }
    if log.args == Some(args) && !plottable(args@, k) && (forall|j: int|
        0 <= j < k ==> #[trigger] plottable(args@, j)) {
        let a = crate::telemetry::arg_models(args@);
        assert(a.len() == args@.len());
        assert forall|j: int| 0 <= j < k implies (j < 2 ==> crate::telemetry::u16_arg(a, j) is Some)
            && (j >= 2 ==> crate::telemetry::f32_arg(a, j) is Some) by {
            assert(plottable(args@, j));
            assert(a[j] == args@[j]@);
        }
        if k < a.len() {
            assert(a[k] == args@[k]@);
        }
        lemma_missing(k);
    }
}

proof fn lemma_missing(k: int)
    requires
        0 <= k < 5,
    ensures
        ({
            let m = "arg "@ + seq![crate::text::digit_at(k as nat, 0)] + " missing"@;
            &&& k == 0 ==> m == "arg 0 missing"@
            &&& k == 1 ==> m == "arg 1 missing"@
            &&& k == 2 ==> m == "arg 2 missing"@
            &&& k == 3 ==> m == "arg 3 missing"@
            &&& k == 4 ==> m == "arg 4 missing"@
        }),
{
    reveal_strlit("0123456789");
    reveal_strlit("arg ");
    reveal_strlit(" missing");
    reveal_strlit("arg 0 missing");
    reveal_strlit("arg 1 missing");
    reveal_strlit("arg 2 missing");
    reveal_strlit("arg 3 missing");
    reveal_strlit("arg 4 missing");
    vstd::arithmetic::power::lemma_pow0(10);
}

proof fn lemma_plot_heads()
    ensures
        "{XYPLOT:"@ + "Waveform1"@ + "|DATA|"@ + "position"@ + "|"@
            == "{XYPLOT:Waveform1|DATA|position|"@,
        "{XYPLOT:"@ + "Waveform2"@ + "|DATA|"@ + "setpoint"@ + "|"@
            == "{XYPLOT:Waveform2|DATA|setpoint|"@,
        "{XYPLOT:"@ + "Waveform3"@ + "|DATA|"@ + "posPID"@ + "|"@
            == "{XYPLOT:Waveform3|DATA|posPID|"@,
        "{XYPLOT:"@ + "Waveform4"@ + "|DATA|"@ + "speedPID"@ + "|"@
            == "{XYPLOT:Waveform4|DATA|speedPID|"@,
        "{XYPLOT:"@ + "Waveform5"@ + "|DATA|"@ + "speed"@ + "|"@
            == "{XYPLOT:Waveform5|DATA|speed|"@,
{
    reveal_strlit("{XYPLOT:");
    reveal_strlit("|DATA|");
    reveal_strlit("|");
    reveal_strlit("Waveform1");
    reveal_strlit("Waveform2");
    reveal_strlit("Waveform3");
    reveal_strlit("Waveform4");
    reveal_strlit("Waveform5");
    reveal_strlit("position");
    reveal_strlit("setpoint");
    reveal_strlit("posPID");
    reveal_strlit("speedPID");
    reveal_strlit("speed");
    reveal_strlit("{XYPLOT:Waveform1|DATA|position|");
    reveal_strlit("{XYPLOT:Waveform2|DATA|setpoint|");
    reveal_strlit("{XYPLOT:Waveform3|DATA|posPID|");
    reveal_strlit("{XYPLOT:Waveform4|DATA|speedPID|");
    reveal_strlit("{XYPLOT:Waveform5|DATA|speed|");
}

/// The plot messages of a log record carry the values of its first five arguments, as
/// they are and in order, each on its own channel behind the record's number.
pub proof fn plotted_values_are_the_arguments(
    x: u64,
    log: &LogRecord,
    r: Result<Vec<String>, String>,
    args: Vec<ArgValue>,
)
    requires
        call_ensures(plot_messages, (x, log), r),
        log.args == Some(args),
        forall|k: int| 0 <= k < 5 ==> #[trigger] plottable(args@, k),
    ensures
        ({
            &&& r matches Ok(m)
            &&& m@.len() == 5
            &&& m@[0]@ == "{XYPLOT:Waveform1|DATA|position|"@ + crate::text::decimal(x as nat)
                + "|"@ + crate::text::decimal(args@[0]->U16_0 as nat)
                + ".00"@ + "}\n"@
            &&& m@[1]@ == "{XYPLOT:Waveform2|DATA|setpoint|"@ + crate::text::decimal(x as nat)
                + "|"@ + crate::text::decimal(args@[1]->U16_0 as nat)
                + ".00"@ + "}\n"@
            &&& m@[2]@ == "{XYPLOT:Waveform3|DATA|posPID|"@ + crate::text::decimal(x as nat)
                + "|"@ + args@[2]->F32_0@ + "}\n"@
            &&& m@[3]@ == "{XYPLOT:Waveform4|DATA|speedPID|"@ + crate::text::decimal(x as nat)
                + "|"@ + args@[3]->F32_0@ + "}\n"@
            &&& m@[4]@ == "{XYPLOT:Waveform5|DATA|speed|"@ + crate::text::decimal(x as nat)
                + "|"@ + args@[4]->F32_0@ + "}\n"@
        }),
{
    let a = crate::telemetry::arg_models(args@);
    assert(a.len() == args@.len());
    assert(plottable(args@, 0) && plottable(args@, 1) && plottable(args@, 2) && plottable(args@, 3)
        && plottable(args@, 4));
    assert(a[0] == args@[0]@ && a[1] == args@[1]@ && a[2] == args@[2]@ && a[3] == args@[3]@ && a[4]
        == args@[4]@);
    let m = r->Ok_0;
    let v = crate::text::views(m@);
    assert(v.len() == m@.len());
    assert(v[0] == m@[0]@ && v[1] == m@[1]@ && v[2] == m@[2]@ && v[3] == m@[3]@ && v[4] == m@[4]@);
    lemma_plot_heads();
    let d = crate::text::decimal(x as nat);
    assert(m@[0]@ == "{XYPLOT:"@ + "Waveform1"@ + "|DATA|"@ + "position"@ + "|"@ + d + "|"@
        + crate::text::decimal(args@[0]->U16_0 as nat) + ".00"@ + "}\n"@);
    assert(m@[1]@ == "{XYPLOT:"@ + "Waveform2"@ + "|DATA|"@ + "setpoint"@ + "|"@ + d + "|"@
        + crate::text::decimal(args@[1]->U16_0 as nat) + ".00"@ + "}\n"@);
}

proof fn lemma_fields(a: Seq<char>, s: Seq<char>, b: Seq<char>, t: Seq<char>)
    requires
        crate::text::all_digits(a),
        crate::text::all_digits(b),
        a + seq!['|'] + s == b + seq!['|'] + t,
    ensures
        a == b,
        s == t,
{
    let u = a + seq!['|'] + s;
    assert(u[a.len() as int] == '|');
    assert(u[b.len() as int] == '|');
    if a.len() < b.len() {
        assert(u[a.len() as int] == b[a.len() as int]);
        assert(crate::text::is_digit(b[a.len() as int]));
    }
    if b.len() < a.len() {
        assert(u[b.len() as int] == a[b.len() as int]);
        assert(crate::text::is_digit(a[b.len() as int]));
    }
    assert(u.take(a.len() as int) == a);
    assert(u.take(a.len() as int) == b);
    assert(u.skip(a.len() as int + 1) == s);
    assert(u.skip(a.len() as int + 1) == t);
}

proof fn lemma_point(h: Seq<char>, x1: nat, y1: Seq<char>, x2: nat, y2: Seq<char>)
    requires
        h + crate::text::decimal(x1) + "|"@ + y1 + "}\n"@ == h + crate::text::decimal(x2) + "|"@ + y2
            + "}\n"@,
    ensures
        x1 == x2,
        y1 == y2,
{
    reveal_strlit("|");
    reveal_strlit("}\n");
    let d1 = crate::text::decimal(x1);
    let d2 = crate::text::decimal(x2);
    crate::text::decimal_reads_back(x1);
    crate::text::decimal_reads_back(x2);
    let u = h + d1 + "|"@ + y1 + "}\n"@;
    let s = y1 + "}\n"@;
    let t = y2 + "}\n"@;
    assert(u.skip(h.len() as int) == d1 + seq!['|'] + s);
    assert(u.skip(h.len() as int) == d2 + seq!['|'] + t);
    lemma_fields(d1, s, d2, t);
    assert(s.take(s.len() - 2) == y1);
    assert(t.take(t.len() - 2) == y2);
}

/// Plot messages tell records apart: the same messages come only from the same number and
/// the same five values.
pub proof fn plots_tell_records_apart(
    x1: u64,
    log1: &LogRecord,
    r1: Result<Vec<String>, String>,
    a1: Vec<ArgValue>,
    x2: u64,
    log2: &LogRecord,
    r2: Result<Vec<String>, String>,
    a2: Vec<ArgValue>,
)
    requires
        call_ensures(plot_messages, (x1, log1), r1),
        call_ensures(plot_messages, (x2, log2), r2),
        log1.args == Some(a1),
        log2.args == Some(a2),
        forall|k: int| 0 <= k < 5 ==> #[trigger] plottable(a1@, k),
        forall|k: int| 0 <= k < 5 ==> #[trigger] plottable(a2@, k),
        r1 is Ok,
        r2 is Ok,
        forall|i: int| 0 <= i < 5 ==> #[trigger] r1->Ok_0@[i]@ == r2->Ok_0@[i]@,
    ensures
        x1 == x2,
        a1@[0]->U16_0 == a2@[0]->U16_0,
        a1@[1]->U16_0 == a2@[1]->U16_0,
        a1@[2]->F32_0@ == a2@[2]->F32_0@,
        a1@[3]->F32_0@ == a2@[3]->F32_0@,
        a1@[4]->F32_0@ == a2@[4]->F32_0@,
{
    plotted_values_are_the_arguments(x1, log1, r1, a1);
    plotted_values_are_the_arguments(x2, log2, r2, a2);
    let m = r1->Ok_0@;
    let n = r2->Ok_0@;
    assert(m[0]@ == n[0]@ && m[1]@ == n[1]@ && m[2]@ == n[2]@ && m[3]@ == n[3]@ && m[4]@ == n[4]@);
    lemma_whole_point("{XYPLOT:Waveform1|DATA|position|"@, x1, a1@[0]->U16_0, x2, a2@[0]->U16_0);
    lemma_whole_point("{XYPLOT:Waveform2|DATA|setpoint|"@, x1, a1@[1]->U16_0, x2, a2@[1]->U16_0);
    lemma_point(
        "{XYPLOT:Waveform3|DATA|posPID|"@,
        x1 as nat,
        a1@[2]->F32_0@,
        x2 as nat,
        a2@[2]->F32_0@,
    );
    lemma_point(
        "{XYPLOT:Waveform4|DATA|speedPID|"@,
        x1 as nat,
        a1@[3]->F32_0@,
        x2 as nat,
        a2@[3]->F32_0@,
    );
    lemma_point(
        "{XYPLOT:Waveform5|DATA|speed|"@,
        x1 as nat,
        a1@[4]->F32_0@,
        x2 as nat,
        a2@[4]->F32_0@,
    );
}

proof fn lemma_whole_point(h: Seq<char>, x1: u64, v1: u16, x2: u64, v2: u16)
    requires
        h + crate::text::decimal(x1 as nat) + "|"@ + crate::text::decimal(v1 as nat) + ".00"@ + "}\n"@
            == h + crate::text::decimal(x2 as nat) + "|"@ + crate::text::decimal(v2 as nat) + ".00"@
            + "}\n"@,
    ensures
        x1 == x2,
        v1 == v2,
{
    let y1 = crate::text::decimal(v1 as nat) + ".00"@;
    let y2 = crate::text::decimal(v2 as nat) + ".00"@;
    assert(h + crate::text::decimal(x1 as nat) + "|"@ + y1 + "}\n"@ == h + crate::text::decimal(
        x1 as nat,
    ) + "|"@ + crate::text::decimal(v1 as nat) + ".00"@ + "}\n"@);
    assert(h + crate::text::decimal(x2 as nat) + "|"@ + y2 + "}\n"@ == h + crate::text::decimal(
        x2 as nat,
    ) + "|"@ + crate::text::decimal(v2 as nat) + ".00"@ + "}\n"@);
    lemma_point(h, x1 as nat, y1, x2 as nat, y2);
    reveal_strlit(".00");
    assert(y1.take(y1.len() - 3) == crate::text::decimal(v1 as nat));
    assert(y2.take(y2.len() - 3) == crate::text::decimal(v2 as nat));
    crate::text::decimal_reads_back(v1 as nat);
    crate::text::decimal_reads_back(v2 as nat);
}

/// The gateway plots a record under the number of the messages before it.
pub proof fn telemetry_is_plotted_under_the_message_count(
    gateway: &SerialGateway,
    count: u64,
    log: &LogRecord,
    r: Result<Vec<String>, String>,
    m: Result<Vec<String>, String>,
)
    requires
        call_ensures(SerialGateway::process_telemetry_log, (gateway, log), r),
        call_ensures(SerialGateway::msg_count, (gateway,), count),
        call_ensures(plot_messages, (count, log), m),
    ensures
        r is Ok <==> m is Ok,
        r is Err ==> r->Err_0@ == m->Err_0@,
        r is Ok ==> r->Ok_0@.len() == m->Ok_0@.len() && forall|i: int|
            0 <= i < r->Ok_0@.len() ==> #[trigger] r->Ok_0@[i]@ == m->Ok_0@[i]@,
{
    if r is Ok && m is Ok {
        let a = crate::text::views(r->Ok_0@);
        let b = crate::text::views(m->Ok_0@);
        assert(a == b);
        assert(a.len() == r->Ok_0@.len() && b.len() == m->Ok_0@.len());
        assert forall|i: int| 0 <= i < r->Ok_0@.len() implies #[trigger] r->Ok_0@[i]@
            == m->Ok_0@[i]@ by {
            assert(a[i] == r->Ok_0@[i]@);
            assert(b[i] == m->Ok_0@[i]@);
        }
    }
}

// ---------------------------------------------------------------------------
// The log and the status line
// ---------------------------------------------------------------------------

/// What is shown of a record depends on the mode, the time and the last status line, and
/// on nothing else: without status lines, each record is a line of the log; with them, a
/// record brings one exactly where the time of the last has passed.
pub proof fn show_log_goes_by_the_time_alone(
    a: &SerialGateway,
    b: &SerialGateway,
    now: u128,
    r: LogDisplay,
    q: LogDisplay,
)
    requires
        call_ensures(SerialGateway::show_log, (a, now), r),
        call_ensures(SerialGateway::show_log, (b, now), q),
        a@.status_only == b@.status_only,
        a@.last_status_update == b@.last_status_update,
    ensures
        r == q,
        r == LogDisplay::Line <==> !a@.status_only,
        r == LogDisplay::Status <==> a@.status_only && now > a@.last_status_update,
        r == LogDisplay::Nothing <==> a@.status_only && now <= a@.last_status_update,
{
}

/// A new gateway shows every record, or, with status lines, brings one for the first
/// record after its start.
pub proof fn a_new_gateway_shows_the_first_record(
    status_only: bool,
    gateway: SerialGateway,
    now: u128,
    r: LogDisplay,
    msg_count: u64,
    dropped_count: u64,
)
    requires
        call_ensures(SerialGateway::new, (status_only,), gateway),
        call_ensures(SerialGateway::show_log, (&gateway, now), r),
        call_ensures(SerialGateway::msg_count, (&gateway,), msg_count),
        call_ensures(SerialGateway::dropped_count, (&gateway,), dropped_count),
    ensures
        !status_only ==> r == LogDisplay::Line,
        status_only && now > 0 ==> r == LogDisplay::Status,
        status_only && now == 0 ==> r == LogDisplay::Nothing,
        msg_count == 0,
        dropped_count == 0,
        gateway@.pending.len() == 0,
{
}

/// After a status line the next one comes more than half a second later; after one that
/// could not be flushed, as soon as before. The counts and the line stay as they are.
pub proof fn status_lines_are_half_a_second_apart(
    gateway: &mut SerialGateway,
    now: u128,
    flushed: Result<(), String>,
    r: Result<(), String>,
    later: u128,
    before: LogDisplay,
    after: LogDisplay,
)
    requires
        call_ensures(SerialGateway::status_printed, (gateway, now, flushed), r),
        call_ensures(SerialGateway::show_log, (&*old(gateway), later), before),
        call_ensures(SerialGateway::show_log, (&*final(gateway), later), after),
    ensures
        r == flushed,
        flushed is Err ==> after == before,
        flushed is Err ==> final(gateway)@ == old(gateway)@,
        flushed is Ok && old(gateway)@.status_only ==> {
            &&& later > now + 500_000_000 ==> after == LogDisplay::Status
            &&& later <= now + 500_000_000 ==> after == LogDisplay::Nothing
        },
        final(gateway)@.msg_count == old(gateway)@.msg_count,
        final(gateway)@.dropped_count == old(gateway)@.dropped_count,
        final(gateway)@.status_only == old(gateway)@.status_only,
        final(gateway)@.pending == old(gateway)@.pending,
{
}

/// No frame, taken or dropped, keeps a status line from being shown or brings one early.
pub proof fn frames_do_not_move_the_status_line(
    gateway: &mut SerialGateway,
    frame: &[u8],
    r: FrameStep,
    now: u128,
    before: LogDisplay,
    after: LogDisplay,
)
    requires
        call_ensures(SerialGateway::handle_frame, (gateway, frame), r),
        call_ensures(SerialGateway::show_log, (&*old(gateway), now), before),
        call_ensures(SerialGateway::show_log, (&*final(gateway), now), after),
    ensures
        after == before,
{
}

/// No record, decoded or not, keeps a status line from being shown or brings one early.
pub proof fn records_do_not_move_the_status_line(
    gateway: &mut SerialGateway,
    decoded: Result<LogRecord, String>,
    r: LogStep,
    now: u128,
    before: LogDisplay,
    after: LogDisplay,
)
    requires
        call_ensures(SerialGateway::handle_decoded_log, (gateway, decoded), r),
        call_ensures(SerialGateway::show_log, (&*old(gateway), now), before),
        call_ensures(SerialGateway::show_log, (&*final(gateway), now), after),
    ensures
        after == before,
{
}

/// What came over the line does not move the status line either.
pub proof fn reads_do_not_move_the_status_line(
    gateway: &mut SerialGateway,
    read: &SerialRead,
    r: SerialStep,
    now: u128,
    before: LogDisplay,
    after: LogDisplay,
)
    requires
        call_ensures(SerialGateway::handle_serial_read, (gateway, read), r),
        call_ensures(SerialGateway::show_log, (&*old(gateway), now), before),
        call_ensures(SerialGateway::show_log, (&*final(gateway), now), after),
    ensures
        after == before,
{
}

/// How much room a text of `len` characters takes in a field of `width` characters.
pub open spec fn field(len: nat, width: nat) -> nat {
    if len > width {
        len
    } else {
        width
    }
}

/// A line of the log is the level in a field of seven characters, ` > ` and the message.
pub proof fn log_lines_hold_level_and_message(level: &str, text: &str, r: String)
    requires
        call_ensures(log_line, (level, text), r),
    ensures
        ({
            let f = field(level@.len(), 7) as int;
            &&& r@.len() == f + 3 + text@.len()
            &&& r@.take(level@.len() as int) == level@
            &&& forall|i: int| level@.len() <= i < f ==> #[trigger] r@[i] == ' '
            &&& r@.subrange(f, f + 3) == " > "@
            &&& r@.skip(f + 3) == text@
        }),
{
    reveal_strlit(" > ");
    crate::text::padding_only_adds_spaces(level@, 7);
    let p = crate::text::padded(level@, 7);
    assert(r@ == p + " > "@ + text@);
    assert(r@.take(level@.len() as int) == p.take(level@.len() as int));
    let f = p.len() as int;
    assert(r@.subrange(f, f + 3) == " > "@);
    assert(r@.skip(f + 3) == text@);
}

/// The status line holds the level, the message and the rate, each in its field; behind
/// `Total: ` the number of decoded records, behind `Dropped: ` that of dropped frames, and
/// the ratio.
pub proof fn status_lines_hold_both_counts(
    gateway: &SerialGateway,
    level: &str,
    text: &str,
    rate: &str,
    drop_ratio: &str,
    r: String,
    total: u64,
    dropped: u64,
)
    requires
        call_ensures(SerialGateway::status_line, (gateway, level, text, rate, drop_ratio), r),
        call_ensures(SerialGateway::msg_count, (gateway,), total),
        call_ensures(SerialGateway::dropped_count, (gateway,), dropped),
    ensures
        ({
            let a = 1 + field(level@.len(), 7) as int;
            let b = a + 3;
            let c = b + field(text@.len(), 40) + 1;
            let d = c + field(rate@.len(), 7);
            let e = d + 15;
            let f = e + crate::text::decimal(total as nat).len();
            let g = f + 11;
            let h = g + crate::text::decimal(dropped as nat).len();
            &&& r@.len() == h + 2 + drop_ratio@.len() + 5
            &&& r@[0] == '\r'
            &&& r@.subrange(1, 1 + level@.len() as int) == level@
            &&& forall|i: int| 1 + level@.len() <= i < a ==> #[trigger] r@[i] == ' '
            &&& r@.subrange(a, b) == " > "@
            &&& r@.subrange(b, b + text@.len()) == text@
            &&& forall|i: int| b + text@.len() <= i < c ==> #[trigger] r@[i] == ' '
            &&& r@.subrange(c, c + rate@.len()) == rate@
            &&& forall|i: int| c + rate@.len() <= i < d ==> #[trigger] r@[i] == ' '
            &&& r@.subrange(d, e) == " msg/s (Total: "@
            &&& r@.subrange(e, f) == crate::text::decimal(total as nat)
            &&& r@.subrange(f, g) == ", Dropped: "@
            &&& r@.subrange(g, h) == crate::text::decimal(dropped as nat)
            &&& r@.subrange(h, h + 2) == ", "@
            &&& r@.subrange(h + 2, h + 2 + drop_ratio@.len()) == drop_ratio@
            &&& r@.skip(r@.len() - 5) == "%)   "@
        }),
{
    reveal_strlit("\r");
    reveal_strlit(" > ");
    reveal_strlit(" ");
    reveal_strlit(" msg/s (Total: ");
    reveal_strlit(", Dropped: ");
    reveal_strlit(", ");
    reveal_strlit("%)   ");
    crate::text::padding_only_adds_spaces(level@, 7);
    crate::text::padding_only_adds_spaces(text@, 40);
    crate::text::padding_only_adds_spaces(rate@, 7);
    let p = crate::text::padded(level@, 7);
    let q = crate::text::padded(text@, 40);
    let o = crate::text::padded(rate@, 7);
    let m = crate::text::decimal(total as nat);
    let n = crate::text::decimal(dropped as nat);
    let a = 1 + p.len() as int;
    let b = a + 3;
    let c = b + q.len() + 1;
    let d = c + o.len();
    let e = d + 15;
    let f = e + m.len();
    let g = f + 11;
    let h = g + n.len();
    assert(r@ == "\r"@ + p + " > "@ + q + " "@ + o + " msg/s (Total: "@ + m + ", Dropped: "@ + n
        + ", "@ + drop_ratio@ + "%)   "@);
    assert(r@.subrange(1, a) == p);
    assert(r@.subrange(1, 1 + level@.len() as int) == p.take(level@.len() as int));
    assert forall|i: int| 1 + level@.len() <= i < a implies #[trigger] r@[i] == ' ' by {
        assert(r@[i] == p[i - 1]);
    }
    assert(r@.subrange(a, b) == " > "@);
    assert(r@.subrange(b, b + text@.len()) == q.take(text@.len() as int));
    assert forall|i: int| b + text@.len() <= i < c implies #[trigger] r@[i] == ' ' by {
        if i < c - 1 {
            assert(r@[i] == q[i - b]);
        }
    }
    assert(r@.subrange(c, c + rate@.len()) == o.take(rate@.len() as int));
    assert forall|i: int| c + rate@.len() <= i < d implies #[trigger] r@[i] == ' ' by {
        assert(r@[i] == o[i - c]);
    }
    assert(r@.subrange(d, e) == " msg/s (Total: "@);
    assert(r@.subrange(e, f) == m);
    assert(r@.subrange(f, g) == ", Dropped: "@);
    assert(r@.subrange(g, h) == n);
    assert(r@.subrange(h, h + 2) == ", "@);
    assert(r@.subrange(h + 2, h + 2 + drop_ratio@.len()) == drop_ratio@);
    assert(r@.skip(r@.len() - 5) == "%)   "@);
}

/// One more decoded record changes the number behind `Total: ` alone and raises it by one;
/// one more dropped frame does the same to the number behind `Dropped: `.
pub proof fn each_count_has_its_own_place(
    gateway: &mut SerialGateway,
    decoded: Result<LogRecord, String>,
    step: LogStep,
    level: &str,
    text: &str,
    rate: &str,
    drop_ratio: &str,
    before: String,
    after: String,
) -> (parts: (Seq<char>, Seq<char>))
    requires
        call_ensures(SerialGateway::handle_decoded_log, (gateway, decoded), step),
        call_ensures(
            SerialGateway::status_line,
            (&*old(gateway), level, text, rate, drop_ratio),
            before,
        ),
        call_ensures(
            SerialGateway::status_line,
            (&*final(gateway), level, text, rate, drop_ratio),
            after,
        ),
    ensures
        ({
            let (head, tail) = parts;
            let (total, dropped) = (old(gateway)@.msg_count, old(gateway)@.dropped_count);
            &&& head.skip(head.len() - 7) == "Total: "@
            &&& before@ == head + crate::text::decimal(total) + ", Dropped: "@
                + crate::text::decimal(dropped) + tail
            &&& decoded is Ok ==> after@ == head + crate::text::decimal(total + 1) + ", Dropped: "@
                + crate::text::decimal(dropped) + tail
            &&& decoded is Err ==> after@ == head + crate::text::decimal(total) + ", Dropped: "@
                + crate::text::decimal(dropped + 1) + tail
        }),
{
    let head = "\r"@ + crate::text::padded(level@, 7) + " > "@ + crate::text::padded(text@, 40)
        + " "@ + crate::text::padded(rate@, 7) + " msg/s (Total: "@;
    let tail = ", "@ + drop_ratio@ + "%)   "@;
    reveal_strlit(" msg/s (Total: ");
    reveal_strlit("Total: ");
    assert(head.skip(head.len() - 7) == "Total: "@);
    assert(before@ == head + crate::text::decimal(old(gateway)@.msg_count) + ", Dropped: "@
        + crate::text::decimal(old(gateway)@.dropped_count) + tail);
    assert(after@ == head + crate::text::decimal(final(gateway)@.msg_count) + ", Dropped: "@
        + crate::text::decimal(final(gateway)@.dropped_count) + tail);
    (head, tail)
}

// ---------------------------------------------------------------------------
// Reports and addresses
// ---------------------------------------------------------------------------

/// A report of a failure ends in its reason.
pub proof fn reports_end_in_the_reason(e: &str, r: String, q: String)
    requires
        call_ensures(telemetry_failure, (e,), r),
        call_ensures(write_failure, (e,), q),
    ensures
        r@.len() == 33 + e@.len(),
        r@.take(33) == "Failed to process telemetry log: "@,
        r@.skip(33) == e@,
        q@.len() == 41 + e@.len(),
        q@.take(41) == "\nFailed to write command to serial port: "@,
        q@.skip(41) == e@,
{
    reveal_strlit("Failed to process telemetry log: ");
    reveal_strlit("\nFailed to write command to serial port: ");
    assert(r@.take(33) == "Failed to process telemetry log: "@);
    assert(r@.skip(33) == e@);
    assert(q@.take(41) == "\nFailed to write command to serial port: "@);
    assert(q@.skip(41) == e@);
}

/// A frame that is dropped is reported by what is wrong with it.
pub proof fn frame_errors_say_what_is_wrong(error: &FrameError, r: String)
    requires
        call_ensures(FrameError::message, (error,), r),
    ensures
        *error == FrameError::Encoding ==> r@ == "COBS decode error - skipping frame"@,
        *error == FrameError::TooShort ==> r@ == "Frame too short"@,
        *error == FrameError::LengthMismatch ==> r@ == "Length mismatch"@,
{
}

/// Addresses end in the port.
pub proof fn addresses_hold_the_port(port: u16, t: String, c: String)
    requires
        call_ensures(telemetry_address, (port,), t),
        call_ensures(command_address, (port,), c),
    ensures
        t@ == "127.0.0.1:"@ + crate::text::decimal(port as nat),
        c@ == "0.0.0.0:"@ + crate::text::decimal(port as nat),
{
    lemma_hosts();
}

proof fn lemma_hosts()
    ensures
        "127.0.0.1"@ + ":"@ == "127.0.0.1:"@,
        "0.0.0.0"@ + ":"@ == "0.0.0.0:"@,
{
    reveal_strlit("127.0.0.1");
    reveal_strlit("0.0.0.0");
    reveal_strlit(":");
    reveal_strlit("127.0.0.1:");
    reveal_strlit("0.0.0.0:");
}

/// Notices hold the number that they are about.
pub proof fn notices_hold_their_number(
    port: u16,
    count: usize,
    t: String,
    c: String,
    p: String,
)
    requires
        call_ensures(telemetry_notice, (port,), t),
        call_ensures(command_notice, (port,), c),
        call_ensures(precache_notice, (count,), p),
    ensures
        t@ == "Telemetry UDP socket configured to send to 127.0.0.1:"@ + crate::text::decimal(
            port as nat,
        ) + " for plot data."@,
        c@ == "Command UDP server listening on port "@ + crate::text::decimal(port as nat)
            + " for serial commands."@,
        p@ == "Precached "@ + crate::text::decimal(count as nat) + " logs"@,
{
    lemma_hosts();
    reveal_strlit("Telemetry UDP socket configured to send to ");
    reveal_strlit("Telemetry UDP socket configured to send to 127.0.0.1:");
    reveal_strlit("127.0.0.1:");
    assert("Telemetry UDP socket configured to send to "@ + "127.0.0.1:"@
        == "Telemetry UDP socket configured to send to 127.0.0.1:"@);
    assert(t@ == "Telemetry UDP socket configured to send to "@ + "127.0.0.1:"@
        + crate::text::decimal(port as nat) + " for plot data."@);
}

/// A failure to set the gateway up is reported by the step, with its port, and the reason.
pub proof fn setup_failures_name_step_and_reason(step: &SetupStep, e: &str, r: String)
    requires
        call_ensures(SetupStep::failure, (step, e), r),
    ensures
        match *step {
            SetupStep::OpenPort(name) => r@ == "Failed to open port '"@ + name@ + "': "@ + e@,
            SetupStep::BindTelemetry => r@ == "Failed to bind telemetry UDP: "@ + e@,
            SetupStep::ConnectTelemetry(port) => r@
                == "Failed to connect telemetry UDP to 127.0.0.1:"@ + crate::text::decimal(
                port as nat,
            ) + ": "@ + e@,
            SetupStep::BindCommands(port) => r@ == "Failed to bind command UDP port "@
                + crate::text::decimal(port as nat) + ": "@ + e@,
            SetupStep::UnblockCommands => r@ == "Failed to set command UDP to non-blocking: "@ + e@,
            SetupStep::CreatePoll => r@ == "Failed to create Poll: "@ + e@,
            SetupStep::RegisterSerial => r@ == "Failed to register serial port with poll: "@ + e@,
            SetupStep::RegisterCommands => r@
                == "Failed to register command UDP socket with poll: "@ + e@,
        },
{
    lemma_hosts();
    reveal_strlit("Failed to connect telemetry UDP to ");
    reveal_strlit("Failed to connect telemetry UDP to 127.0.0.1:");
    reveal_strlit("127.0.0.1:");
    assert("Failed to connect telemetry UDP to "@ + "127.0.0.1:"@
        == "Failed to connect telemetry UDP to 127.0.0.1:"@);
    match *step {
        SetupStep::ConnectTelemetry(port) => {
            assert(r@ == "Failed to connect telemetry UDP to "@ + "127.0.0.1:"@
                + crate::text::decimal(port as nat) + ": "@ + e@);
        },
        _ => {},
    }
}

} // verus!
