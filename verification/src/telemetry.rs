//! Decoded log records, and the plot data that is drawn from them.

use vstd::prelude::*;
use vstd::string::*;

use crate::plots::xyplot_data;
use crate::text::decimal_text;

verus! {

/// An argument of a log record, as far as telemetry tells arguments apart.
#[derive(Debug)]
pub enum ArgValue {
    /// An unsigned 16-bit number.
    U16(u16),
    /// A single-precision number, as its text with two decimals.
    F32(String),
    /// An argument of another type.
    Other,
}

/// A log record that was decoded, as far as telemetry looks at it.
#[derive(Debug)]
pub struct LogRecord {
    /// The arguments, where the record's type is known.
    pub args: Option<Vec<ArgValue>>,
}

/// What an argument of a log record is.
pub enum ArgModel {
    /// An unsigned 16-bit number.
    U16(u16),
    /// A single-precision number, as its text with two decimals.
    F32(Seq<char>),
    /// An argument of another type.
    Other,
}

/// What a log record holds for telemetry.
pub struct LogModel {
    /// The arguments, where the record's type is known.
    pub args: Option<Seq<ArgModel>>,
}

impl View for ArgValue {
    type V = ArgModel;

    open spec fn view(&self) -> ArgModel {
        match self {
            ArgValue::U16(v) => ArgModel::U16(*v),
            ArgValue::F32(v) => ArgModel::F32(v@),
            ArgValue::Other => ArgModel::Other,
        }
    }
}

impl View for LogRecord {
    type V = LogModel;

    open spec fn view(&self) -> LogModel {
        LogModel {
            args: match self.args {
                Some(args) => Some(arg_models(args@)),
                None => None,
            },
        }
    }
}

/// What a list of arguments holds.
pub open spec fn arg_models(args: Seq<ArgValue>) -> Seq<ArgModel> {
    args.map_values(|a: ArgValue| a@)
}

/// The unsigned 16-bit number that argument `i` is.
pub open spec fn u16_arg(args: Seq<ArgModel>, i: int) -> Option<u16> {
    if 0 <= i < args.len() {
        match args[i] {
            ArgModel::U16(v) => Some(v),
            _ => None,
        }
    } else {
        None
    }
}

/// The text of the single-precision number that argument `i` is.
pub open spec fn f32_arg(args: Seq<ArgModel>, i: int) -> Option<Seq<char>> {
    if 0 <= i < args.len() {
        match args[i] {
            ArgModel::F32(v) => Some(v),
            _ => None,
        }
    } else {
        None
    }
}

/// A whole number with two decimals.
pub open spec fn two_decimals(n: nat) -> Seq<char> {
    crate::text::decimal(n) + ".00"@
}

/// The plot data of a log record, all at the same `x`, or what is wrong with its
/// arguments. A record without arguments gives none.
pub open spec fn plot_data(x: nat, args: Option<Seq<ArgModel>>) -> Result<
    Seq<Seq<char>>,
    Seq<char>,
> {
    match args {
        None => Ok(seq![]),
        Some(a) => if u16_arg(a, 0) is None {
            Err("arg 0 missing"@)
        } else if u16_arg(a, 1) is None {
            Err("arg 1 missing"@)
        } else if f32_arg(a, 2) is None {
            Err("arg 2 missing"@)
        } else if f32_arg(a, 3) is None {
            Err("arg 3 missing"@)
        } else if f32_arg(a, 4) is None {
            Err("arg 4 missing"@)
        } else {
            Ok(
                seq![
                    crate::plots::xyplot(
                        "Waveform1"@,
                        "position"@,
                        x,
                        two_decimals(u16_arg(a, 0)->0 as nat),
                    ),
                    crate::plots::xyplot(
                        "Waveform2"@,
                        "setpoint"@,
                        x,
                        two_decimals(u16_arg(a, 1)->0 as nat),
                    ),
                    crate::plots::xyplot("Waveform3"@, "posPID"@, x, f32_arg(a, 2)->0),
                    crate::plots::xyplot("Waveform4"@, "speedPID"@, x, f32_arg(a, 3)->0),
                    crate::plots::xyplot("Waveform5"@, "speed"@, x, f32_arg(a, 4)->0),
                ],
            )
        },
    }
}

fn get_u16(args: &Vec<ArgValue>, i: usize) -> (r: Option<u16>)
    ensures
        r == u16_arg(arg_models(args@), i as int),
{
    if i < args.len() {
        match &args[i] {
            ArgValue::U16(v) => Some(*v),
            _ => None,
        }
    } else {
        None
    }
}

fn get_f32(args: &Vec<ArgValue>, i: usize) -> (r: Option<&str>)
    ensures
        match r {
            Some(v) => f32_arg(arg_models(args@), i as int) == Some(v@),
            None => f32_arg(arg_models(args@), i as int) is None,
        },
{
    if i < args.len() {
        match &args[i] {
            ArgValue::F32(v) => Some(v.as_str()),
            _ => None,
        }
    } else {
        None
    }
}

fn whole_number(v: u16) -> (r: String)
    ensures
        r@ == two_decimals(v as nat),
{
    let mut r = decimal_text(v as u64);
    r.append(".00");
    r
}

/// The messages that carry a log record's plot data, in the order in which they
/// are sent; `x` is where the record stands in the plots.
pub fn plot_messages(x: u64, log: &LogRecord) -> (r: Result<Vec<String>, String>)
    ensures
        match r {
            Ok(messages) => plot_data(x as nat, log@.args) == Ok::<Seq<Seq<char>>, Seq<char>>(
                crate::text::views(messages@),
            ),
            Err(e) => plot_data(x as nat, log@.args) == Err::<Seq<Seq<char>>, Seq<char>>(e@),
        },
{
    let mut messages: Vec<String> = Vec::new();
    match &log.args {
        None => {
            assert(crate::text::views(messages@) == Seq::<Seq<char>>::empty());
            Ok(messages)
        },
        Some(args) => {
            let position = match get_u16(args, 0) {
                Some(v) => v,
                None => return Err("arg 0 missing".to_owned()),
            };
            let setpoint = match get_u16(args, 1) {
                Some(v) => v,
                None => return Err("arg 1 missing".to_owned()),
            };
            let pos_pid = match get_f32(args, 2) {
                Some(v) => v,
                None => return Err("arg 2 missing".to_owned()),
            };
            let speed_pid = match get_f32(args, 3) {
                Some(v) => v,
                None => return Err("arg 3 missing".to_owned()),
            };
            let speed = match get_f32(args, 4) {
                Some(v) => v,
                None => return Err("arg 4 missing".to_owned()),
            };
            messages.push(
                xyplot_data("Waveform1", "position", x, whole_number(position).as_str()),
            );
            messages.push(
                xyplot_data("Waveform2", "setpoint", x, whole_number(setpoint).as_str()),
            );
            messages.push(xyplot_data("Waveform3", "posPID", x, pos_pid));
            messages.push(xyplot_data("Waveform4", "speedPID", x, speed_pid));
            messages.push(xyplot_data("Waveform5", "speed", x, speed));
            assert(crate::text::views(messages@) =~= plot_data(x as nat, log@.args)->Ok_0);
            Ok(messages)
        },
    }
}

/// Only the first five arguments of a log record are plotted.
pub proof fn later_arguments_are_ignored(x: nat, args: Seq<ArgModel>)
    requires
        args.len() >= 5,
    ensures
        plot_data(x, Some(args.take(5))) == plot_data(x, Some(args)),
{
    assert forall|i: int| 0 <= i < 5 implies u16_arg(args.take(5), i) == u16_arg(args, i)
        && f32_arg(args.take(5), i) == f32_arg(args, i) by {
        assert(args.take(5)[i] == args[i]);
    }
}

} // verus!
