//! Messages for the plotter that listens to the gateway's telemetry port.

use vstd::prelude::*;
use vstd::string::*;

use crate::text::decimal_text;

verus! {

/// A data point of a time plot.
pub open spec fn timeplot(channel: Seq<char>, series: Seq<char>, value: nat) -> Seq<char> {
    "{TIMEPLOT:"@ + channel + "|DATA|"@ + series + "|T|"@ + crate::text::decimal(value) + "}\n"@
}

/// A data point of an x-y plot; `y` is the text of its y value.
pub open spec fn xyplot(
    channel: Seq<char>,
    series: Seq<char>,
    x: nat,
    y: Seq<char>,
) -> Seq<char> {
    "{XYPLOT:"@ + channel + "|DATA|"@ + series + "|"@ + crate::text::decimal(x) + "|"@ + y
        + "}\n"@
}

/// The message for a data point of a time plot. A whole number is written without
/// decimals.
pub fn timeplot_data(channel: &str, series: &str, value: u32) -> (r: String)
    ensures
        r@ == timeplot(channel@, series@, value as nat),
{
    let mut r = "{TIMEPLOT:".to_owned();
    r.append(channel);
    r.append("|DATA|");
    r.append(series);
    r.append("|T|");
    r.append(decimal_text(value as u64).as_str());
    r.append("}\n");
    r
}

/// The message for a data point of an x-y plot. `y` is the y value, rounded to two
/// decimals.
pub fn xyplot_data(channel: &str, series: &str, x: u64, y: &str) -> (r: String)
    ensures
        r@ == xyplot(channel@, series@, x as nat, y@),
{
    let mut r = "{XYPLOT:".to_owned();
    r.append(channel);
    r.append("|DATA|");
    r.append(series);
    r.append("|");
    r.append(decimal_text(x).as_str());
    r.append("|");
    r.append(y);
    r.append("}\n");
    r
}

} // verus!
