//! Text helpers for reports on a decoded header.
use vstd::prelude::*;
use vstd::string::*;

use crate::timestamp::{digits, push_char, push_digits};

verus! {

/// Dividing `size` by 1024 while it is at least 1024, at most `8 - unit`
/// more times: the value reached and the index of its unit.
pub open spec fn scaled(size: nat, unit: nat) -> (nat, nat)
    decreases 8 - unit,
{
    if size >= 1024 && unit < 8 {
        scaled(size / 1024, unit + 1)
    } else {
        (size, unit)
    }
}

/// The name of the byte unit with index `unit`: B, KB, MB, GB, TB, PB, EB,
/// ZB, YB.
pub open spec fn unit_name(unit: nat) -> Seq<char> {
    if unit == 0 {
        "B"@
    } else if unit == 1 {
        "KB"@
    } else if unit == 2 {
        "MB"@
    } else if unit == 3 {
        "GB"@
    } else if unit == 4 {
        "TB"@
    } else if unit == 5 {
        "PB"@
    } else if unit == 6 {
        "EB"@
    } else if unit == 7 {
        "ZB"@
    } else {
        "YB"@
    }
}

fn unit_str(unit: usize) -> (r: &'static str)
    requires
        unit <= 8,
    ensures
        r@ == unit_name(unit as nat),
{
    match unit {
        0 => "B",
        1 => "KB",
        2 => "MB",
        3 => "GB",
        4 => "TB",
        5 => "PB",
        6 => "EB",
        7 => "ZB",
        _ => "YB",
    }
}

/// `size` bytes in the largest binary unit (steps of 1024) that leaves a
/// whole number of at least one, rounded down: the number, a space, the
/// unit.
pub fn pretty_size(size: u64) -> (r: String)
    ensures
        r@ == digits(scaled(size as nat, 0).0, 1) + seq![' '] + unit_name(scaled(size as nat, 0).1),
{
    let mut i: usize = 0;
    let mut ss: u64 = size;
    while ss >= 1024 && i < 8
        invariant
            i <= 8,
            scaled(ss as nat, i as nat) == scaled(size as nat, 0),
        decreases 8 - i,
    {
        ss = ss / 1024;
        i = i + 1;
    }
    let mut out = String::new();
    push_digits(&mut out, ss, 1);
    push_char(&mut out, ' ');
    out.concat(unit_str(i))
}

/// `"true"` or `"false"`.
pub fn bool_str(value: bool) -> (r: &'static str)
    ensures
        r@ == (if value {
            "true"@
        } else {
            "false"@
        }),
{
    if value {
        "true"
    } else {
        "false"
    }
}

} // verus!
