//! Human-readable rendering of byte counts and durations for the
//! end-of-run summary.

use vstd::prelude::*;

verus! {

use vstd::string::*;
use crate::digits::{dec_str, u64_to_string};
use crate::strings::push_char;

/// The decimal unit a byte count is shown in.
pub open spec fn spec_byte_unit(bytes: u64) -> int {
    if bytes < 1000000 {
        1000
    } else if bytes < 1000000000 {
        1000000
    } else if bytes < 1000000000000 {
        1000000000
    } else {
        1000000000000
    }
}

/// The suffix of that unit.
pub open spec fn spec_byte_suffix(bytes: u64) -> Seq<char> {
    if bytes < 1000000 {
        "kB"@
    } else if bytes < 1000000000 {
        "MB"@
    } else if bytes < 1000000000000 {
        "GB"@
    } else {
        "TB"@
    }
}

/// A byte count rendered for people: plain below 1000, otherwise one
/// decimal digit of the nearest unit, ties rounded down.
pub open spec fn spec_format_bytes(bytes: u64) -> Seq<char> {
    if bytes < 1000 {
        dec_str(bytes as nat) + "B"@
    } else {
        let unit = spec_byte_unit(bytes);
        let tenths = (20 * bytes + unit - 1) / (2 * unit);
        dec_str((tenths / 10) as nat) + "."@ + dec_str((tenths % 10) as nat) + spec_byte_suffix(
            bytes,
        )
    }
}

/// Renders a byte count: `123B`, `1.2kB`, `12.3MB`, `1.0GB`, `123.5TB`.
/// Terabytes are the largest unit offered: counts just under the bound
/// round up to `1000.0TB`, and a full quadrillion or more is refused.
pub fn format_bytes(bytes: u64) -> (r: String)
    requires
        bytes < 1000000000000000,
    ensures
        r@ == spec_format_bytes(bytes),
{
    if bytes < 1000 {
        let s = u64_to_string(bytes);
        return s.concat("B");
    }
    let unit: u64 = if bytes < 1000000 {
        1000
    } else if bytes < 1000000000 {
        1000000
    } else if bytes < 1000000000000 {
        1000000000
    } else {
        1000000000000
    };
    let suffix: &str = if bytes < 1000000 {
        "kB"
    } else if bytes < 1000000000 {
        "MB"
    } else if bytes < 1000000000000 {
        "GB"
    } else {
        "TB"
    };
    let tenths: u64 = (20 * bytes + unit - 1) / (2 * unit);
    let whole = u64_to_string(tenths / 10);
    let frac = u64_to_string(tenths % 10);
    let mut s = whole;
    push_char(&mut s, '.');
    let s = s.concat(frac.as_str());
    let r = s.concat(suffix);
    proof {
        reveal_strlit(".");
        assert("."@ =~= seq!['.']);
        assert(r@ =~= spec_format_bytes(bytes));
    }
    r
}

/// One `<value><unit>` piece added to a duration rendering: skipped
/// when the value is zero, space-separated from what came before.
pub open spec fn spec_duration_part(acc: Seq<char>, value: nat, unit: Seq<char>) -> Seq<char> {
    if value == 0 {
        acc
    } else if acc.len() == 0 {
        dec_str(value) + unit
    } else {
        acc + seq![' '] + dec_str(value) + unit
    }
}

/// A duration in seconds rendered as its nonzero day, hour, minute and
/// second parts, space-separated; `0s` when all are zero.
pub open spec fn spec_format_duration(total: nat) -> Seq<char> {
    let acc = spec_duration_part(
        spec_duration_part(
            spec_duration_part(
                spec_duration_part(Seq::empty(), total / 86400, "d"@),
                (total / 3600) % 24,
                "h"@,
            ),
            (total / 60) % 60,
            "m"@,
        ),
        total % 60,
        "s"@,
    );
    if acc.len() == 0 {
        "0s"@
    } else {
        acc
    }
}

fn duration_part(acc: String, value: u64, unit: &str) -> (r: String)
    ensures
        r@ == spec_duration_part(acc@, value as nat, unit@),
{
    if value == 0 {
        acc
    } else if acc.as_str().unicode_len() == 0 {
        let v = u64_to_string(value);
        let r = v.concat(unit);
        proof {
            assert(r@ =~= spec_duration_part(acc@, value as nat, unit@));
        }
        r
    } else {
        let ghost acc0 = acc@;
        let mut s = acc;
        push_char(&mut s, ' ');
        let v = u64_to_string(value);
        let s = s.concat(v.as_str());
        let r = s.concat(unit);
        proof {
            assert(r@ =~= spec_duration_part(acc0, value as nat, unit@));
        }
        r
    }
}

/// Renders a duration given in seconds: `59s`, `1m 1s`, `1h 59m`, `1d`.
pub fn format_duration(seconds: u64) -> (r: String)
    ensures
        r@ == spec_format_duration(seconds as nat),
{
    let days = seconds / 86400;
    let hours = (seconds / 3600) % 24;
    let minutes = (seconds / 60) % 60;
    let secs = seconds % 60;
    let acc = String::new();
    let acc = duration_part(acc, days, "d");
    let acc = duration_part(acc, hours, "h");
    let acc = duration_part(acc, minutes, "m");
    let acc = duration_part(acc, secs, "s");
    if acc.as_str().unicode_len() == 0 {
        "0s".to_owned()
    } else {
        acc
    }
}

} // verus!
