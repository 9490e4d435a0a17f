use vstd::prelude::*;
use vstd::string::StringExecFns;

use crate::decimal::{dec_str, u64_to_dec};

verus! {

/// The divisor of the unit a byte count is displayed in: whole gibibytes,
/// mebibytes, or kibibytes when the count reaches them, else plain bytes.
pub open spec fn byte_unit_divisor(bytes: u64) -> u64 {
    if bytes >= 1073741824 {
        1073741824u64
    } else if bytes >= 1048576 {
        1048576u64
    } else if bytes >= 1024 {
        1024u64
    } else {
        1u64
    }
}

/// The display suffix that goes with `byte_unit_divisor`.
pub open spec fn byte_unit_suffix(bytes: u64) -> Seq<char> {
    if bytes >= 1073741824 {
        seq!['G', 'B']
    } else if bytes >= 1048576 {
        seq!['M', 'B']
    } else if bytes >= 1024 {
        seq!['K', 'B']
    } else {
        seq!['B']
    }
}

/// A byte count rendered for people: the count in its unit with one
/// decimal place (truncated), then the unit's suffix.
pub open spec fn format_bytes_spec(bytes: u64) -> Seq<char> {
    let d = byte_unit_divisor(bytes);
    dec_str((bytes / d) as nat) + seq!['.'] + dec_str(
        (((bytes % d) as int * 10) / (d as int)) as nat,
    ) + byte_unit_suffix(bytes)
}

/// Renders a byte count for people, as `format_bytes_spec` describes.
pub fn format_bytes(bytes: u64) -> (s: String)
    ensures
        s@ == format_bytes_spec(bytes),
{
    let divisor: u64 = if bytes >= 1073741824 {
        1073741824
    } else if bytes >= 1048576 {
        1048576
    } else if bytes >= 1024 {
        1024
    } else {
        1
    };
    let suffix: &'static str = if bytes >= 1073741824 {
        "GB"
    } else if bytes >= 1048576 {
        "MB"
    } else if bytes >= 1024 {
        "KB"
    } else {
        "B"
    };
    proof {
        reveal_strlit("GB");
        reveal_strlit("MB");
        reveal_strlit("KB");
        reveal_strlit("B");
        reveal_strlit(".");
        assert(suffix@ =~= byte_unit_suffix(bytes));
    }
    let whole = bytes / divisor;
    let tenth = (bytes % divisor) * 10 / divisor;
    let s = u64_to_dec(whole).concat(".").concat(u64_to_dec(tenth).as_str()).concat(suffix);
    proof {
        assert(s@ =~= format_bytes_spec(bytes));
    }
    s
}

} // verus!
