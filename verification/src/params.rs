//! Tunable page parameters, looked up by name. Values are decimal numerals
//! in inches.

use vstd::prelude::*;
use crate::text::str_eq;

verus! {

/// The value stored under `key`: `"0.02"` for `linewidth`, `"8.5"` for
/// `pagewidth`, `"11.0"` for `pageheight`, and the empty string for every
/// other key.
pub open spec fn param_value(key: Seq<char>) -> Seq<char> {
    if key == "linewidth"@ {
        "0.02"@
    } else if key == "pagewidth"@ {
        "8.5"@
    } else if key == "pageheight"@ {
        "11.0"@
    } else {
        ""@
    }
}

/// Looks up a page parameter by name. Unknown names yield the empty string.
pub fn pget(key: &str) -> (val: &str)
    ensures
        val@ == param_value(key@),
{
    if str_eq(key, "linewidth") {
        "0.02"
    } else if str_eq(key, "pagewidth") {
        "8.5"
    } else if str_eq(key, "pageheight") {
        "11.0"
    } else {
        ""
    }
}

} // verus!
