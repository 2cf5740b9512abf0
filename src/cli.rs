use vstd::prelude::*;
use vstd::string::StringExecFns;

use crate::text::{chars_of, is_word};

verus! {

/// What `str::to_lowercase` makes of `s`.
pub uninterp spec fn lower_of(s: Seq<char>) -> Seq<char>;

/// Relies on `str::to_lowercase`: the lower-case form of `s`, a function of its
/// characters alone.
#[verifier::external_body]
fn lowercase(s: &str) -> (r: String)
    ensures
        r@ == lower_of(s@),
{
    s.to_lowercase()
}

/// The words read as true.
pub open spec fn is_true_word(w: Seq<char>) -> bool {
    w == "true"@ || w == "t"@ || w == "yes"@ || w == "y"@ || w == "1"@
}

/// The words read as false.
pub open spec fn is_false_word(w: Seq<char>) -> bool {
    w == "false"@ || w == "f"@ || w == "no"@ || w == "n"@ || w == "0"@
}

/// The message for an input `s` that names no boolean.
pub open spec fn bool_error(s: Seq<char>) -> Seq<char> {
    "invalid value for a boolean: "@ + s
}

/// Reads `lower`, the lower-case form of `s`, as a boolean.
pub fn parse_bool_lower(lower: &str, s: &str) -> (r: Result<bool, String>)
    ensures
        is_true_word(lower@) ==> r == Ok::<bool, String>(true),
        !is_true_word(lower@) && is_false_word(lower@) ==> r == Ok::<bool, String>(false),
        !is_true_word(lower@) && !is_false_word(lower@) ==> (r matches Err(e) && e@ == bool_error(
            s@,
        )),
{
    let w = chars_of(lower);
    if is_word(&w, "true") || is_word(&w, "t") || is_word(&w, "yes") || is_word(&w, "y")
        || is_word(&w, "1") {
        Ok(true)
    } else if is_word(&w, "false") || is_word(&w, "f") || is_word(&w, "no") || is_word(&w, "n")
        || is_word(&w, "0") {
        Ok(false)
    } else {
        let e = "invalid value for a boolean: ".to_owned();
        Err(e.concat(s))
    }
}

/// Reads `s`, in any case, as a boolean: `true`, `t`, `yes`, `y`, `1` or `false`,
/// `f`, `no`, `n`, `0`.
pub fn parse_bool(s: &str) -> (r: Result<bool, String>)
    ensures
        is_true_word(lower_of(s@)) ==> r == Ok::<bool, String>(true),
        !is_true_word(lower_of(s@)) && is_false_word(lower_of(s@)) ==> r == Ok::<bool, String>(
            false,
        ),
        !is_true_word(lower_of(s@)) && !is_false_word(lower_of(s@)) ==> (r matches Err(e) && e@
            == bool_error(s@)),
{
    let lower = lowercase(s);
    parse_bool_lower(lower.as_str(), s)
}

} // verus!
