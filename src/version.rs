use vstd::prelude::*;
use vstd::string::StringExecFns;
use crate::text::{
    chars_of,
    lemma_strip_len,
    slice,
    starts_with,
    starts_with_chars,
    string_of,
    strip_start,
    trim,
    trim_chars,
    trim_start_chars,
};

verus! {

/// The value that line `l` of a kernel Makefile gives to variable `key` (written
/// with its ` = `), if it assigns it.
pub open spec fn key_value(l: Seq<char>, key: Seq<char>) -> Option<Seq<char>> {
    if !starts_with(strip_start(l, false), "#"@) && starts_with(trim(l), key) {
        Some(trim(l.subrange(key.len() as int, l.len() as int)))
    } else {
        None
    }
}

/// The value that the last assignment to `key` in `lines` gives.
pub open spec fn last_value(lines: Seq<Seq<char>>, key: Seq<char>) -> Option<Seq<char>>
    decreases lines.len(),
{
    if lines.len() == 0 {
        None
    } else {
        match key_value(lines.last(), key) {
            Some(v) => Some(v),
            None => last_value(lines.drop_last(), key),
        }
    }
}

/// The kernel version that a Makefile's lines give: `VERSION.PATCHLEVEL.SUBLEVEL`,
/// when all three are assigned.
pub open spec fn version_of(lines: Seq<Seq<char>>) -> Option<Seq<char>> {
    match (
        last_value(lines, "VERSION = "@),
        last_value(lines, "PATCHLEVEL = "@),
        last_value(lines, "SUBLEVEL = "@),
    ) {
        (Some(v), Some(p), Some(s)) => Some(v + "."@ + p + "."@ + s),
        _ => None,
    }
}

fn value_of_line(l: &Vec<char>, key: &Vec<char>) -> (r: Option<Vec<char>>)
    ensures
        r matches Some(v) ==> key_value(l@, key@) == Some(v@),
        r is None ==> key_value(l@, key@) is None,
{
    let s = trim_start_chars(l);
    if starts_with_chars(&s, &chars_of("#")) {
        return None;
    }
    let t = trim_chars(l);
    if !starts_with_chars(&t, key) {
        return None;
    }
    proof {
        lemma_strip_len(l@, false);
    }
    let rest = slice(l, key.len(), l.len());
    Some(trim_chars(&rest))
}

fn last_value_exec(lines: &Vec<String>, key: &str) -> (r: Option<Vec<char>>)
    ensures
        r matches Some(v) ==> last_value(lines.deep_view(), key@) == Some(v@),
        r is None ==> last_value(lines.deep_view(), key@) is None,
{
    let k = chars_of(key);
    let mut found: Option<Vec<char>> = None;
    let mut i: usize = 0;
    assert(lines.deep_view().subrange(0, 0) =~= Seq::<Seq<char>>::empty());
    while i < lines.len()
        invariant
            i <= lines@.len(),
            k@ == key@,
            found matches Some(v) ==> last_value(lines.deep_view().subrange(0, i as int), key@)
                == Some(v@),
            found is None ==> last_value(lines.deep_view().subrange(0, i as int), key@) is None,
        decreases lines@.len() - i,
    {
        let ghost prefix = lines.deep_view().subrange(0, i + 1);
        assert(prefix.drop_last() =~= lines.deep_view().subrange(0, i as int));
        let l = chars_of(lines[i].as_str());
        assert(prefix.last() == l@);
        match value_of_line(&l, &k) {
            Some(v) => {
                found = Some(v);
            },
            None => {},
        }
        i = i + 1;
    }
    assert(lines.deep_view().subrange(0, i as int) =~= lines.deep_view());
    found
}

/// The kernel version that the lines of a kernel Makefile give, as
/// `VERSION.PATCHLEVEL.SUBLEVEL`; `None` where one of the three is not assigned.
/// Comment lines are passed over, and a later assignment wins.
pub fn fetch_kernel_version(lines: &Vec<String>) -> (r: Option<String>)
    ensures
        r matches Some(v) ==> version_of(lines.deep_view()) == Some(v@),
        r is None ==> version_of(lines.deep_view()) is None,
{
    let v = last_value_exec(lines, "VERSION = ");
    let p = last_value_exec(lines, "PATCHLEVEL = ");
    let s = last_value_exec(lines, "SUBLEVEL = ");
    match (v, p, s) {
        (Some(v), Some(p), Some(s)) => {
            let r = string_of(&v).concat(".").concat(string_of(&p).as_str()).concat(".").concat(
                string_of(&s).as_str(),
            );
            Some(r)
        },
        _ => None,
    }
}

} // verus!
