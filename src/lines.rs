//! Preparing the raw lines of a fragment for the merge.

use vstd::prelude::*;

verus! {

/// The line with leading and trailing whitespace removed, as `str::trim`
/// defines whitespace.
pub uninterp spec fn trimmed(s: Seq<char>) -> Seq<char>;

/// Relies on `str::trim`: the result depends on the characters alone.
#[verifier::external_body]
fn trim_line(s: &String) -> (r: String)
    ensures
        r@ == trimmed(s@),
{
    s.trim().to_string()
}

/// Each line with its surrounding whitespace removed, in the same order.
pub fn trim_lines(lines: &Vec<String>) -> (r: Vec<String>)
    ensures
        r.deep_view() == lines.deep_view().map_values(|l: Seq<char>| trimmed(l)),
{
    let ghost raw = lines.deep_view();
    let mut out: Vec<String> = Vec::new();
    let mut i: usize = 0;
    while i < lines.len()
        invariant
            i <= lines.len(),
            raw == lines.deep_view(),
            out.deep_view() == raw.take(i as int).map_values(|l: Seq<char>| trimmed(l)),
        decreases lines.len() - i,
    {
        let t = trim_line(&lines[i]);
        let ghost before = out.deep_view();
        out.push(t);
        assert(out.deep_view() =~= before.push(trimmed(raw[i as int])));
        assert(raw.take(i + 1).map_values(|l: Seq<char>| trimmed(l)) =~= before.push(
            trimmed(raw[i as int]),
        ));
        i = i + 1;
    }
    assert(raw.take(lines.len() as int) =~= raw);
    out
}

} // verus!
