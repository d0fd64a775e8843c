//! Turning the merged options into the single output line.

use vstd::prelude::*;

verus! {

/// The options joined with single spaces, with no space before the first or
/// after the last.
pub open spec fn joined(opts: Seq<Seq<char>>) -> Seq<char>
    decreases opts.len(),
{
    if opts.len() == 0 {
        Seq::empty()
    } else if opts.len() == 1 {
        opts[0]
    } else {
        joined(opts.drop_last()) + seq![' '] + opts.last()
    }
}

/// Joins the options with single spaces; no options give the empty line.
pub fn join_options(cmdline: &Vec<String>) -> (r: String)
    ensures
        r@ == joined(cmdline.deep_view()),
{
    let ghost opts = cmdline.deep_view();
    let mut out = String::new();
    let mut i: usize = 0;
    assert(opts.take(0) =~= Seq::<Seq<char>>::empty());
    while i < cmdline.len()
        invariant
            i <= cmdline.len(),
            opts == cmdline.deep_view(),
            out@ == joined(opts.take(i as int)),
        decreases cmdline.len() - i,
    {
        let ghost t = opts.take(i + 1);
        assert(t.drop_last() =~= opts.take(i as int));
        assert(t.last() == opts[i as int]);
        if i > 0 {
            let sep = " ";
            proof {
                reveal_strlit(" ");
            }
            assert(sep@ =~= seq![' ']);
            out.append(sep);
        } else {
            assert(out@ =~= Seq::<char>::empty());
        }
        out.append(cmdline[i].as_str());
        if i == 0 {
            assert(out@ =~= opts[0]);
        }
        i = i + 1;
    }
    assert(opts.take(cmdline.len() as int) =~= opts);
    out
}

} // verus!
