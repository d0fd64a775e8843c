//! Properties of the merge that hold for all inputs.

use vstd::prelude::*;
use crate::merge::{
    apply_line,
    apply_lines,
    differs_from,
    is_addition_line,
    is_noop_line,
    merge_all,
    remove_option,
};
use crate::render::joined;

verus! {

/// Filtering keeps a sequence whole when every element passes.
proof fn lemma_filter_keeps_all(s: Seq<Seq<char>>, p: spec_fn(Seq<char>) -> bool)
    requires
        forall|i: int| 0 <= i < s.len() ==> p(s[i]),
    ensures
        s.filter(p) == s,
    decreases s.len(),
{
    if s.len() > 0 {
        let init = s.drop_last();
        lemma_filter_keeps_all(init, p);
        assert(init.push(s.last()) =~= s);
        init.lemma_filter_push(s.last(), p);
    } else {
        assert(s.filter(p) =~= s);
    }
}

/// Filtering a sequence without duplicates leaves none.
proof fn lemma_filter_no_duplicates(s: Seq<Seq<char>>, p: spec_fn(Seq<char>) -> bool)
    requires
        s.no_duplicates(),
    ensures
        s.filter(p).no_duplicates(),
    decreases s.len(),
{
    if s.len() > 0 {
        let init = s.drop_last();
        assert(init.push(s.last()) =~= s);
        assert(init.no_duplicates());
        lemma_filter_no_duplicates(init, p);
        init.lemma_filter_push(s.last(), p);
        if p(s.last()) {
            if init.filter(p).contains(s.last()) {
                init.lemma_filter_contains_rev(p, s.last());
                let k = choose|k: int| 0 <= k < init.len() && init[k] == s.last();
                assert(s[k] == s[s.len() - 1]);
            }
        }
    } else {
        assert(s.filter(p) =~= s);
    }
}

/// One directive keeps the options free of duplicates.
proof fn lemma_apply_line_no_duplicates(opts: Seq<Seq<char>>, line: Seq<char>)
    requires
        opts.no_duplicates(),
    ensures
        apply_line(opts, line).no_duplicates(),
{
    if !is_noop_line(line) && line[0] == '-' {
        lemma_filter_no_duplicates(opts, |x: Seq<char>| x != line.drop_first());
    }
}

/// A fragment keeps the options free of duplicates.
proof fn lemma_apply_lines_no_duplicates(opts: Seq<Seq<char>>, lines: Seq<Seq<char>>)
    requires
        opts.no_duplicates(),
    ensures
        apply_lines(opts, lines).no_duplicates(),
    decreases lines.len(),
{
    if lines.len() > 0 {
        lemma_apply_lines_no_duplicates(opts, lines.drop_last());
        lemma_apply_line_no_duplicates(apply_lines(opts, lines.drop_last()), lines.last());
    }
}

/// Applying a directive line twice in a row has the same effect as applying
/// it once; in particular adding an option a second time changes nothing.
pub proof fn lemma_line_twice_same_as_once(opts: Seq<Seq<char>>, line: Seq<char>)
    ensures
        apply_lines(opts, seq![line, line]) == apply_lines(opts, seq![line]),
{
    assert(seq![line, line].drop_last() =~= seq![line]);
    assert(seq![line].drop_last() =~= Seq::<Seq<char>>::empty());
    assert(apply_lines(opts, Seq::<Seq<char>>::empty()) == opts);
    let once = apply_line(opts, line);
    assert(apply_lines(opts, seq![line]) == once);
    assert(apply_lines(opts, seq![line, line]) == apply_line(once, line));
    if is_noop_line(line) {
    } else if line[0] == '-' {
        let p = differs_from(line.drop_first());
        assert(once == opts.filter(p));
        lemma_filter_keeps_all(opts.filter(p), p);
        assert(apply_line(once, line) == once.filter(p));
    } else {
        assert(once.contains(line)) by {
            if !opts.contains(line) {
                assert(once[opts.len() as int] == line);
            }
        }
    }
}

/// A removal line `-V` takes out exactly the options equal to `V`: every
/// other option, a prefix or extension of `V` included, stays, in order.
pub proof fn lemma_removal_exact(opts: Seq<Seq<char>>, v: Seq<char>)
    ensures
        apply_line(opts, seq!['-'] + v) == remove_option(opts, v),
        forall|x: Seq<char>|
            apply_line(opts, seq!['-'] + v).contains(x) <==> (opts.contains(x) && x != v),
{
    let line = seq!['-'] + v;
    assert(line.drop_first() =~= v);
    assert(line[0] == '-');
    let p = differs_from(v);
    assert(apply_line(opts, line) == remove_option(opts, v));
    assert(remove_option(opts, v) == opts.filter(p));
    assert forall|x: Seq<char>| opts.filter(p).contains(x) <==> (opts.contains(x) && x != v) by {
        if opts.filter(p).contains(x) {
            opts.lemma_filter_contains_rev(p, x);
            let k = choose|k: int| 0 <= k < opts.filter(p).len() && opts.filter(p)[k] == x;
            opts.lemma_filter_pred(p, k);
        }
        if opts.contains(x) && x != v {
            let k = choose|k: int| 0 <= k < opts.len() && opts[k] == x;
            opts.lemma_filter_contains(p, k);
        }
    }
}

/// Additions of values not yet present append them in the order given.
proof fn lemma_fresh_additions_append(opts: Seq<Seq<char>>, lines: Seq<Seq<char>>)
    requires
        (opts + lines).no_duplicates(),
        forall|i: int| 0 <= i < lines.len() ==> is_addition_line(#[trigger] lines[i]),
    ensures
        apply_lines(opts, lines) == opts + lines,
    decreases lines.len(),
{
    if lines.len() == 0 {
        assert(opts + lines =~= opts);
    } else {
        let init = lines.drop_last();
        let l = lines.last();
        let all = opts + lines;
        assert((opts + init) =~= all.drop_last());
        assert((opts + init).no_duplicates()) by {
            assert forall|i: int, j: int|
                0 <= i < (opts + init).len() && 0 <= j < (opts + init).len() && i != j
                implies (opts + init)[i] != (opts + init)[j] by {
                assert((opts + init)[i] == all[i]);
                assert((opts + init)[j] == all[j]);
            }
        }
        assert(is_addition_line(lines[lines.len() - 1]));
        lemma_fresh_additions_append(opts, init);
        assert(!(opts + init).contains(l)) by {
            if (opts + init).contains(l) {
                let k = choose|k: int| 0 <= k < (opts + init).len() && (opts + init)[k] == l;
                assert(all[k] == all[all.len() - 1]);
            }
        }
        assert((opts + init).push(l) =~= opts + lines);
    }
}

/// Additions alone, of values all distinct, give the options in the order in
/// which the values first appear across the fragments.
pub proof fn lemma_distinct_additions_keep_order(fragments: Seq<Seq<Seq<char>>>)
    requires
        forall|i: int, j: int|
            0 <= i < fragments.len() && 0 <= j < fragments[i].len() ==> is_addition_line(
                #[trigger] fragments[i][j],
            ),
        fragments.flatten().no_duplicates(),
    ensures
        merge_all(fragments) == fragments.flatten(),
    decreases fragments.len(),
{
    if fragments.len() > 0 {
        let init = fragments.drop_last();
        let last = fragments.last();
        assert(init.push(last) =~= fragments);
        init.lemma_flatten_push(last);
        let all = fragments.flatten();
        assert(init.flatten() =~= all.take(init.flatten().len() as int));
        assert(init.flatten().no_duplicates()) by {
            assert forall|i: int, j: int|
                0 <= i < init.flatten().len() && 0 <= j < init.flatten().len() && i != j
                implies init.flatten()[i] != init.flatten()[j] by {
                assert(init.flatten()[i] == all[i]);
                assert(init.flatten()[j] == all[j]);
            }
        }
        assert forall|i: int, j: int| 0 <= i < init.len() && 0 <= j < init[i].len() implies
            is_addition_line(#[trigger] init[i][j]) by {
            assert(init[i] == fragments[i]);
        }
        lemma_distinct_additions_keep_order(init);
        assert forall|j: int| 0 <= j < last.len() implies is_addition_line(#[trigger] last[j]) by {
            assert(fragments[fragments.len() - 1] == last);
        }
        lemma_fresh_additions_append(init.flatten(), last);
    }
}

/// After any fragments are applied, no option appears twice.
pub proof fn lemma_merge_no_duplicates(fragments: Seq<Seq<Seq<char>>>)
    ensures
        merge_all(fragments).no_duplicates(),
    decreases fragments.len(),
{
    if fragments.len() > 0 {
        lemma_merge_no_duplicates(fragments.drop_last());
        lemma_apply_lines_no_duplicates(merge_all(fragments.drop_last()), fragments.last());
    }
}

/// Blank and comment lines change nothing: a fragment has the same effect
/// as the fragment with them taken out.
pub proof fn lemma_noop_lines_ignored(opts: Seq<Seq<char>>, lines: Seq<Seq<char>>)
    ensures
        apply_lines(opts, lines) == apply_lines(
            opts,
            lines.filter(|l: Seq<char>| !is_noop_line(l)),
        ),
    decreases lines.len(),
{
    let p = |l: Seq<char>| !is_noop_line(l);
    if lines.len() == 0 {
        assert(lines.filter(p) =~= lines);
    } else {
        let init = lines.drop_last();
        let l = lines.last();
        assert(init.push(l) =~= lines);
        init.lemma_filter_push(l, p);
        lemma_noop_lines_ignored(opts, init);
        if !is_noop_line(l) {
            assert(init.filter(p).push(l).drop_last() =~= init.filter(p));
        }
    }
}

/// A fragment of only blank and comment lines leaves the options as they are.
proof fn lemma_noop_fragment(opts: Seq<Seq<char>>, lines: Seq<Seq<char>>)
    requires
        forall|j: int| 0 <= j < lines.len() ==> is_noop_line(#[trigger] lines[j]),
    ensures
        apply_lines(opts, lines) == opts,
    decreases lines.len(),
{
    if lines.len() > 0 {
        assert(is_noop_line(lines[lines.len() - 1]));
        lemma_noop_fragment(opts, lines.drop_last());
    }
}

/// No fragments, or fragments of only blank and comment lines, give no
/// options and so the empty line.
pub proof fn lemma_empty_input(fragments: Seq<Seq<Seq<char>>>)
    requires
        forall|i: int, j: int|
            0 <= i < fragments.len() && 0 <= j < fragments[i].len() ==> is_noop_line(
                #[trigger] fragments[i][j],
            ),
    ensures
        merge_all(fragments) == Seq::<Seq<char>>::empty(),
        joined(merge_all(fragments)) == Seq::<char>::empty(),
    decreases fragments.len(),
{
    if fragments.len() > 0 {
        let init = fragments.drop_last();
        assert forall|i: int, j: int| 0 <= i < init.len() && 0 <= j < init[i].len() implies
            is_noop_line(#[trigger] init[i][j]) by {
            assert(init[i] == fragments[i]);
        }
        lemma_empty_input(init);
        let last = fragments.last();
        assert forall|j: int| 0 <= j < last.len() implies is_noop_line(#[trigger] last[j]) by {
            assert(fragments[fragments.len() - 1] == last);
        }
        lemma_noop_fragment(merge_all(init), last);
    }
}

} // verus!
