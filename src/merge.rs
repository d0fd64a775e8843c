//! The merge engine: folds directive lines into an ordered, duplicate-free
//! list of options.

use vstd::prelude::*;

verus! {

/// A line with no effect: blank, or a whole-line `#` comment.
pub open spec fn is_noop_line(line: Seq<char>) -> bool {
    line.len() == 0 || line[0] == '#'
}

/// A line that adds itself as an option: neither a no-op nor a removal
/// `-V`, which takes out the option `V`.
pub open spec fn is_addition_line(line: Seq<char>) -> bool {
    !is_noop_line(line) && line[0] != '-'
}

/// The test that an option is not `v`.
pub open spec fn differs_from(v: Seq<char>) -> spec_fn(Seq<char>) -> bool {
    |x: Seq<char>| x != v
}

/// `opts` with every element equal to `v` taken out, the others in order.
pub open spec fn remove_option(opts: Seq<Seq<char>>, v: Seq<char>) -> Seq<Seq<char>> {
    opts.filter(differs_from(v))
}

/// `opts` with `v` appended, unless `v` is already there.
pub open spec fn add_option(opts: Seq<Seq<char>>, v: Seq<char>) -> Seq<Seq<char>> {
    if opts.contains(v) {
        opts
    } else {
        opts.push(v)
    }
}

/// The effect of one directive line on the options.
pub open spec fn apply_line(opts: Seq<Seq<char>>, line: Seq<char>) -> Seq<Seq<char>> {
    if is_noop_line(line) {
        opts
    } else if line[0] == '-' {
        remove_option(opts, line.drop_first())
    } else {
        add_option(opts, line)
    }
}

/// The lines applied one after another, first to last.
pub open spec fn apply_lines(opts: Seq<Seq<char>>, lines: Seq<Seq<char>>) -> Seq<Seq<char>>
    decreases lines.len(),
{
    if lines.len() == 0 {
        opts
    } else {
        apply_line(apply_lines(opts, lines.drop_last()), lines.last())
    }
}

/// The options that the fragments give, applied in order to an empty list.
pub open spec fn merge_all(fragments: Seq<Seq<Seq<char>>>) -> Seq<Seq<char>>
    decreases fragments.len(),
{
    if fragments.len() == 0 {
        Seq::empty()
    } else {
        apply_lines(merge_all(fragments.drop_last()), fragments.last())
    }
}

/// Whether `value` is one of the options.
fn contains_option(cmdline: &Vec<String>, value: &String) -> (r: bool)
    ensures
        r == cmdline.deep_view().contains(value@),
{
    let mut i: usize = 0;
    while i < cmdline.len()
        invariant
            i <= cmdline.len(),
            forall|j: int| 0 <= j < i ==> cmdline.deep_view()[j] != value@,
        decreases cmdline.len() - i,
    {
        if cmdline[i].eq(value) {
            assert(cmdline.deep_view()[i as int] == value@);
            return true;
        }
        i = i + 1;
    }
    false
}

/// Takes out every option equal to `value`, keeping the order of the rest.
fn remove_matching(cmdline: &mut Vec<String>, value: &String)
    ensures
        final(cmdline).deep_view() == remove_option(old(cmdline).deep_view(), value@),
{
    let ghost opts = cmdline.deep_view();
    let mut kept: Vec<String> = Vec::new();
    let mut i: usize = 0;
    while i < cmdline.len()
        invariant
            i <= cmdline.len(),
            cmdline.deep_view() == opts,
            kept.deep_view() == remove_option(opts.take(i as int), value@),
        decreases cmdline.len() - i,
    {
        let ghost pred = differs_from(value@);
        proof {
            assert(opts.take(i + 1) =~= opts.take(i as int).push(opts[i as int]));
            opts.take(i as int).lemma_filter_push(opts[i as int], pred);
        }
        if !cmdline[i].eq(value) {
            let item = cmdline[i].clone();
            let ghost before = kept.deep_view();
            kept.push(item);
            assert(kept.deep_view() =~= before.push(opts[i as int]));
        }
        i = i + 1;
    }
    assert(opts.take(cmdline.len() as int) =~= opts);
    *cmdline = kept;
}

/// Applies one fragment's lines, in order, to the options.
pub fn apply_config(cmdline: &mut Vec<String>, config_lines: Vec<String>)
    ensures
        final(cmdline).deep_view() == apply_lines(old(cmdline).deep_view(), config_lines.deep_view()),
{
    let ghost start = cmdline.deep_view();
    let ghost lines = config_lines.deep_view();
    let mut i: usize = 0;
    while i < config_lines.len()
        invariant
            i <= config_lines.len(),
            lines == config_lines.deep_view(),
            cmdline.deep_view() == apply_lines(start, lines.take(i as int)),
        decreases config_lines.len() - i,
    {
        let line = config_lines[i].as_str();
        proof {
            let t = lines.take(i + 1);
            assert(t.drop_last() =~= lines.take(i as int));
            assert(t.last() == lines[i as int]);
            assert(lines[i as int] == line@);
        }
        if line.is_empty() || line.get_char(0) == '#' {
        } else if line.get_char(0) == '-' {
            let rest = line.substring_char(1, line.unicode_len());
            let value = rest.to_owned();
            assert(value@ =~= line@.drop_first());
            remove_matching(cmdline, &value);
        } else {
            let value = config_lines[i].clone();
            if !contains_option(cmdline, &value) {
                let ghost before = cmdline.deep_view();
                cmdline.push(value);
                assert(cmdline.deep_view() =~= before.push(line@));
            }
        }
        i = i + 1;
    }
    assert(lines.take(config_lines.len() as int) =~= lines);
}

/// Applies the fragments, in order, to an empty list of options.
pub fn merge_fragments(fragments: &Vec<Vec<String>>) -> (r: Vec<String>)
    ensures
        r.deep_view() == merge_all(fragments.deep_view()),
{
    let ghost frags = fragments.deep_view();
    let mut cmdline: Vec<String> = Vec::new();
    let mut i: usize = 0;
    assert(cmdline.deep_view() =~= Seq::<Seq<char>>::empty());
    assert(frags.take(0) =~= Seq::<Seq<Seq<char>>>::empty());
    while i < fragments.len()
        invariant
            i <= fragments.len(),
            frags == fragments.deep_view(),
            cmdline.deep_view() == merge_all(frags.take(i as int)),
        decreases fragments.len() - i,
    {
        let lines = fragments[i].clone();
        proof {
            assert(lines.deep_view() =~= frags[i as int]);
            let t = frags.take(i + 1);
            assert(t.drop_last() =~= frags.take(i as int));
            assert(t.last() == frags[i as int]);
        }
        apply_config(&mut cmdline, lines);
        i = i + 1;
    }
    assert(frags.take(fragments.len() as int) =~= frags);
    cmdline
}

} // verus!
