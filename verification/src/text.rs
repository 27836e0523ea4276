//! Text as sequences of characters: the groups between separators, and suffixes.

use vstd::prelude::*;

verus! {

/// The groups into which the separator `sep` cuts `s`, from left to right.
///
/// Every occurrence of `sep` ends one group and opens the next, so a text with
/// `n` separators has `n + 1` groups, some of which may be empty; the empty
/// text has one empty group.
pub open spec fn split(s: Seq<char>, sep: char) -> Seq<Seq<char>>
    decreases s.len(),
{
    if s.len() == 0 {
        seq![Seq::empty()]
    } else {
        let before = split(s.drop_last(), sep);
        if s.last() == sep {
            before.push(Seq::empty())
        } else {
            before.update(before.len() - 1, before.last().push(s.last()))
        }
    }
}

/// `sep` does not occur in `s`.
pub open spec fn free_of(s: Seq<char>, sep: char) -> bool {
    forall|i: int| 0 <= i < s.len() ==> s[i] != sep
}

/// Every text has at least one group, and no group holds the separator.
pub proof fn lemma_split_groups(s: Seq<char>, sep: char)
    ensures
        split(s, sep).len() >= 1,
        forall|k: int| 0 <= k < split(s, sep).len() ==> free_of(#[trigger] split(s, sep)[k], sep),
    decreases s.len(),
{
    if s.len() > 0 {
        lemma_split_groups(s.drop_last(), sep);
    }
}

/// A text without the separator is its own single group.
pub proof fn lemma_split_one_group(g: Seq<char>, sep: char)
    requires
        free_of(g, sep),
    ensures
        split(g, sep) == seq![g],
    decreases g.len(),
{
    if g.len() == 0 {
        assert(g == Seq::<char>::empty());
    } else {
        lemma_split_one_group(g.drop_last(), sep);
        assert(g.drop_last().push(g.last()) == g);
    }
}

/// A separator followed by a text without the separator adds that text as one more group.
pub proof fn lemma_split_next_group(a: Seq<char>, g: Seq<char>, sep: char)
    requires
        free_of(g, sep),
    ensures
        split(a + seq![sep] + g, sep) == split(a, sep).push(g),
    decreases g.len(),
{
    let whole = a + seq![sep] + g;
    if g.len() == 0 {
        assert(whole.drop_last() == a);
        assert(g == Seq::<char>::empty());
    } else {
        lemma_split_next_group(a, g.drop_last(), sep);
        assert(whole.drop_last() == a + seq![sep] + g.drop_last());
        assert(whole.last() == g.last());
        assert(g.drop_last().push(g.last()) == g);
    }
}

/// The groups, written one after the other with `sep` between them.
pub open spec fn join(groups: Seq<Seq<char>>, sep: char) -> Seq<char>
    decreases groups.len(),
{
    if groups.len() == 0 {
        Seq::empty()
    } else if groups.len() == 1 {
        groups[0]
    } else {
        join(groups.drop_last(), sep) + seq![sep] + groups.last()
    }
}

/// Joining the groups of a text gives the text back.
pub proof fn lemma_join_split(s: Seq<char>, sep: char)
    ensures
        join(split(s, sep), sep) == s,
    decreases s.len(),
{
    if s.len() > 0 {
        let before = split(s.drop_last(), sep);
        let groups = split(s, sep);
        lemma_join_split(s.drop_last(), sep);
        lemma_split_groups(s.drop_last(), sep);
        assert(groups.drop_last() == if s.last() == sep {
            before
        } else {
            before.drop_last()
        });
        assert(s.drop_last().push(s.last()) == s);
        if s.last() == sep {
            assert(join(groups, sep) == s.drop_last() + seq![sep] + Seq::<char>::empty());
        } else if before.len() == 1 {
            assert(join(groups, sep) == before[0].push(s.last()));
        } else {
            assert(join(groups, sep) == join(before.drop_last(), sep) + seq![sep]
                + before.last().push(s.last()));
            assert(join(before, sep) == join(before.drop_last(), sep) + seq![sep] + before.last());
        }
    }
}

/// The groups of a text are the only groups without the separator that join
/// to the text: cutting what such groups join to gives the groups back.
pub proof fn lemma_split_join(groups: Seq<Seq<char>>, sep: char)
    requires
        groups.len() >= 1,
        forall|k: int| 0 <= k < groups.len() ==> free_of(#[trigger] groups[k], sep),
    ensures
        split(join(groups, sep), sep) == groups,
    decreases groups.len(),
{
    if groups.len() == 1 {
        lemma_split_one_group(groups[0], sep);
        assert(seq![groups[0]] == groups);
    } else {
        lemma_split_join(groups.drop_last(), sep);
        lemma_split_next_group(join(groups.drop_last(), sep), groups.last(), sep);
        assert(groups.drop_last().push(groups.last()) == groups);
    }
}

/// `suffix` is what `s` ends with.
pub open spec fn is_suffix(suffix: Seq<char>, s: Seq<char>) -> bool {
    suffix.len() <= s.len() && s.subrange(s.len() - suffix.len(), s.len() as int) == suffix
}

/// The characters of `s`, in order.
pub fn chars_of(s: &str) -> (v: Vec<char>)
    ensures
        v@ == s@,
{
    let mut v: Vec<char> = Vec::new();
    for c in it: s.chars()
        invariant
            v@ == it.seq().take(it.index() as int),
            it.seq() == s@,
    {
        v.push(c);
    }
    v
}

/// Where the groups of `v` lie: for each group of `split(v@, sep)`, in order,
/// the position of its first character and the position after its last one.
/// The first group starts at the start of `v`, each later one after the
/// separator that ended the group before it, and the last one ends with `v`.
pub fn split_ranges(v: &Vec<char>, sep: char) -> (ranges: Vec<(usize, usize)>)
    ensures
        ranges@.len() == split(v@, sep).len(),
        forall|k: int|
            0 <= k < ranges@.len() ==> {
                &&& (#[trigger] ranges@[k]).0 <= ranges@[k].1 <= v@.len()
                &&& v@.subrange(ranges@[k].0 as int, ranges@[k].1 as int) == split(v@, sep)[k]
            },
        ranges@[0].0 == 0,
        ranges@[ranges@.len() - 1].1 == v@.len(),
        forall|k: int|
            0 <= k < ranges@.len() - 1 ==> (#[trigger] ranges@[k]).1 + 1 == ranges@[k + 1].0,
{
    let mut ranges: Vec<(usize, usize)> = Vec::new();
    let mut start: usize = 0;
    let mut i: usize = 0;
    while i < v.len()
        invariant
            start <= i <= v@.len(),
            ranges@.len() + 1 == split(v@.take(i as int), sep).len(),
            forall|k: int|
                0 <= k < ranges@.len() ==> {
                    &&& (#[trigger] ranges@[k]).0 <= ranges@[k].1 <= i
                    &&& v@.subrange(ranges@[k].0 as int, ranges@[k].1 as int) == split(
                        v@.take(i as int),
                        sep,
                    )[k]
                },
            v@.subrange(start as int, i as int) == split(v@.take(i as int), sep).last(),
            ranges@.len() == 0 ==> start == 0,
            ranges@.len() > 0 ==> ranges@[0].0 == 0 && ranges@[ranges@.len() - 1].1 + 1 == start,
            forall|k: int|
                0 <= k < ranges@.len() - 1 ==> (#[trigger] ranges@[k]).1 + 1 == ranges@[k + 1].0,
        decreases v@.len() - i,
    {
        proof {
            assert(v@.take(i + 1).drop_last() == v@.take(i as int));
            assert(v@.subrange(start as int, i + 1) == v@.subrange(start as int, i as int).push(
                v@[i as int],
            ));
        }
        if v[i] == sep {
            ranges.push((start, i));
            start = i + 1;
        }
        i += 1;
    }
    proof {
        assert(v@.take(i as int) == v@);
    }
    ranges.push((start, i));
    ranges
}

} // verus!
