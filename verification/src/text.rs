//! Cutting a text into groups at a separator, and joining groups again.

use vstd::prelude::*;

verus! {

/// The groups into which `sep` cuts `text`. There is always at least one: a
/// text without `sep`, the empty text too, is one group.
pub open spec fn split(text: Seq<char>, sep: char) -> Seq<Seq<char>>
    decreases text.len(),
{
    if text.len() == 0 {
        seq![Seq::empty()]
    } else {
        let before = split(text.drop_last(), sep);
        if text.last() == sep {
            before.push(Seq::empty())
        } else {
            before.drop_last().push(before.last().push(text.last()))
        }
    }
}

/// The groups written one after another, with `sep` between neighbours.
pub open spec fn join(groups: Seq<Seq<char>>, sep: char) -> Seq<char>
    decreases groups.len(),
{
    if groups.len() == 0 {
        Seq::empty()
    } else if groups.len() == 1 {
        groups[0]
    } else {
        join(groups.drop_last(), sep).push(sep) + groups.last()
    }
}

/// Whether `sep` occurs nowhere in `group`.
pub open spec fn free_of(group: Seq<char>, sep: char) -> bool {
    forall|i: int| 0 <= i < group.len() ==> group[i] != sep
}

/// Cutting gives at least one group, and `sep` occurs in none of them.
pub proof fn lemma_split_groups(text: Seq<char>, sep: char)
    ensures
        split(text, sep).len() >= 1,
        forall|g: int|
            0 <= g < split(text, sep).len() ==> free_of(#[trigger] split(text, sep)[g], sep),
    decreases text.len(),
{
    if text.len() > 0 {
        lemma_split_groups(text.drop_last(), sep);
    }
}

/// Joining what was cut gives the text back.
pub proof fn lemma_join_split(text: Seq<char>, sep: char)
    ensures
        join(split(text, sep), sep) == text,
    decreases text.len(),
{
    if text.len() > 0 {
        let shorter = text.drop_last();
        let before = split(shorter, sep);
        lemma_split_groups(shorter, sep);
        lemma_join_split(shorter, sep);
        if text.last() == sep {
            assert(before.push(Seq::empty()).drop_last() == before);
            assert(join(before, sep).push(sep) + Seq::<char>::empty() == text);
        } else {
            let grown = before.drop_last().push(before.last().push(text.last()));
            assert(grown.drop_last() == before.drop_last());
            if before.len() == 1 {
                assert(grown[0] == text);
            } else {
                assert(join(before.drop_last(), sep).push(sep) + before.last().push(text.last())
                    == (join(before.drop_last(), sep).push(sep) + before.last()).push(text.last()));
                assert(shorter.push(text.last()) == text);
            }
        }
    }
}

/// A text that ends in a group without `sep`, after a `sep`, is cut into what
/// stands before that `sep`, cut, and that group.
proof fn lemma_split_last_group(head: Seq<char>, group: Seq<char>, sep: char)
    requires
        free_of(group, sep),
    ensures
        split(head.push(sep) + group, sep) == split(head, sep).push(group),
    decreases group.len(),
{
    let text = head.push(sep) + group;
    if group.len() == 0 {
        assert(group == Seq::<char>::empty());
        assert(text == head.push(sep));
        assert(text.drop_last() == head);
    } else {
        lemma_split_last_group(head, group.drop_last(), sep);
        assert(text.drop_last() == head.push(sep) + group.drop_last());
        assert(text.last() == group.last());
        assert(group[group.len() - 1] != sep);
        let before = split(head, sep).push(group.drop_last());
        assert(before.drop_last() == split(head, sep));
        assert(group.drop_last().push(group.last()) == group);
    }
}

/// A text without `sep` is one group.
proof fn lemma_split_one_group(group: Seq<char>, sep: char)
    requires
        free_of(group, sep),
    ensures
        split(group, sep) == seq![group],
    decreases group.len(),
{
    if group.len() == 0 {
        assert(group == Seq::<char>::empty());
    } else {
        lemma_split_one_group(group.drop_last(), sep);
        assert(group[group.len() - 1] != sep);
        assert(group.drop_last().push(group.last()) == group);
        assert(seq![group.drop_last()].drop_last().push(group) == seq![group]);
    }
}

/// Cutting what was joined gives the groups back, where there is at least one
/// group and `sep` occurs in none.
pub proof fn lemma_split_join(groups: Seq<Seq<char>>, sep: char)
    requires
        groups.len() >= 1,
        forall|g: int| 0 <= g < groups.len() ==> free_of(#[trigger] groups[g], sep),
    ensures
        split(join(groups, sep), sep) == groups,
    decreases groups.len(),
{
    if groups.len() == 1 {
        lemma_split_one_group(groups[0], sep);
        assert(seq![groups[0]] == groups);
    } else {
        lemma_split_join(groups.drop_last(), sep);
        lemma_split_last_group(join(groups.drop_last(), sep), groups.last(), sep);
        assert(groups.drop_last().push(groups.last()) == groups);
    }
}

/// What a vector of groups holds, each group as a sequence.
pub open spec fn groups_view(groups: Seq<Vec<char>>) -> Seq<Seq<char>> {
    groups.map_values(|group: Vec<char>| group@)
}

/// Cuts `input` at every `sep`.
pub fn split_text(input: &str, sep: char) -> (groups: Vec<Vec<char>>)
    ensures
        groups_view(groups@) == split(input@, sep),
{
    let mut done: Vec<Vec<char>> = Vec::new();
    let mut current: Vec<char> = Vec::new();
    for c in it: input.chars()
        invariant
            it.seq() == input@,
            split(input@.take(it.index() as int), sep) == groups_view(done@).push(current@),
    {
        proof {
            let seen = input@.take(it.index() as int);
            let next = input@.take(it.index() + 1);
            assert(next.drop_last() == seen);
            assert(next.last() == c);
            assert(groups_view(done@).push(current@).drop_last() == groups_view(done@));
            assert(groups_view(done@.push(current)) == groups_view(done@).push(current@));
        }
        if c == sep {
            done.push(current);
            current = Vec::new();
        } else {
            current.push(c);
        }
    }
    proof {
        assert(input@.take(input@.len() as int) == input@);
        assert(groups_view(done@.push(current)) == groups_view(done@).push(current@));
    }
    done.push(current);
    done
}

} // verus!
