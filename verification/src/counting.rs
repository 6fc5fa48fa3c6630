//! Counting cells and booleans in sequences, with the lemmas the field's
//! counting loops and the construction of a new field rely on.

use vstd::prelude::*;
use crate::cell::Cell;

verus! {

/// How many entries of `s` are `true`.
pub open spec fn count_true(s: Seq<bool>) -> nat
    decreases s.len(),
{
    if s.len() == 0 {
        0
    } else {
        count_true(s.drop_last()) + (if s.last() { 1nat } else { 0nat })
    }
}

/// How many cells of `s` hold a mine.
pub open spec fn count_mines(s: Seq<Cell>) -> nat
    decreases s.len(),
{
    if s.len() == 0 {
        0
    } else {
        count_mines(s.drop_last()) + (if s.last().is_mine() { 1nat } else { 0nat })
    }
}

/// How many cells of `s` are flagged.
pub open spec fn count_flags(s: Seq<Cell>) -> nat
    decreases s.len(),
{
    if s.len() == 0 {
        0
    } else {
        count_flags(s.drop_last()) + (if s.last().is_flagged() { 1nat } else { 0nat })
    }
}

/// How many cells of `s` are still hidden.
pub open spec fn count_hidden(s: Seq<Cell>) -> nat
    decreases s.len(),
{
    if s.len() == 0 {
        0
    } else {
        count_hidden(s.drop_last()) + (if s.last().is_revealed() { 0nat } else { 1nat })
    }
}

/// Appending one entry adds that entry's contribution to the count.
pub proof fn lemma_count_true_push(s: Seq<bool>, b: bool)
    ensures
        count_true(s.push(b)) == count_true(s) + (if b {
            1nat
        } else {
            0nat
        }),
{
    assert(s.push(b).drop_last() =~= s);
    assert(s.push(b).last() == b);
}

/// Extending a prefix of `s` by one entry adds that entry's contribution.
pub proof fn lemma_count_mines_step(s: Seq<Cell>, i: int)
    requires
        0 <= i < s.len(),
    ensures
        count_mines(s.subrange(0, i + 1)) == count_mines(s.subrange(0, i)) + (if s[i].is_mine() {
            1nat
        } else {
            0nat
        }),
{
    assert(s.subrange(0, i + 1).drop_last() =~= s.subrange(0, i));
    assert(s.subrange(0, i + 1).last() == s[i]);
}

/// Extending a prefix of `s` by one entry adds that entry's contribution.
pub proof fn lemma_count_flags_step(s: Seq<Cell>, i: int)
    requires
        0 <= i < s.len(),
    ensures
        count_flags(s.subrange(0, i + 1)) == count_flags(s.subrange(0, i)) + (if s[i].is_flagged() {
            1nat
        } else {
            0nat
        }),
{
    assert(s.subrange(0, i + 1).drop_last() =~= s.subrange(0, i));
    assert(s.subrange(0, i + 1).last() == s[i]);
}

/// No count exceeds the length of the sequence counted over.
pub proof fn lemma_counts_le_len(s: Seq<Cell>)
    ensures
        count_mines(s) <= s.len(),
        count_flags(s) <= s.len(),
    decreases s.len(),
{
    if s.len() > 0 {
        lemma_counts_le_len(s.drop_last());
    }
}

/// Overwriting one cell changes the hidden count by the difference of the
/// two cells' contributions.
pub proof fn lemma_count_hidden_update(s: Seq<Cell>, i: int, c: Cell)
    requires
        0 <= i < s.len(),
    ensures
        count_hidden(s.update(i, c)) + (if s[i].is_revealed() { 0nat } else { 1nat })
            == count_hidden(s) + (if c.is_revealed() { 0nat } else { 1nat }),
    decreases s.len(),
{
    if i == s.len() - 1 {
        assert(s.update(i, c).drop_last() =~= s.drop_last());
        assert(s.update(i, c).last() == c);
    } else {
        assert(s.update(i, c).drop_last() =~= s.drop_last().update(i, c));
        assert(s.update(i, c).last() == s.last());
        lemma_count_hidden_update(s.drop_last(), i, c);
    }
}

/// The mine count only looks at which cells hold mines.
pub proof fn lemma_count_mines_congruent(s1: Seq<Cell>, s2: Seq<Cell>)
    requires
        s1.len() == s2.len(),
        forall|i: int|
            0 <= i < s1.len() ==> (#[trigger] s1[i]).is_mine() == (#[trigger] s2[i]).is_mine(),
    ensures
        count_mines(s1) == count_mines(s2),
    decreases s1.len(),
{
    if s1.len() > 0 {
        lemma_count_mines_congruent(s1.drop_last(), s2.drop_last());
    }
}

/// Cells built from a boolean mine layout hold as many mines as the layout
/// holds `true` entries.
pub proof fn lemma_count_mines_matches_layout(cells: Seq<Cell>, layout: Seq<bool>)
    requires
        cells.len() == layout.len(),
        forall|i: int| 0 <= i < cells.len() ==> (#[trigger] cells[i]).is_mine() == layout[i],
    ensures
        count_mines(cells) == count_true(layout),
    decreases cells.len(),
{
    if cells.len() > 0 {
        lemma_count_mines_matches_layout(cells.drop_last(), layout.drop_last());
    }
}

/// `count_true` is a function of the multiset of entries alone, so it is
/// stable under any permutation of the sequence.
pub proof fn lemma_count_true_multiset(s: Seq<bool>)
    ensures
        count_true(s) == s.to_multiset().count(true),
    decreases s.len(),
{
    broadcast use vstd::seq_lib::group_to_multiset_ensures;
    broadcast use vstd::multiset::group_multiset_axioms;

    if s.len() == 0 {
        assert(s.to_multiset().len() == 0);
    } else {
        let s0 = s.drop_last();
        let b = s.last();
        lemma_count_true_multiset(s0);
        assert(s0.push(b) =~= s);
        assert(s0.push(b).to_multiset() =~= s0.to_multiset().insert(b));
        if b {
            vstd::multiset::lemma_insert_increases_count_by_1(s0.to_multiset(), b);
        } else {
            vstd::multiset::lemma_insert_other_elements_unchanged(s0.to_multiset(), b, true);
        }
    }
}

} // verus!
