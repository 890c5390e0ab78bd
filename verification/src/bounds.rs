//! How many pairs two pools hold, where no name stands twice.

use crate::sampler::{
    admissible, available_pairs, covered, draw_names, extends, is_complete, is_selection,
    lemma_complete_selection_counts, lemma_extends_keeps_covered, slot_name, slot_valid, Draw, SampleMode, Slot,
};
use vstd::prelude::*;

verus! {

/// The draw of the name at `i` in the first pool with the name at `j` in the
/// second.
pub open spec fn cross_draw(i: int, j: int) -> Draw {
    Draw {
        first: Slot { from_first: true, index: i as usize },
        second: Slot { from_first: false, index: j as usize },
    }
}

/// The draws of the name at `i` in the first pool with every name of a
/// second pool of `width` names but the one at `i`, in the order of their
/// indices.
pub open spec fn cross_row(i: int, width: int) -> Seq<Draw> {
    Seq::new(
        (if 0 <= i < width { width - 1 } else { width }) as nat,
        |k: int| cross_draw(i, if k < i { k } else { k + 1 }),
    )
}

/// The rows of the first `rows` names of the first pool, one after another.
pub open spec fn cross_rows(rows: int, width: int) -> Seq<Draw>
    decreases rows,
{
    if rows <= 0 {
        Seq::empty()
    } else {
        cross_rows(rows - 1, width) + cross_row(rows - 1, width)
    }
}

/// The smaller of two lengths.
pub open spec fn smaller(m: int, n: int) -> int {
    if m <= n {
        m
    } else {
        n
    }
}

/// The first `rows` rows are a selection that covers every admissible draw
/// whose first index lies in them.
proof fn lemma_cross_rows(a: Seq<Seq<char>>, b: Seq<Seq<char>>, rows: int)
    requires
        a.no_duplicates(),
        b.no_duplicates(),
        a.len() <= usize::MAX,
        b.len() <= usize::MAX,
        0 <= rows <= a.len(),
    ensures
        cross_rows(rows, b.len() as int).len() == rows * b.len() - smaller(rows, b.len() as int),
        is_selection(a, b, SampleMode::Cross, cross_rows(rows, b.len() as int)),
        forall|t: int|
            0 <= t < cross_rows(rows, b.len() as int).len() ==> (#[trigger] cross_rows(
                rows,
                b.len() as int,
            )[t]).first.index < rows,
        forall|draw: Draw|
            #[trigger] admissible(a, b, SampleMode::Cross, draw) && draw.first.index < rows ==> covered(
                a,
                b,
                cross_rows(rows, b.len() as int),
                draw,
            ),
    decreases rows,
{
    let n = b.len() as int;
    let mode = SampleMode::Cross;
    if rows > 0 {
        let i = rows - 1;
        lemma_cross_rows(a, b, i);
        let earlier = cross_rows(i, n);
        let row = cross_row(i, n);
        let all = cross_rows(rows, n);
        assert(all == earlier + row);
        assert(extends(earlier, all));
        assert(all.len() == rows * n - smaller(rows, n)) by {
            assert(i * n + n == rows * n) by (nonlinear_arith)
                requires
                    i == rows - 1,
            ;
        }
        assert forall|t: int| 0 <= t < all.len() implies admissible(a, b, mode, #[trigger] all[t])
            && all[t].first.index < rows by {
            if t < earlier.len() {
                assert(all[t] == earlier[t]);
            } else {
                assert(all[t] == row[t - earlier.len()]);
            }
        }
        assert forall|t: int, u: int| 0 <= t < u < all.len() implies draw_names(a, b, #[trigger] all[t])
            != draw_names(a, b, #[trigger] all[u]) by {
            if u < earlier.len() {
                assert(all[t] == earlier[t]);
                assert(all[u] == earlier[u]);
            } else if t < earlier.len() {
                assert(all[t] == earlier[t]);
                assert(all[u] == row[u - earlier.len()]);
                assert(all[t].first.index != all[u].first.index);
                assert(a[all[t].first.index as int] != a[all[u].first.index as int]);
            } else {
                assert(all[t] == row[t - earlier.len()]);
                assert(all[u] == row[u - earlier.len()]);
                assert(all[t].second.index != all[u].second.index);
                assert(b[all[t].second.index as int] != b[all[u].second.index as int]);
            }
        }
        assert forall|draw: Draw| #[trigger]
            admissible(a, b, mode, draw) && draw.first.index < rows implies covered(a, b, all, draw) by {
            if draw.first.index < i {
                lemma_extends_keeps_covered(a, b, earlier, all, draw);
            } else {
                let j = draw.second.index as int;
                let k = if j < i { j } else { j - 1 };
                assert(row[k] == cross_draw(i, j));
                assert(all[earlier.len() + k] == row[k]);
                assert(cross_draw(i, j) == draw);
            }
        }
    } else {
        assert(rows * n == 0) by (nonlinear_arith)
            requires
                rows == 0,
        ;
    }
}

/// Where neither pool holds a name twice, cross mode has one pair for every
/// two indices that differ: the product of the two lengths, less the smaller
/// of them.
pub proof fn lemma_cross_pairs_count(a: Seq<Seq<char>>, b: Seq<Seq<char>>)
    requires
        a.no_duplicates(),
        b.no_duplicates(),
        a.len() <= usize::MAX,
        b.len() <= usize::MAX,
    ensures
        available_pairs(a, b, SampleMode::Cross).finite(),
        available_pairs(a, b, SampleMode::Cross).len() == a.len() * b.len() - smaller(
            a.len() as int,
            b.len() as int,
        ),
{
    lemma_cross_rows(a, b, a.len() as int);
    let all = cross_rows(a.len() as int, b.len() as int);
    assert(is_complete(a, b, SampleMode::Cross, all));
    lemma_complete_selection_counts(a, b, SampleMode::Cross, all);
}

/// The slot at a place among all slots: those of the first pool, which has
/// `m` names, then those of the second.
pub open spec fn mixed_slot(m: int, place: int) -> Slot {
    if place < m {
        Slot { from_first: true, index: place as usize }
    } else {
        Slot { from_first: false, index: (place - m) as usize }
    }
}

/// The place of a slot among all slots.
pub open spec fn place_of(m: int, slot: Slot) -> int {
    if slot.from_first {
        slot.index as int
    } else {
        m + slot.index
    }
}

/// The draw of the slot at one place with the slot at another.
pub open spec fn mixed_draw(m: int, s: int, t: int) -> Draw {
    Draw { first: mixed_slot(m, s), second: mixed_slot(m, t) }
}

/// The draws of the slot at place `s` with every slot at a place below `upto`
/// that has another index, in the order of the places.
pub open spec fn mixed_row(m: int, s: int, upto: int) -> Seq<Draw>
    decreases upto,
{
    if upto <= 0 {
        Seq::empty()
    } else if mixed_slot(m, upto - 1).index == mixed_slot(m, s).index {
        mixed_row(m, s, upto - 1)
    } else {
        mixed_row(m, s, upto - 1).push(mixed_draw(m, s, upto - 1))
    }
}

/// The rows of the slots at the first `rows` places, one after another.
pub open spec fn mixed_rows(m: int, total: int, rows: int) -> Seq<Draw>
    decreases rows,
{
    if rows <= 0 {
        Seq::empty()
    } else {
        mixed_rows(m, total, rows - 1) + mixed_row(m, rows - 1, total)
    }
}

/// How many slots at places below `upto` have the index of the slot at `s`.
pub open spec fn same_index(m: int, n: int, s: int, upto: int) -> int {
    let i = mixed_slot(m, s).index as int;
    (if i < m && i < upto { 1int } else { 0int }) + (if i < n && m + i < upto { 1int } else { 0int })
}

/// How many of the slots at the first `rows` places share their index with a
/// slot of the other pool.
pub open spec fn partners(m: int, n: int, rows: int) -> int {
    smaller(smaller(rows, m), n) + (if rows > m { smaller(rows - m, m) } else { 0 })
}

/// A row holds the draws of its slot with the slots of other indices, each
/// once.
proof fn lemma_mixed_row(a: Seq<Seq<char>>, b: Seq<Seq<char>>, s: int, upto: int)
    requires
        (a + b).no_duplicates(),
        a.len() + b.len() <= usize::MAX,
        0 <= s < a.len() + b.len(),
        0 <= upto <= a.len() + b.len(),
    ensures
        mixed_row(a.len() as int, s, upto).len() == upto - same_index(a.len() as int, b.len() as int, s, upto),
        forall|k: int|
            0 <= k < mixed_row(a.len() as int, s, upto).len() ==> exists|t: int|
                0 <= t < upto && mixed_slot(a.len() as int, t).index != mixed_slot(a.len() as int, s).index
                    && #[trigger] mixed_row(a.len() as int, s, upto)[k] == mixed_draw(a.len() as int, s, t),
        forall|k: int, l: int|
            0 <= k < l < mixed_row(a.len() as int, s, upto).len() ==> (#[trigger] mixed_row(
                a.len() as int,
                s,
                upto,
            )[k]).second != (#[trigger] mixed_row(a.len() as int, s, upto)[l]).second,
        forall|t: int|
            0 <= t < upto && mixed_slot(a.len() as int, t).index != mixed_slot(a.len() as int, s).index
                ==> exists|k: int|
                0 <= k < mixed_row(a.len() as int, s, upto).len() && #[trigger] mixed_row(
                    a.len() as int,
                    s,
                    upto,
                )[k] == mixed_draw(a.len() as int, s, t),
    decreases upto,
{
    let m = a.len() as int;
    if upto > 0 {
        let last = upto - 1;
        lemma_mixed_row(a, b, s, last);
        let earlier = mixed_row(m, s, last);
        let row = mixed_row(m, s, upto);
        if mixed_slot(m, last).index == mixed_slot(m, s).index {
            assert(row == earlier);
            assert forall|k: int| 0 <= k < row.len() implies exists|t: int|
                0 <= t < upto && mixed_slot(m, t).index != mixed_slot(m, s).index && #[trigger] row[k]
                    == mixed_draw(m, s, t) by {
                let t = choose|t: int|
                    0 <= t < last && mixed_slot(m, t).index != mixed_slot(m, s).index && earlier[k]
                        == mixed_draw(m, s, t);
                assert(row[k] == mixed_draw(m, s, t));
            }
        } else {
            assert(row == earlier.push(mixed_draw(m, s, last)));
            assert forall|k: int| 0 <= k < row.len() implies exists|t: int|
                0 <= t < upto && mixed_slot(m, t).index != mixed_slot(m, s).index && #[trigger] row[k]
                    == mixed_draw(m, s, t) by {
                if k < earlier.len() {
                    let t = choose|t: int|
                        0 <= t < last && mixed_slot(m, t).index != mixed_slot(m, s).index && earlier[k]
                            == mixed_draw(m, s, t);
                    assert(row[k] == mixed_draw(m, s, t));
                } else {
                    assert(row[k] == mixed_draw(m, s, last));
                }
            }
            assert forall|k: int, l: int| 0 <= k < l < row.len() implies (#[trigger] row[k]).second != (
            #[trigger] row[l]).second by {
                if l < earlier.len() {
                    assert(row[k] == earlier[k]);
                    assert(row[l] == earlier[l]);
                } else {
                    let t = choose|t: int|
                        0 <= t < last && mixed_slot(m, t).index != mixed_slot(m, s).index && earlier[k]
                            == mixed_draw(m, s, t);
                    assert(row[k].second == mixed_slot(m, t));
                    assert(row[l].second == mixed_slot(m, last));
                }
            }
            assert forall|t: int|
                0 <= t < upto && mixed_slot(m, t).index != mixed_slot(m, s).index implies exists|k: int|
                0 <= k < row.len() && #[trigger] row[k] == mixed_draw(m, s, t) by {
                if t < last {
                    let k = choose|k: int| 0 <= k < earlier.len() && #[trigger] earlier[k] == mixed_draw(m, s, t);
                    assert(row[k] == mixed_draw(m, s, t));
                } else {
                    assert(row[earlier.len() as int] == mixed_draw(m, s, t));
                }
            }
        }
    }
}

/// The name of a slot is the name at its place in the two pools joined.
proof fn lemma_name_at_place(a: Seq<Seq<char>>, b: Seq<Seq<char>>, place: int)
    requires
        a.len() + b.len() <= usize::MAX,
        0 <= place < a.len() + b.len(),
    ensures
        slot_valid(a, b, mixed_slot(a.len() as int, place)),
        slot_name(a, b, mixed_slot(a.len() as int, place)) == (a + b)[place],
        place_of(a.len() as int, mixed_slot(a.len() as int, place)) == place,
{
}

/// The draws of a row are admissible and have the slot of the row as their
/// first.
proof fn lemma_row_admissible(a: Seq<Seq<char>>, b: Seq<Seq<char>>, s: int)
    requires
        (a + b).no_duplicates(),
        a.len() + b.len() <= usize::MAX,
        0 <= s < a.len() + b.len(),
    ensures
        forall|k: int|
            0 <= k < mixed_row(a.len() as int, s, (a.len() + b.len()) as int).len() ==> admissible(
                a,
                b,
                SampleMode::Mixed,
                #[trigger] mixed_row(a.len() as int, s, (a.len() + b.len()) as int)[k],
            ) && mixed_row(a.len() as int, s, (a.len() + b.len()) as int)[k].first == mixed_slot(
                a.len() as int,
                s,
            ),
{
    let m = a.len() as int;
    let total = (a.len() + b.len()) as int;
    let row = mixed_row(m, s, total);
    lemma_mixed_row(a, b, s, total);
    lemma_name_at_place(a, b, s);
    assert forall|k: int| 0 <= k < row.len() implies admissible(a, b, SampleMode::Mixed, #[trigger] row[k])
        && row[k].first == mixed_slot(m, s) by {
        let t = choose|t: int|
            0 <= t < total && mixed_slot(m, t).index != mixed_slot(m, s).index && row[k] == mixed_draw(m, s, t);
        lemma_name_at_place(a, b, t);
    }
}

/// Two draws of one slot with the slots at two different places stand for
/// different pairs of names.
proof fn lemma_other_second_other_name(a: Seq<Seq<char>>, b: Seq<Seq<char>>, s: int, t: int, u: int)
    requires
        (a + b).no_duplicates(),
        a.len() + b.len() <= usize::MAX,
        0 <= t < a.len() + b.len(),
        0 <= u < a.len() + b.len(),
        t != u,
    ensures
        draw_names(a, b, mixed_draw(a.len() as int, s, t)) != draw_names(a, b, mixed_draw(a.len() as int, s, u)),
{
    lemma_name_at_place(a, b, t);
    lemma_name_at_place(a, b, u);
    assert((a + b)[t] != (a + b)[u]);
}

/// No two draws of a row stand for the same pair of names.
proof fn lemma_row_distinct(a: Seq<Seq<char>>, b: Seq<Seq<char>>, s: int)
    requires
        (a + b).no_duplicates(),
        a.len() + b.len() <= usize::MAX,
        0 <= s < a.len() + b.len(),
    ensures
        forall|k: int, l: int|
            0 <= k < l < mixed_row(a.len() as int, s, (a.len() + b.len()) as int).len() ==> draw_names(
                a,
                b,
                #[trigger] mixed_row(a.len() as int, s, (a.len() + b.len()) as int)[k],
            ) != draw_names(a, b, #[trigger] mixed_row(a.len() as int, s, (a.len() + b.len()) as int)[l]),
{
    let m = a.len() as int;
    let total = (a.len() + b.len()) as int;
    let row = mixed_row(m, s, total);
    lemma_mixed_row(a, b, s, total);
    assert forall|k: int, l: int| 0 <= k < l < row.len() implies draw_names(a, b, #[trigger] row[k])
        != draw_names(a, b, #[trigger] row[l]) by {
        let x = row[k];
        let y = row[l];
        let t = choose|t: int|
            0 <= t < total && mixed_slot(m, t).index != mixed_slot(m, s).index && x == mixed_draw(m, s, t);
        let u = choose|u: int|
            0 <= u < total && mixed_slot(m, u).index != mixed_slot(m, s).index && y == mixed_draw(m, s, u);
        assert(x.second != y.second);
        lemma_other_second_other_name(a, b, s, t, u);
    }
}

/// A row holds every admissible draw whose first slot is the slot of the row.
proof fn lemma_row_covers(a: Seq<Seq<char>>, b: Seq<Seq<char>>, s: int, draw: Draw)
    requires
        (a + b).no_duplicates(),
        a.len() + b.len() <= usize::MAX,
        0 <= s < a.len() + b.len(),
        admissible(a, b, SampleMode::Mixed, draw),
        place_of(a.len() as int, draw.first) == s,
    ensures
        exists|k: int|
            0 <= k < mixed_row(a.len() as int, s, (a.len() + b.len()) as int).len() && #[trigger] mixed_row(
                a.len() as int,
                s,
                (a.len() + b.len()) as int,
            )[k] == draw,
{
    let m = a.len() as int;
    let total = (a.len() + b.len()) as int;
    let row = mixed_row(m, s, total);
    lemma_mixed_row(a, b, s, total);
    let t = place_of(m, draw.second);
    lemma_name_at_place(a, b, t);
    assert(mixed_slot(m, t) == draw.second);
    assert(mixed_slot(m, s) == draw.first);
    assert(mixed_draw(m, s, t) == draw);
    let k = choose|k: int| 0 <= k < row.len() && #[trigger] row[k] == mixed_draw(m, s, t);
    assert(row[k] == draw);
}

/// Two admissible draws whose first slots lie at different places stand for
/// different pairs of names.
proof fn lemma_other_place_other_name(a: Seq<Seq<char>>, b: Seq<Seq<char>>, x: Draw, y: Draw)
    requires
        (a + b).no_duplicates(),
        a.len() + b.len() <= usize::MAX,
        admissible(a, b, SampleMode::Mixed, x),
        admissible(a, b, SampleMode::Mixed, y),
        place_of(a.len() as int, x.first) != place_of(a.len() as int, y.first),
    ensures
        draw_names(a, b, x) != draw_names(a, b, y),
{
    let m = a.len() as int;
    let p = place_of(m, x.first);
    let q = place_of(m, y.first);
    lemma_name_at_place(a, b, p);
    lemma_name_at_place(a, b, q);
    assert(mixed_slot(m, p) == x.first);
    assert(mixed_slot(m, q) == y.first);
    assert((a + b)[p] != (a + b)[q]);
}

/// How many draws the rows of the first `rows` places hold.
proof fn lemma_mixed_rows_len(a: Seq<Seq<char>>, b: Seq<Seq<char>>, rows: int)
    requires
        (a + b).no_duplicates(),
        a.len() + b.len() <= usize::MAX,
        0 <= rows <= a.len() + b.len(),
    ensures
        mixed_rows(a.len() as int, (a.len() + b.len()) as int, rows).len() == rows * (a.len() + b.len()) - rows
            - partners(a.len() as int, b.len() as int, rows),
    decreases rows,
{
    let m = a.len() as int;
    let n = b.len() as int;
    let total = m + n;
    if rows > 0 {
        let s = rows - 1;
        lemma_mixed_rows_len(a, b, s);
        lemma_mixed_row(a, b, s, total);
        assert(s * total + total == rows * total) by (nonlinear_arith)
            requires
                s == rows - 1,
        ;
    } else {
        assert(rows * total == 0) by (nonlinear_arith)
            requires
                rows == 0,
        ;
    }
}

/// The rows of the first `rows` places are a selection that covers every
/// admissible draw whose first slot lies at one of them.
proof fn lemma_mixed_rows(a: Seq<Seq<char>>, b: Seq<Seq<char>>, rows: int)
    requires
        (a + b).no_duplicates(),
        a.len() + b.len() <= usize::MAX,
        0 <= rows <= a.len() + b.len(),
    ensures
        is_selection(a, b, SampleMode::Mixed, mixed_rows(a.len() as int, (a.len() + b.len()) as int, rows)),
        forall|k: int|
            0 <= k < mixed_rows(a.len() as int, (a.len() + b.len()) as int, rows).len() ==> place_of(
                a.len() as int,
                (#[trigger] mixed_rows(a.len() as int, (a.len() + b.len()) as int, rows)[k]).first,
            ) < rows,
        forall|draw: Draw|
            #[trigger] admissible(a, b, SampleMode::Mixed, draw) && place_of(a.len() as int, draw.first) < rows
                ==> covered(a, b, mixed_rows(a.len() as int, (a.len() + b.len()) as int, rows), draw),
    decreases rows,
{
    let m = a.len() as int;
    let total = (a.len() + b.len()) as int;
    let mode = SampleMode::Mixed;
    if rows > 0 {
        let s = rows - 1;
        lemma_mixed_rows(a, b, s);
        lemma_row_admissible(a, b, s);
        lemma_row_distinct(a, b, s);
        lemma_name_at_place(a, b, s);
        let earlier = mixed_rows(m, total, s);
        let row = mixed_row(m, s, total);
        let all = mixed_rows(m, total, rows);
        assert(all == earlier + row);
        assert(extends(earlier, all));
        assert forall|k: int| 0 <= k < all.len() implies admissible(a, b, mode, #[trigger] all[k])
            && place_of(m, all[k].first) < rows by {
            if k < earlier.len() {
                assert(all[k] == earlier[k]);
            } else {
                assert(all[k] == row[k - earlier.len()]);
            }
        }
        assert forall|k: int, l: int| 0 <= k < l < all.len() implies draw_names(a, b, #[trigger] all[k])
            != draw_names(a, b, #[trigger] all[l]) by {
            if l < earlier.len() {
                assert(all[k] == earlier[k]);
                assert(all[l] == earlier[l]);
            } else if k < earlier.len() {
                assert(all[k] == earlier[k]);
                assert(all[l] == row[l - earlier.len()]);
                lemma_other_place_other_name(a, b, all[k], all[l]);
            } else {
                assert(all[k] == row[k - earlier.len()]);
                assert(all[l] == row[l - earlier.len()]);
            }
        }
        assert forall|draw: Draw| #[trigger]
            admissible(a, b, mode, draw) && place_of(m, draw.first) < rows implies covered(a, b, all, draw) by {
            if place_of(m, draw.first) < s {
                lemma_extends_keeps_covered(a, b, earlier, all, draw);
            } else {
                lemma_row_covers(a, b, s, draw);
                let k = choose|k: int| 0 <= k < row.len() && #[trigger] row[k] == draw;
                assert(all[earlier.len() + k] == row[k]);
            }
        }
    }
}

/// Where no name stands twice in the two pools together, mixed mode has one
/// pair for every two slots of different indices: with `t` slots in all, `t`
/// times `t`, less the `t` pairs of a slot with itself, less the two pairs of
/// each index that both pools have.
pub proof fn lemma_mixed_pairs_count(a: Seq<Seq<char>>, b: Seq<Seq<char>>)
    requires
        (a + b).no_duplicates(),
        a.len() + b.len() <= usize::MAX,
    ensures
        available_pairs(a, b, SampleMode::Mixed).finite(),
        available_pairs(a, b, SampleMode::Mixed).len() == (a.len() + b.len()) * (a.len() + b.len()) - (a.len()
            + b.len()) - 2 * smaller(a.len() as int, b.len() as int),
{
    let m = a.len() as int;
    let total = (a.len() + b.len()) as int;
    lemma_mixed_rows(a, b, total);
    lemma_mixed_rows_len(a, b, total);
    let all = mixed_rows(m, total, total);
    assert forall|draw: Draw| #[trigger] admissible(a, b, SampleMode::Mixed, draw) implies covered(
        a,
        b,
        all,
        draw,
    ) by {
        assert(place_of(m, draw.first) < total);
    }
    assert(is_complete(a, b, SampleMode::Mixed, all));
    lemma_complete_selection_counts(a, b, SampleMode::Mixed, all);
}

} // verus!
