//! Ranking measured paths, the longest first.

use crate::decimal::{decimal_digits, decimal_text, signed_text, unsigned_text};
use crate::paths::{Path, PathView};
use vstd::prelude::*;

verus! {

/// A request and what the store answered: the length of a shortest path
/// between its two vertices, or nothing where it found none or failed.
#[derive(Debug)]
pub struct Lookup {
    pub path: Path,
    pub length: Option<i64>,
}

/// A request whose path was found, and its length.
#[derive(Debug)]
pub struct Ranked {
    pub path: Path,
    pub length: i64,
}

/// A [`Ranked`] over the view of its request.
pub struct RankedView {
    pub path: PathView,
    pub length: int,
}

impl View for Ranked {
    type V = RankedView;

    open spec fn view(&self) -> RankedView {
        RankedView { path: self.path@, length: self.length as int }
    }
}

/// The lookup at `index` gave a length that a path of at most `depth`
/// relations can have.
pub open spec fn resolved(lengths: Seq<Option<i64>>, depth: i32, index: int) -> bool {
    &&& 0 <= index < lengths.len()
    &&& lengths[index] matches Some(length)
    &&& 0 <= length <= depth
}

/// The lookup at `i` is reported before the one at `j`: its path is longer,
/// or it is as long and was asked for earlier.
pub open spec fn ranks_before(lengths: Seq<Option<i64>>, i: int, j: int) -> bool {
    lengths[i].unwrap() > lengths[j].unwrap() || (lengths[i].unwrap() == lengths[j].unwrap() && i < j)
}

/// `order` lists the resolved lookups, each once, in the order of their
/// report.
pub open spec fn is_ranking(lengths: Seq<Option<i64>>, depth: i32, order: Seq<usize>) -> bool {
    &&& forall|k: int| 0 <= k < order.len() ==> resolved(lengths, depth, #[trigger] order[k] as int)
    &&& forall|i: int|
        #[trigger] resolved(lengths, depth, i) ==> exists|k: int| 0 <= k < order.len() && #[trigger] order[k] == i
    &&& forall|k: int, l: int|
        0 <= k < l < order.len() ==> ranks_before(lengths, #[trigger] order[k] as int, #[trigger] order[l] as int)
}

/// The result at each place of the ranking is the lookup that `order` names.
pub open spec fn follows(
    paths: Seq<PathView>,
    lengths: Seq<Option<i64>>,
    order: Seq<usize>,
    ranked: Seq<Ranked>,
) -> bool {
    &&& ranked.len() == order.len()
    &&& forall|k: int|
        0 <= k < ranked.len() ==> (#[trigger] ranked[k])@ == (RankedView {
            path: paths[order[k] as int],
            length: lengths[order[k] as int].unwrap() as int,
        })
}

/// The results are the requests whose lookup is resolved, in the order of
/// their ranking.
pub open spec fn is_descending(
    paths: Seq<PathView>,
    lengths: Seq<Option<i64>>,
    depth: i32,
    ranked: Seq<Ranked>,
) -> bool {
    exists|order: Seq<usize>| #[trigger] is_ranking(lengths, depth, order) && follows(paths, lengths, order, ranked)
}

/// The requests of the lookups, in the same order.
pub open spec fn paths_of(lookups: Seq<Lookup>) -> Seq<PathView> {
    lookups.map_values(|lookup: Lookup| lookup.path@)
}

/// The answers of the lookups, in the same order.
pub open spec fn lengths_of(lookups: Seq<Lookup>) -> Seq<Option<i64>> {
    lookups.map_values(|lookup: Lookup| lookup.length)
}

/// The ranking of the lookups whose index is below `limit`.
spec fn ranks_prefix(lengths: Seq<Option<i64>>, depth: i32, limit: int, order: Seq<usize>) -> bool {
    &&& forall|k: int|
        0 <= k < order.len() ==> resolved(lengths, depth, #[trigger] order[k] as int) && order[k] < limit
    &&& forall|i: int|
        #[trigger] resolved(lengths, depth, i) && i < limit ==> exists|k: int|
            0 <= k < order.len() && #[trigger] order[k] == i
    &&& forall|k: int, l: int|
        0 <= k < l < order.len() ==> ranks_before(lengths, #[trigger] order[k] as int, #[trigger] order[l] as int)
}

/// The order in which the resolved lookups are reported.
fn ranking_order(lookups: &Vec<Lookup>, depth: i32) -> (order: Vec<usize>)
    ensures
        is_ranking(lengths_of(lookups@), depth, order@),
{
    let ghost lengths = lengths_of(lookups@);
    let mut order: Vec<usize> = Vec::new();
    let mut i: usize = 0;
    while i < lookups.len()
        invariant
            i <= lookups.len(),
            lengths == lengths_of(lookups@),
            ranks_prefix(lengths, depth, i as int, order@),
        decreases lookups.len() - i,
    {
        match lookups[i].length {
            Some(length) => {
                if 0 <= length && length <= depth as i64 {
                    let mut place: usize = 0;
                    while place < order.len() && lookups[order[place]].length.unwrap() >= length
                        invariant
                            place <= order.len(),
                            i < lookups.len(),
                            lengths == lengths_of(lookups@),
                            ranks_prefix(lengths, depth, i as int, order@),
                            forall|k: int|
                                0 <= k < place ==> lengths[#[trigger] order[k] as int].unwrap() >= length,
                        decreases order.len() - place,
                    {
                        place += 1;
                    }
                    let ghost before = order@;
                    order.insert(place, i);
                    proof {
                        let after = order@;
                        assert forall|k: int| 0 <= k < after.len() implies resolved(
                            lengths,
                            depth,
                            #[trigger] after[k] as int,
                        ) && after[k] < i + 1 by {
                            if k < place {
                                assert(after[k] == before[k]);
                            } else if k > place {
                                assert(after[k] == before[k - 1]);
                            }
                        }
                        assert forall|j: int| #[trigger] resolved(lengths, depth, j) && j < i + 1 implies exists|
                            k: int,
                        |
                            0 <= k < after.len() && #[trigger] after[k] == j by {
                            if j == i {
                                assert(after[place as int] == j);
                            } else {
                                let k = choose|k: int| 0 <= k < before.len() && #[trigger] before[k] == j;
                                if k < place {
                                    assert(after[k] == j);
                                } else {
                                    assert(after[k + 1] == j);
                                }
                            }
                        }
                        assert forall|k: int, l: int| 0 <= k < l < after.len() implies ranks_before(
                            lengths,
                            #[trigger] after[k] as int,
                            #[trigger] after[l] as int,
                        ) by {
                            let from_k = if k < place { k } else { k - 1 };
                            let from_l = if l < place { l } else { l - 1 };
                            if k != place {
                                assert(after[k] == before[from_k]);
                            }
                            if l != place {
                                assert(after[l] == before[from_l]);
                            }
                            if k == place {
                                if place < before.len() {
                                    assert(ranks_before(lengths, before[place as int] as int, before[from_l] as int)
                                        || from_l == place);
                                }
                            }
                        }
                    }
                } else {
                }
            },
            None => {},
        }
        i += 1;
    }
    order
}

/// The requests whose path was found, the longest path first; requests with
/// paths of one length stay in the order in which they were asked for. A
/// request is left out where the store gave no length for it, or a length
/// that no path of at most `depth` relations has.
pub fn find_descending(list: &Vec<Lookup>, depth: i32) -> (ranked: Vec<Ranked>)
    ensures
        is_descending(paths_of(list@), lengths_of(list@), depth, ranked@),
        ranked.len() <= list.len(),
        forall|k: int, l: int|
            0 <= k < l < ranked.len() ==> (#[trigger] ranked[k]).length >= (#[trigger] ranked[l]).length,
        forall|k: int| 0 <= k < ranked.len() ==> 0 <= (#[trigger] ranked[k]).length <= depth,
{
    let ghost paths = paths_of(list@);
    let ghost lengths = lengths_of(list@);
    let order = ranking_order(list, depth);
    let mut ranked: Vec<Ranked> = Vec::new();
    let mut k: usize = 0;
    while k < order.len()
        invariant
            k <= order.len(),
            paths == paths_of(list@),
            lengths == lengths_of(list@),
            is_ranking(lengths, depth, order@),
            ranked.len() == k,
            forall|m: int|
                0 <= m < k ==> (#[trigger] ranked[m])@ == (RankedView {
                    path: paths[order[m] as int],
                    length: lengths[order[m] as int].unwrap() as int,
                }),
        decreases order.len() - k,
    {
        let index = order[k];
        assert(resolved(lengths, depth, order@[k as int] as int));
        let lookup = &list[index];
        let length = match lookup.length {
            Some(length) => length,
            None => 0,
        };
        ranked.push(Ranked { path: lookup.path.copy(), length });
        k += 1;
    }
    proof {
        lemma_ranking_is_short(lengths, depth, order@);
        assert(follows(paths, lengths, order@, ranked@));
        assert forall|k: int, l: int| 0 <= k < l < ranked.len() implies (#[trigger] ranked[k]).length >= (
        #[trigger] ranked[l]).length by {
            assert(ranks_before(lengths, order@[k] as int, order@[l] as int));
            assert(ranked[k]@.length == lengths[order@[k] as int].unwrap());
            assert(ranked[l]@.length == lengths[order@[l] as int].unwrap());
        }
        assert forall|k: int| 0 <= k < ranked.len() implies 0 <= (#[trigger] ranked[k]).length <= depth by {
            assert(resolved(lengths, depth, order@[k] as int));
            assert(ranked[k]@.length == lengths[order@[k] as int].unwrap());
        }
    }
    ranked
}

/// The line that reports one result: its place, counted from one, the names
/// of its two vertices and the length of the path between them.
pub open spec fn report_line_text(place: nat, ranked: RankedView) -> Seq<char> {
    decimal_digits(place) + ". Path from '"@ + ranked.path.from.prop.value + "' to '"@
        + ranked.path.to.prop.value + "' length = "@ + decimal_text(ranked.length)
}

/// One line for each result, in the order of the ranking.
pub fn report_lines(ranked: &Vec<Ranked>) -> (lines: Vec<String>)
    ensures
        lines.len() == ranked.len(),
        forall|k: int|
            0 <= k < lines.len() ==> (#[trigger] lines[k])@ == report_line_text((k + 1) as nat, ranked[k]@),
{
    let mut lines: Vec<String> = Vec::new();
    let mut k: usize = 0;
    while k < ranked.len()
        invariant
            k <= ranked.len(),
            lines.len() == k,
            forall|m: int|
                0 <= m < k ==> (#[trigger] lines[m])@ == report_line_text((m + 1) as nat, ranked[m]@),
        decreases ranked.len() - k,
    {
        let result = &ranked[k];
        let mut line = unsigned_text((k + 1) as u64);
        line.append(". Path from '");
        line.append(result.path.from.prop.value.as_str());
        line.append("' to '");
        line.append(result.path.to.prop.value.as_str());
        line.append("' length = ");
        let length = signed_text(result.length);
        line.append(length.as_str());
        lines.push(line);
        k += 1;
    }
    lines
}

/// A ranking names each lookup at most once, so it is no longer than the
/// lookups are.
pub proof fn lemma_ranking_is_short(lengths: Seq<Option<i64>>, depth: i32, order: Seq<usize>)
    requires
        is_ranking(lengths, depth, order),
    ensures
        order.len() <= lengths.len(),
{
    assert(order.no_duplicates()) by {
        assert forall|k: int, l: int| 0 <= k < order.len() && 0 <= l < order.len() && k != l implies order[k]
            != order[l] by {
            if k < l {
                assert(ranks_before(lengths, order[k] as int, order[l] as int));
            } else {
                assert(ranks_before(lengths, order[l] as int, order[k] as int));
            }
        }
    }
    order.unique_seq_to_set();
    let bound: nat = if lengths.len() <= usize::MAX { lengths.len() } else { (usize::MAX + 1) as nat };
    let below = Set::new(|i: usize| i < bound);
    assert(below.finite() && below.len() == bound) by {
        lemma_indices_below(bound);
    }
    assert(order.to_set().subset_of(below)) by {
        assert forall|i: usize| order.to_set().contains(i) implies below.contains(i) by {
            let k = choose|k: int| 0 <= k < order.len() && order[k] == i;
            assert(resolved(lengths, depth, order[k] as int));
        }
    }
    vstd::set_lib::lemma_len_subset(order.to_set(), below);
}

/// Up to any place that the first ranking has, the second has the same
/// lookups at the same places.
proof fn lemma_rankings_agree(lengths: Seq<Option<i64>>, depth: i32, first: Seq<usize>, second: Seq<usize>, k: int)
    requires
        is_ranking(lengths, depth, first),
        is_ranking(lengths, depth, second),
        0 <= k <= first.len(),
    ensures
        k <= second.len(),
        forall|m: int| 0 <= m < k ==> first[m] == second[m],
    decreases k,
{
    if k > 0 {
        let n = k - 1;
        lemma_rankings_agree(lengths, depth, first, second, n);
        let x = first[n];
        assert(resolved(lengths, depth, x as int));
        let j = choose|j: int| 0 <= j < second.len() && #[trigger] second[j] == x;
        if j < n {
            assert(first[j] == second[j]);
            assert(ranks_before(lengths, first[j] as int, first[n] as int));
        }
        let y = second[n];
        assert(resolved(lengths, depth, y as int));
        let i = choose|i: int| 0 <= i < first.len() && #[trigger] first[i] == y;
        if i < n {
            assert(first[i] == second[i]);
            assert(ranks_before(lengths, second[i] as int, second[n] as int));
        }
        if j > n && i > n {
            assert(ranks_before(lengths, second[n] as int, second[j] as int));
            assert(ranks_before(lengths, first[n] as int, first[i] as int));
        }
        assert(x == y);
    }
}

/// The lookups and the depth settle the ranking: two rankings of the same
/// lookups are one.
pub proof fn lemma_ranking_unique(lengths: Seq<Option<i64>>, depth: i32, first: Seq<usize>, second: Seq<usize>)
    requires
        is_ranking(lengths, depth, first),
        is_ranking(lengths, depth, second),
    ensures
        first == second,
{
    lemma_rankings_agree(lengths, depth, first, second, first.len() as int);
    lemma_rankings_agree(lengths, depth, second, first, second.len() as int);
    assert(first =~= second);
}

/// The results of a sequence of results, in the same order.
pub open spec fn ranked_views(ranked: Seq<Ranked>) -> Seq<RankedView> {
    ranked.map_values(|result: Ranked| result@)
}

/// The requests, their answers and the depth settle what is reported and in
/// what order.
pub proof fn lemma_descending_unique(
    paths: Seq<PathView>,
    lengths: Seq<Option<i64>>,
    depth: i32,
    first: Seq<Ranked>,
    second: Seq<Ranked>,
)
    requires
        is_descending(paths, lengths, depth, first),
        is_descending(paths, lengths, depth, second),
    ensures
        ranked_views(first) == ranked_views(second),
{
    let order_1 = choose|order: Seq<usize>| #[trigger]
        is_ranking(lengths, depth, order) && follows(paths, lengths, order, first);
    let order_2 = choose|order: Seq<usize>| #[trigger]
        is_ranking(lengths, depth, order) && follows(paths, lengths, order, second);
    lemma_ranking_unique(lengths, depth, order_1, order_2);
    assert(ranked_views(first) =~= ranked_views(second));
}

/// In a ranking no path is longer than one before it, and of two paths of one
/// length the one asked for earlier comes first.
pub proof fn lemma_ranking_is_stable(lengths: Seq<Option<i64>>, depth: i32, order: Seq<usize>, k: int, l: int)
    requires
        is_ranking(lengths, depth, order),
        0 <= k < l < order.len(),
    ensures
        lengths[order[k] as int].unwrap() >= lengths[order[l] as int].unwrap(),
        lengths[order[k] as int].unwrap() == lengths[order[l] as int].unwrap() ==> order[k] < order[l],
{
    assert(ranks_before(lengths, order[k] as int, order[l] as int));
}

/// There are `n` indices below `n`.
proof fn lemma_indices_below(n: nat)
    requires
        n <= usize::MAX + 1,
    ensures
        Set::new(|i: usize| i < n).finite(),
        Set::new(|i: usize| i < n).len() == n,
    decreases n,
{
    let below = Set::new(|i: usize| i < n);
    if n == 0 {
        assert(below =~= Set::<usize>::empty());
    } else {
        lemma_indices_below((n - 1) as nat);
        let fewer = Set::new(|i: usize| i < (n - 1) as nat);
        assert(below =~= fewer.insert((n - 1) as usize));
    }
}

} // verus!
