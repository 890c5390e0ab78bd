//! Drawing distinct pairs of names from two pools.
//!
//! A draw names two slots, each an index into one of the two pools. A draw is
//! turned down when its two indices are equal, and when the pair of names it
//! stands for was accepted before.

use crate::random::{coin, index_below, rng_for_thread};
use rand::rngs::ThreadRng;
use vstd::prelude::*;

verus! {

/// How many draws a sample may make for each pair it was asked for, before it
/// turns to the pairs that are left in the order of their slots.
pub const ATTEMPTS_PER_PAIR: usize = 64;

/// How the pool of each slot is chosen.
#[derive(Clone, Copy, Debug, PartialEq, Eq, Structural)]
pub enum SampleMode {
    /// The first name comes from the first pool, the second from the second.
    Cross,
    /// Each of the two names comes from either pool.
    Mixed,
}

/// Why no sample was made.
#[derive(Clone, Copy, Debug, PartialEq, Eq, Structural)]
pub enum SampleError {
    /// More pairs were asked for than the pools hold distinct ones.
    InvalidSampleRequest,
}

/// One position in one of the two pools.
#[derive(Clone, Copy, Debug, PartialEq, Eq, Structural)]
pub struct Slot {
    /// Whether the position lies in the first pool.
    pub from_first: bool,
    pub index: usize,
}

/// A candidate pair: the slot of its first name and that of its second.
#[derive(Clone, Copy, Debug, PartialEq, Eq, Structural)]
pub struct Draw {
    pub first: Slot,
    pub second: Slot,
}

/// Two names in their order. Two pairs are the same where both their first
/// names and their second names are.
#[derive(Clone, Debug, PartialEq, Eq)]
pub struct Pair {
    pub first: String,
    pub second: String,
}

impl View for Pair {
    type V = (Seq<char>, Seq<char>);

    open spec fn view(&self) -> (Seq<char>, Seq<char>) {
        (self.first@, self.second@)
    }
}

/// The slot points at a name of its pool.
pub open spec fn slot_valid(a: Seq<Seq<char>>, b: Seq<Seq<char>>, slot: Slot) -> bool {
    slot.index < (if slot.from_first { a.len() } else { b.len() })
}

/// The name a slot points at.
pub open spec fn slot_name(a: Seq<Seq<char>>, b: Seq<Seq<char>>, slot: Slot) -> Seq<char> {
    if slot.from_first { a[slot.index as int] } else { b[slot.index as int] }
}

/// The pair of names a draw stands for.
pub open spec fn draw_names(a: Seq<Seq<char>>, b: Seq<Seq<char>>, draw: Draw) -> (Seq<char>, Seq<char>) {
    (slot_name(a, b, draw.first), slot_name(a, b, draw.second))
}

/// A draw that may be accepted: both slots point at names, in cross mode the
/// first into the first pool and the second into the second, and the two
/// indices differ.
pub open spec fn admissible(a: Seq<Seq<char>>, b: Seq<Seq<char>>, mode: SampleMode, draw: Draw) -> bool {
    &&& slot_valid(a, b, draw.first)
    &&& slot_valid(a, b, draw.second)
    &&& mode == SampleMode::Cross ==> draw.first.from_first && !draw.second.from_first
    &&& draw.first.index != draw.second.index
}

/// Some draw of `draws` stands for the same pair of names as `draw`.
pub open spec fn covered(a: Seq<Seq<char>>, b: Seq<Seq<char>>, draws: Seq<Draw>, draw: Draw) -> bool {
    exists|k: int|
        0 <= k < draws.len() && draw_names(a, b, #[trigger] draws[k]) == draw_names(a, b, draw)
}

/// Every draw is admissible, and no two stand for the same pair of names.
pub open spec fn is_selection(a: Seq<Seq<char>>, b: Seq<Seq<char>>, mode: SampleMode, draws: Seq<Draw>) -> bool {
    &&& forall|k: int| 0 <= k < draws.len() ==> admissible(a, b, mode, #[trigger] draws[k])
    &&& forall|k: int, l: int|
        0 <= k < l < draws.len() ==> draw_names(a, b, #[trigger] draws[k]) != draw_names(
            a,
            b,
            #[trigger] draws[l],
        )
}

/// The pairs of names that admissible draws stand for.
pub open spec fn available_pairs(a: Seq<Seq<char>>, b: Seq<Seq<char>>, mode: SampleMode) -> Set<(Seq<char>, Seq<char>)> {
    Set::new(
        |pair: (Seq<char>, Seq<char>)|
            exists|draw: Draw| #[trigger] admissible(a, b, mode, draw) && draw_names(a, b, draw) == pair,
    )
}

/// The name that a valid slot points at.
pub fn name_at<'a>(pool_a: &'a Vec<String>, pool_b: &'a Vec<String>, slot: Slot) -> (name: &'a String)
    requires
        slot_valid(pool_a.deep_view(), pool_b.deep_view(), slot),
    ensures
        name@ == slot_name(pool_a.deep_view(), pool_b.deep_view(), slot),
{
    if slot.from_first {
        &pool_a[slot.index]
    } else {
        &pool_b[slot.index]
    }
}

/// The pair of names that a draw with valid slots stands for.
pub fn pair_of(pool_a: &Vec<String>, pool_b: &Vec<String>, draw: Draw) -> (pair: Pair)
    requires
        slot_valid(pool_a.deep_view(), pool_b.deep_view(), draw.first),
        slot_valid(pool_a.deep_view(), pool_b.deep_view(), draw.second),
    ensures
        pair@ == draw_names(pool_a.deep_view(), pool_b.deep_view(), draw),
{
    Pair { first: name_at(pool_a, pool_b, draw.first).clone(), second: name_at(pool_a, pool_b, draw.second).clone() }
}

/// Whether the slot points at a name of its pool.
pub fn slot_in_pool(pool_a: &Vec<String>, pool_b: &Vec<String>, slot: Slot) -> (valid: bool)
    ensures
        valid == slot_valid(pool_a.deep_view(), pool_b.deep_view(), slot),
{
    if slot.from_first {
        slot.index < pool_a.len()
    } else {
        slot.index < pool_b.len()
    }
}

/// Whether the draw may be accepted at all, whatever was accepted before.
pub fn admits(pool_a: &Vec<String>, pool_b: &Vec<String>, mode: SampleMode, draw: Draw) -> (ok: bool)
    ensures
        ok == admissible(pool_a.deep_view(), pool_b.deep_view(), mode, draw),
{
    let placed = match mode {
        SampleMode::Cross => draw.first.from_first && !draw.second.from_first,
        SampleMode::Mixed => true,
    };
    slot_in_pool(pool_a, pool_b, draw.first) && slot_in_pool(pool_a, pool_b, draw.second) && placed
        && draw.first.index != draw.second.index
}

/// Whether the pair of names of `draw` is among those of `accepted`.
fn seen(pool_a: &Vec<String>, pool_b: &Vec<String>, accepted: &Vec<Draw>, draw: Draw) -> (found: bool)
    requires
        forall|k: int|
            0 <= k < accepted.len() ==> slot_valid(
                pool_a.deep_view(),
                pool_b.deep_view(),
                (#[trigger] accepted[k]).first,
            ) && slot_valid(pool_a.deep_view(), pool_b.deep_view(), accepted[k].second),
        slot_valid(pool_a.deep_view(), pool_b.deep_view(), draw.first),
        slot_valid(pool_a.deep_view(), pool_b.deep_view(), draw.second),
    ensures
        found == covered(pool_a.deep_view(), pool_b.deep_view(), accepted@, draw),
{
    let first = name_at(pool_a, pool_b, draw.first);
    let second = name_at(pool_a, pool_b, draw.second);
    let mut k: usize = 0;
    while k < accepted.len()
        invariant
            k <= accepted.len(),
            first@ == slot_name(pool_a.deep_view(), pool_b.deep_view(), draw.first),
            second@ == slot_name(pool_a.deep_view(), pool_b.deep_view(), draw.second),
            forall|m: int|
                0 <= m < accepted.len() ==> slot_valid(
                    pool_a.deep_view(),
                    pool_b.deep_view(),
                    (#[trigger] accepted[m]).first,
                ) && slot_valid(pool_a.deep_view(), pool_b.deep_view(), accepted[m].second),
            forall|m: int|
                0 <= m < k ==> draw_names(pool_a.deep_view(), pool_b.deep_view(), #[trigger] accepted[m])
                    != draw_names(pool_a.deep_view(), pool_b.deep_view(), draw),
        decreases accepted.len() - k,
    {
        let other = accepted[k];
        if *name_at(pool_a, pool_b, other.first) == *first && *name_at(pool_a, pool_b, other.second)
            == *second {
            return true;
        }
        k += 1;
    }
    false
}

/// `longer` starts with the draws of `shorter`, in the same order.
pub open spec fn extends(shorter: Seq<Draw>, longer: Seq<Draw>) -> bool {
    &&& shorter.len() <= longer.len()
    &&& forall|k: int| 0 <= k < shorter.len() ==> longer[k] == #[trigger] shorter[k]
}

/// Every admissible draw of the block given by the two pools is covered.
pub open spec fn block_covered(
    a: Seq<Seq<char>>,
    b: Seq<Seq<char>>,
    mode: SampleMode,
    draws: Seq<Draw>,
    first_from: bool,
    second_from: bool,
) -> bool {
    forall|draw: Draw|
        #[trigger] admissible(a, b, mode, draw) && draw.first.from_first == first_from
            && draw.second.from_first == second_from ==> covered(a, b, draws, draw)
}

/// What is covered stays covered when more draws follow.
pub proof fn lemma_extends_keeps_covered(
    a: Seq<Seq<char>>,
    b: Seq<Seq<char>>,
    shorter: Seq<Draw>,
    longer: Seq<Draw>,
    draw: Draw,
)
    requires
        extends(shorter, longer),
        covered(a, b, shorter, draw),
    ensures
        covered(a, b, longer, draw),
{
    let k = choose|k: int|
        0 <= k < shorter.len() && draw_names(a, b, #[trigger] shorter[k]) == draw_names(a, b, draw);
    assert(longer[k] == shorter[k]);
}

/// A selection that covers every admissible draw: it holds one draw for each
/// pair of names that an admissible draw stands for.
pub open spec fn is_complete(a: Seq<Seq<char>>, b: Seq<Seq<char>>, mode: SampleMode, draws: Seq<Draw>) -> bool {
    &&& is_selection(a, b, mode, draws)
    &&& forall|draw: Draw| #[trigger] admissible(a, b, mode, draw) ==> covered(a, b, draws, draw)
}

/// The names of a sequence of draws, in the same order.
pub open spec fn names_of(a: Seq<Seq<char>>, b: Seq<Seq<char>>, draws: Seq<Draw>) -> Seq<(Seq<char>, Seq<char>)> {
    draws.map_values(|draw: Draw| draw_names(a, b, draw))
}

/// Draws with different names, all of them covered by other draws, are no
/// more than those.
pub proof fn lemma_cover_bounds(a: Seq<Seq<char>>, b: Seq<Seq<char>>, covering: Seq<Draw>, distinct: Seq<Draw>)
    requires
        forall|k: int, l: int|
            0 <= k < l < distinct.len() ==> draw_names(a, b, #[trigger] distinct[k]) != draw_names(
                a,
                b,
                #[trigger] distinct[l],
            ),
        forall|k: int| 0 <= k < distinct.len() ==> covered(a, b, covering, #[trigger] distinct[k]),
    ensures
        distinct.len() <= covering.len(),
{
    let inner = names_of(a, b, distinct);
    let outer = names_of(a, b, covering);
    assert(inner.no_duplicates());
    inner.unique_seq_to_set();
    outer.lemma_cardinality_of_set();
    vstd::seq_lib::seq_to_set_is_finite(outer);
    assert(inner.to_set().subset_of(outer.to_set())) by {
        assert forall|pair: (Seq<char>, Seq<char>)| inner.to_set().contains(pair) implies outer.to_set().contains(
            pair,
        ) by {
            let k = choose|k: int| 0 <= k < inner.len() && inner[k] == pair;
            assert(covered(a, b, covering, distinct[k]));
            let m = choose|m: int|
                0 <= m < covering.len() && draw_names(a, b, #[trigger] covering[m]) == draw_names(
                    a,
                    b,
                    distinct[k],
                );
            assert(outer[m] == pair);
        }
    }
    vstd::set_lib::lemma_len_subset(inner.to_set(), outer.to_set());
}

/// A selection that covers every admissible draw has one draw for each
/// available pair of names.
pub proof fn lemma_complete_selection_counts(a: Seq<Seq<char>>, b: Seq<Seq<char>>, mode: SampleMode, draws: Seq<Draw>)
    requires
        is_complete(a, b, mode, draws),
    ensures
        available_pairs(a, b, mode).finite(),
        available_pairs(a, b, mode).len() == draws.len(),
{
    let names = names_of(a, b, draws);
    assert(names.no_duplicates());
    names.unique_seq_to_set();
    vstd::seq_lib::seq_to_set_is_finite(names);
    assert(names.to_set() =~= available_pairs(a, b, mode)) by {
        assert forall|pair: (Seq<char>, Seq<char>)| names.to_set().contains(pair) implies available_pairs(
            a,
            b,
            mode,
        ).contains(pair) by {
            let k = choose|k: int| 0 <= k < names.len() && names[k] == pair;
            assert(admissible(a, b, mode, draws[k]));
        }
        assert forall|pair: (Seq<char>, Seq<char>)| available_pairs(a, b, mode).contains(pair) implies names.to_set().contains(
            pair,
        ) by {
            let draw = choose|draw: Draw| #[trigger]
                admissible(a, b, mode, draw) && draw_names(a, b, draw) == pair;
            assert(covered(a, b, draws, draw));
            let k = choose|k: int|
                0 <= k < draws.len() && draw_names(a, b, #[trigger] draws[k]) == draw_names(a, b, draw);
            assert(names[k] == pair);
        }
    }
}

/// The draws accepted so far from two pools, with the rules that admit more.
pub struct PairSampler<'a> {
    pool_a: &'a Vec<String>,
    pool_b: &'a Vec<String>,
    mode: SampleMode,
    accepted: Vec<Draw>,
}

impl<'a> PairSampler<'a> {
    /// The names of the first pool.
    pub closed spec fn first_pool(self) -> Seq<Seq<char>> {
        self.pool_a.deep_view()
    }

    /// The names of the second pool.
    pub closed spec fn second_pool(self) -> Seq<Seq<char>> {
        self.pool_b.deep_view()
    }

    pub closed spec fn mode(self) -> SampleMode {
        self.mode
    }

    /// The accepted draws, in the order of their acceptance.
    pub closed spec fn accepted(self) -> Seq<Draw> {
        self.accepted@
    }

    /// The three things that no method changes are the same in both.
    pub open spec fn same_pools(self, other: Self) -> bool {
        &&& self.first_pool() == other.first_pool()
        &&& self.second_pool() == other.second_pool()
        &&& self.mode() == other.mode()
    }

    /// What every sampler holds: its accepted draws are admissible and
    /// stand for pairs of names that differ from one another.
    pub open spec fn wf(self) -> bool {
        is_selection(self.first_pool(), self.second_pool(), self.mode(), self.accepted())
    }

    /// A sampler that has accepted nothing yet.
    pub fn new(pool_a: &'a Vec<String>, pool_b: &'a Vec<String>, mode: SampleMode) -> (sampler: Self)
        ensures
            sampler.first_pool() == pool_a.deep_view(),
            sampler.second_pool() == pool_b.deep_view(),
            sampler.mode() == mode,
            sampler.accepted() == Seq::<Draw>::empty(),
            sampler.wf(),
    {
        PairSampler { pool_a, pool_b, mode, accepted: Vec::new() }
    }

    /// How many draws were accepted.
    pub fn len(&self) -> (n: usize)
        ensures
            n == self.accepted().len(),
    {
        self.accepted.len()
    }

    /// Accepts the draw unless a rule turns it down: first the rules on the
    /// draw alone, then the one on pairs accepted before.
    pub fn offer(&mut self, draw: Draw) -> (taken: bool)
        requires
            old(self).wf(),
        ensures
            final(self).wf(),
            final(self).same_pools(*old(self)),
            taken == (admissible(old(self).first_pool(), old(self).second_pool(), old(self).mode(), draw)
                && !covered(old(self).first_pool(), old(self).second_pool(), old(self).accepted(), draw)),
            final(self).accepted() == if taken {
                old(self).accepted().push(draw)
            } else {
                old(self).accepted()
            },
    {
        if !admits(self.pool_a, self.pool_b, self.mode, draw) {
            return false;
        }
        if seen(self.pool_a, self.pool_b, &self.accepted, draw) {
            return false;
        }
        self.accepted.push(draw);
        true
    }

    /// Draws a candidate: the pool of each slot as the mode has it, in mixed
    /// mode by the toss of a coin, then an index into each of the two pools.
    /// Nothing is drawn where one of the pools chosen is empty.
    pub fn draw(&self, rng: &mut ThreadRng) -> (drawn: Option<Draw>)
        ensures
            drawn matches Some(draw) ==> {
                &&& slot_valid(self.first_pool(), self.second_pool(), draw.first)
                &&& slot_valid(self.first_pool(), self.second_pool(), draw.second)
                &&& self.mode() == SampleMode::Cross ==> draw.first.from_first && !draw.second.from_first
            },
            self.first_pool().len() > 0 && self.second_pool().len() > 0 ==> drawn is Some,
            self.first_pool().len() == 0 && self.second_pool().len() == 0 ==> drawn is None,
            self.mode() == SampleMode::Cross ==> (drawn is None <==> self.first_pool().len() == 0
                || self.second_pool().len() == 0),
    {
        let (first_from, second_from) = match self.mode {
            SampleMode::Cross => (true, false),
            SampleMode::Mixed => {
                let first_from = coin(rng);
                let second_from = coin(rng);
                (first_from, second_from)
            },
        };
        let first_len = if first_from { self.pool_a.len() } else { self.pool_b.len() };
        let second_len = if second_from { self.pool_a.len() } else { self.pool_b.len() };
        if first_len == 0 || second_len == 0 {
            return None;
        }
        let first_index = index_below(rng, first_len);
        let second_index = index_below(rng, second_len);
        Some(
            Draw {
                first: Slot { from_first: first_from, index: first_index },
                second: Slot { from_first: second_from, index: second_index },
            },
        )
    }

    /// Offers every draw whose first slot lies in one given pool and whose
    /// second slot lies in another, in the order of their indices.
    fn offer_block(&mut self, first_from: bool, second_from: bool)
        requires
            old(self).wf(),
        ensures
            final(self).wf(),
            final(self).same_pools(*old(self)),
            extends(old(self).accepted(), final(self).accepted()),
            block_covered(
                final(self).first_pool(),
                final(self).second_pool(),
                final(self).mode(),
                final(self).accepted(),
                first_from,
                second_from,
            ),
    {
        let first_len = if first_from { self.pool_a.len() } else { self.pool_b.len() };
        let second_len = if second_from { self.pool_a.len() } else { self.pool_b.len() };
        let ghost a = self.first_pool();
        let ghost b = self.second_pool();
        let ghost mode = self.mode();
        let ghost start = self.accepted();
        let mut i: usize = 0;
        while i < first_len
            invariant
                i <= first_len,
                first_len == (if first_from { a.len() } else { b.len() }),
                second_len == (if second_from { a.len() } else { b.len() }),
                self.wf(),
                self.first_pool() == a,
                self.second_pool() == b,
                self.mode() == mode,
                extends(start, self.accepted()),
                forall|draw: Draw|
                    #[trigger] admissible(a, b, mode, draw) && draw.first.from_first == first_from
                        && draw.second.from_first == second_from && draw.first.index < i ==> covered(
                        a,
                        b,
                        self.accepted(),
                        draw,
                    ),
            decreases first_len - i,
        {
            let mut j: usize = 0;
            while j < second_len
                invariant
                    i < first_len,
                    j <= second_len,
                    first_len == (if first_from { a.len() } else { b.len() }),
                    second_len == (if second_from { a.len() } else { b.len() }),
                    self.wf(),
                    self.first_pool() == a,
                    self.second_pool() == b,
                    self.mode() == mode,
                    extends(start, self.accepted()),
                    forall|draw: Draw|
                        #[trigger] admissible(a, b, mode, draw) && draw.first.from_first == first_from
                            && draw.second.from_first == second_from && (draw.first.index < i || (
                        draw.first.index == i && draw.second.index < j)) ==> covered(
                            a,
                            b,
                            self.accepted(),
                            draw,
                        ),
                decreases second_len - j,
            {
                let draw = Draw {
                    first: Slot { from_first: first_from, index: i },
                    second: Slot { from_first: second_from, index: j },
                };
                let ghost before = self.accepted();
                let taken = self.offer(draw);
                proof {
                    let after = self.accepted();
                    assert(extends(before, after));
                    assert forall|other: Draw|
                        #[trigger] admissible(a, b, mode, other) && other.first.from_first == first_from
                            && other.second.from_first == second_from && (other.first.index < i || (
                        other.first.index == i && other.second.index < j + 1)) implies covered(
                        a,
                        b,
                        after,
                        other,
                    ) by {
                        if other.first.index == i && other.second.index == j {
                            assert(other == draw);
                            if taken {
                                assert(after[before.len() as int] == draw);
                            } else {
                                lemma_extends_keeps_covered(a, b, before, after, other);
                            }
                        } else {
                            lemma_extends_keeps_covered(a, b, before, after, other);
                        }
                    }
                }
                j += 1;
            }
            i += 1;
        }
    }

    /// The accepted draws, in the order of their acceptance.
    pub fn into_draws(self) -> (draws: Vec<Draw>)
        ensures
            draws@ == self.accepted(),
    {
        self.accepted
    }
}

/// One draw for each pair of names that the pools hold under the mode, in the
/// order of the slots: by the pool and index of the first name, then by those
/// of the second.
pub fn find_possible_relations(pool_a: &Vec<String>, pool_b: &Vec<String>, mode: SampleMode) -> (possible: Vec<Draw>)
    ensures
        is_complete(pool_a.deep_view(), pool_b.deep_view(), mode, possible@),
        available_pairs(pool_a.deep_view(), pool_b.deep_view(), mode).finite(),
        possible.len() == available_pairs(pool_a.deep_view(), pool_b.deep_view(), mode).len(),
{
    let ghost a = pool_a.deep_view();
    let ghost b = pool_b.deep_view();
    let mut sampler = PairSampler::new(pool_a, pool_b, mode);
    sampler.offer_block(true, false);
    let ghost crossed = sampler.accepted();
    match mode {
        SampleMode::Cross => {},
        SampleMode::Mixed => {
            sampler.offer_block(true, true);
            let ghost second = sampler.accepted();
            sampler.offer_block(false, true);
            let ghost third = sampler.accepted();
            sampler.offer_block(false, false);
            proof {
                let last = sampler.accepted();
                assert forall|draw: Draw| #[trigger] admissible(a, b, mode, draw) implies covered(
                    a,
                    b,
                    last,
                    draw,
                ) by {
                    if draw.first.from_first && !draw.second.from_first {
                        lemma_extends_keeps_covered(a, b, crossed, second, draw);
                        lemma_extends_keeps_covered(a, b, second, third, draw);
                        lemma_extends_keeps_covered(a, b, third, last, draw);
                    } else if draw.first.from_first {
                        lemma_extends_keeps_covered(a, b, second, third, draw);
                        lemma_extends_keeps_covered(a, b, third, last, draw);
                    } else if draw.second.from_first {
                        lemma_extends_keeps_covered(a, b, third, last, draw);
                    }
                }
            }
        },
    }
    let possible = sampler.into_draws();
    proof {
        lemma_complete_selection_counts(a, b, mode, possible@);
    }
    possible
}

/// Draws `count` of the possible pairs of names.
///
/// Candidates are drawn at random and offered to a sampler until `count` of
/// them are accepted. A run of bad luck ends after `ATTEMPTS_PER_PAIR` draws
/// for each pair asked for: what is still missing then is taken from the
/// possible pairs in the order of their slots.
pub(crate) fn sample_among(
    pool_a: &Vec<String>,
    pool_b: &Vec<String>,
    possible: &Vec<Draw>,
    count: usize,
    mode: SampleMode,
) -> (draws: Vec<Draw>)
    requires
        is_complete(pool_a.deep_view(), pool_b.deep_view(), mode, possible@),
        count <= possible.len(),
    ensures
        draws.len() == count,
        is_selection(pool_a.deep_view(), pool_b.deep_view(), mode, draws@),
{
    let ghost a = pool_a.deep_view();
    let ghost b = pool_b.deep_view();
    let mut sampler = PairSampler::new(pool_a, pool_b, mode);
    let mut rng = rng_for_thread();
    let mut attempts = match count.checked_mul(ATTEMPTS_PER_PAIR) {
        Some(product) => product,
        None => usize::MAX,
    };
    while sampler.len() < count && attempts > 0
        invariant
            sampler.wf(),
            sampler.first_pool() == a,
            sampler.second_pool() == b,
            sampler.mode() == mode,
            sampler.accepted().len() <= count,
        decreases attempts,
    {
        attempts -= 1;
        if let Some(draw) = sampler.draw(&mut rng) {
            sampler.offer(draw);
        }
    }
    let mut k: usize = 0;
    while k < possible.len() && sampler.len() < count
        invariant
            k <= possible.len(),
            sampler.wf(),
            sampler.first_pool() == a,
            sampler.second_pool() == b,
            sampler.mode() == mode,
            sampler.accepted().len() <= count,
            is_selection(a, b, mode, possible@),
            forall|m: int| 0 <= m < k ==> covered(a, b, sampler.accepted(), #[trigger] possible[m]),
        decreases possible.len() - k,
    {
        let ghost before = sampler.accepted();
        let taken = sampler.offer(possible[k]);
        proof {
            let after = sampler.accepted();
            assert(extends(before, after));
            assert forall|m: int| 0 <= m < k + 1 implies covered(a, b, after, #[trigger] possible[m]) by {
                if m == k {
                    if taken {
                        assert(after[before.len() as int] == possible[m]);
                    } else {
                        lemma_extends_keeps_covered(a, b, before, after, possible[m]);
                    }
                } else {
                    lemma_extends_keeps_covered(a, b, before, after, possible[m]);
                }
            }
        }
        k += 1;
    }
    proof {
        if sampler.accepted().len() < count {
            lemma_cover_bounds(a, b, sampler.accepted(), possible@);
        }
    }
    sampler.into_draws()
}

/// Draws `count` pairs of names that differ from one another, or says that
/// the pools do not hold that many. Each pair is that of a draw with two
/// different indices.
pub fn sample(pool_a: &Vec<String>, pool_b: &Vec<String>, count: usize, mode: SampleMode) -> (result: Result<
    Vec<Draw>,
    SampleError,
>)
    ensures
        available_pairs(pool_a.deep_view(), pool_b.deep_view(), mode).finite(),
        match result {
            Ok(draws) => {
                &&& draws.len() == count
                &&& count <= available_pairs(pool_a.deep_view(), pool_b.deep_view(), mode).len()
                &&& is_selection(pool_a.deep_view(), pool_b.deep_view(), mode, draws@)
            },
            Err(error) => {
                &&& error == SampleError::InvalidSampleRequest
                &&& count > available_pairs(pool_a.deep_view(), pool_b.deep_view(), mode).len()
            },
        },
{
    let possible = find_possible_relations(pool_a, pool_b, mode);
    if count > possible.len() {
        return Err(SampleError::InvalidSampleRequest);
    }
    Ok(sample_among(pool_a, pool_b, &possible, count, mode))
}

} // verus!
