//! Choosing the relations that are created between two labels.

use crate::sampler::{
    available_pairs, find_possible_relations, is_selection, name_at, sample_among, slot_name, Draw,
    SampleError, SampleMode,
};
use crate::statements::{edge_statement, edge_statement_text};
use vstd::prelude::*;

verus! {

/// How many relations are created for a first label of `first_count`
/// vertices: twice the sum of that count with itself.
pub open spec fn needed_relation_count(first_count: nat) -> nat {
    (first_count + first_count) * 2
}

/// The statement that creates the relation a draw stands for.
pub open spec fn edge_of(
    label_1: Seq<char>,
    label_2: Seq<char>,
    a: Seq<Seq<char>>,
    b: Seq<Seq<char>>,
    draw: Draw,
) -> Seq<char> {
    edge_statement_text(label_1, label_2, slot_name(a, b, draw.first), slot_name(a, b, draw.second))
}

/// The batch relates `needed_relation_count` pairs of names, each a name of
/// the first pool with a name of the second at another index, and no pair
/// twice.
pub open spec fn is_edge_batch(
    label_1: Seq<char>,
    label_2: Seq<char>,
    a: Seq<Seq<char>>,
    b: Seq<Seq<char>>,
    batch: Seq<String>,
) -> bool {
    exists|draws: Seq<Draw>|
        {
            &&& #[trigger] is_selection(a, b, SampleMode::Cross, draws)
            &&& draws.len() == needed_relation_count(a.len())
            &&& batch.len() == draws.len()
            &&& forall|k: int|
                0 <= k < batch.len() ==> (#[trigger] batch[k])@ == edge_of(label_1, label_2, a, b, draws[k])
        }
}

/// Whether the pools hold as many pairs as are needed.
pub open spec fn can_connect(a: Seq<Seq<char>>, b: Seq<Seq<char>>) -> bool {
    needed_relation_count(a.len()) <= available_pairs(a, b, SampleMode::Cross).len()
}

/// The statements that relate vertices of the first label to vertices of the
/// second: as many as `needed_relation_count` asks for, each from a name of
/// the first pool to a name of the second, no two for the same pair of names.
/// Where the pools do not hold that many pairs, no statement is made.
pub fn connect_nodes(label_1: &str, label_2: &str, names_1: &Vec<String>, names_2: &Vec<String>) -> (result:
    Result<Vec<String>, SampleError>)
    ensures
        available_pairs(names_1.deep_view(), names_2.deep_view(), SampleMode::Cross).finite(),
        result is Ok <==> can_connect(names_1.deep_view(), names_2.deep_view()),
        match result {
            Ok(queries) => is_edge_batch(label_1@, label_2@, names_1.deep_view(), names_2.deep_view(), queries@),
            Err(error) => error == SampleError::InvalidSampleRequest,
        },
{
    let ghost a = names_1.deep_view();
    let ghost b = names_2.deep_view();
    let possible = find_possible_relations(names_1, names_2, SampleMode::Cross);
    let needed = match names_1.len().checked_add(names_1.len()) {
        Some(sum) => sum.checked_mul(2),
        None => None,
    };
    let draws = match needed {
        Some(needed) => {
            if needed > possible.len() {
                return Err(SampleError::InvalidSampleRequest);
            }
            sample_among(names_1, names_2, &possible, needed, SampleMode::Cross)
        },
        None => {
            return Err(SampleError::InvalidSampleRequest);
        },
    };
    let mut queries: Vec<String> = Vec::new();
    let mut k: usize = 0;
    while k < draws.len()
        invariant
            k <= draws.len(),
            a == names_1.deep_view(),
            b == names_2.deep_view(),
            is_selection(a, b, SampleMode::Cross, draws@),
            queries.len() == k,
            forall|m: int|
                0 <= m < k ==> (#[trigger] queries[m])@ == edge_of(label_1@, label_2@, a, b, draws[m]),
        decreases draws.len() - k,
    {
        let draw = draws[k];
        let first = name_at(names_1, names_2, draw.first);
        let second = name_at(names_1, names_2, draw.second);
        queries.push(edge_statement(label_1, label_2, first.as_str(), second.as_str()));
        k += 1;
    }
    assert(is_selection(a, b, SampleMode::Cross, draws@));
    Ok(queries)
}

} // verus!
