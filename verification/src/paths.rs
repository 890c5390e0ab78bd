//! Path requests: pairs of vertices whose distance is to be measured.

use crate::decimal::{decimal_text, signed_text};
use crate::sampler::{
    available_pairs, is_selection, name_at, sample, slot_name, Draw, SampleError, SampleMode, Slot,
};
use vstd::prelude::*;

verus! {

/// A property of a vertex: its key and its value.
#[derive(Clone, Debug)]
pub struct Prop {
    pub key: String,
    pub value: String,
}

/// What identifies one vertex: its label and one of its properties.
#[derive(Clone, Debug)]
pub struct NodeParams {
    pub label: String,
    pub prop: Prop,
}

/// A request for the distance between two vertices.
#[derive(Clone, Debug)]
pub struct Path {
    pub from: NodeParams,
    pub to: NodeParams,
}

/// A [`Prop`] as character sequences.
pub struct PropView {
    pub key: Seq<char>,
    pub value: Seq<char>,
}

/// A [`NodeParams`] as character sequences.
pub struct NodeParamsView {
    pub label: Seq<char>,
    pub prop: PropView,
}

/// A [`Path`] as character sequences.
pub struct PathView {
    pub from: NodeParamsView,
    pub to: NodeParamsView,
}

impl View for Prop {
    type V = PropView;

    open spec fn view(&self) -> PropView {
        PropView { key: self.key@, value: self.value@ }
    }
}

impl View for NodeParams {
    type V = NodeParamsView;

    open spec fn view(&self) -> NodeParamsView {
        NodeParamsView { label: self.label@, prop: self.prop@ }
    }
}

impl View for Path {
    type V = PathView;

    open spec fn view(&self) -> PathView {
        PathView { from: self.from@, to: self.to@ }
    }
}

/// The requests of a sequence of paths, in the same order.
pub open spec fn views_of(paths: Seq<Path>) -> Seq<PathView> {
    paths.map_values(|path: Path| path@)
}

/// The vertex a slot points at: its label is that of the slot's pool, and it
/// is found by its name.
pub open spec fn endpoint(
    label_1: Seq<char>,
    label_2: Seq<char>,
    a: Seq<Seq<char>>,
    b: Seq<Seq<char>>,
    slot: Slot,
) -> NodeParamsView {
    NodeParamsView {
        label: if slot.from_first { label_1 } else { label_2 },
        prop: PropView { key: "name"@, value: slot_name(a, b, slot) },
    }
}

/// The request between the two vertices of a draw.
pub open spec fn request_of(
    label_1: Seq<char>,
    label_2: Seq<char>,
    a: Seq<Seq<char>>,
    b: Seq<Seq<char>>,
    draw: Draw,
) -> PathView {
    PathView {
        from: endpoint(label_1, label_2, a, b, draw.first),
        to: endpoint(label_1, label_2, a, b, draw.second),
    }
}

/// The two names of the draw are the same.
pub open spec fn is_self_path(a: Seq<Seq<char>>, b: Seq<Seq<char>>, draw: Draw) -> bool {
    slot_name(a, b, draw.first) == slot_name(a, b, draw.second)
}

/// The requests of the draws whose two names differ, in the order of the
/// draws.
pub open spec fn requests_of(
    label_1: Seq<char>,
    label_2: Seq<char>,
    a: Seq<Seq<char>>,
    b: Seq<Seq<char>>,
    draws: Seq<Draw>,
) -> Seq<PathView>
    decreases draws.len(),
{
    if draws.len() == 0 {
        Seq::empty()
    } else {
        let earlier = requests_of(label_1, label_2, a, b, draws.drop_last());
        if is_self_path(a, b, draws.last()) {
            earlier
        } else {
            earlier.push(request_of(label_1, label_2, a, b, draws.last()))
        }
    }
}

/// The query for the length of a shortest path between two vertices, over
/// relations of one kind and no more than `depth` of them.
pub open spec fn shortest_path_query_text(from: NodeParamsView, to: NodeParamsView, rel: Seq<char>, depth: int) -> Seq<
    char,
> {
    "MATCH (one:"@ + from.label + " {"@ + from.prop.key + ": \""@ + from.prop.value + "\"}) MATCH (two:"@
        + to.label + " {"@ + to.prop.key + ": \""@ + to.prop.value + "\"}), p = shortestPath((one) - [:"@
        + rel + "*.."@ + decimal_text(depth) + "] - (two)) RETURN LENGTH(p)"@
}

/// The query for the length of a shortest path between two vertices.
pub fn shortest_path_query(param1: &NodeParams, param2: &NodeParams, rel: &str, depth: i32) -> (query: String)
    ensures
        query@ == shortest_path_query_text(param1@, param2@, rel@, depth as int),
{
    let mut query = "MATCH (one:".to_owned();
    query.append(param1.label.as_str());
    query.append(" {");
    query.append(param1.prop.key.as_str());
    query.append(": \"");
    query.append(param1.prop.value.as_str());
    query.append("\"}) MATCH (two:");
    query.append(param2.label.as_str());
    query.append(" {");
    query.append(param2.prop.key.as_str());
    query.append(": \"");
    query.append(param2.prop.value.as_str());
    query.append("\"}), p = shortestPath((one) - [:");
    query.append(rel);
    query.append("*..");
    let digits = signed_text(depth as i64);
    query.append(digits.as_str());
    query.append("] - (two)) RETURN LENGTH(p)");
    query
}

impl Path {
    /// A request with the same two vertices.
    pub fn copy(&self) -> (path: Path)
        ensures
            path@ == self@,
    {
        Path {
            from: NodeParams {
                label: self.from.label.clone(),
                prop: Prop { key: self.from.prop.key.clone(), value: self.from.prop.value.clone() },
            },
            to: NodeParams {
                label: self.to.label.clone(),
                prop: Prop { key: self.to.prop.key.clone(), value: self.to.prop.value.clone() },
            },
        }
    }
}

/// How many draws are made for a count that may be negative.
pub open spec fn wanted(needed_count: i32) -> nat {
    if needed_count > 0 {
        needed_count as nat
    } else {
        0
    }
}

/// The paths are the requests of a selection of `wanted` draws, each end
/// from either pool.
pub open spec fn is_scramble(
    label_1: Seq<char>,
    label_2: Seq<char>,
    a: Seq<Seq<char>>,
    b: Seq<Seq<char>>,
    needed_count: i32,
    paths: Seq<Path>,
) -> bool {
    exists|draws: Seq<Draw>|
        {
            &&& #[trigger] is_selection(a, b, SampleMode::Mixed, draws)
            &&& draws.len() == wanted(needed_count)
            &&& views_of(paths) == requests_of(label_1, label_2, a, b, draws)
        }
}

/// Whether the pools hold as many pairs as are wanted.
pub open spec fn can_scramble(a: Seq<Seq<char>>, b: Seq<Seq<char>>, needed_count: i32) -> bool {
    wanted(needed_count) <= available_pairs(a, b, SampleMode::Mixed).len()
}

/// The vertex a valid slot points at.
fn endpoint_at(label1: &String, label2: &String, names1: &Vec<String>, names2: &Vec<String>, slot: Slot) -> (node:
    NodeParams)
    requires
        crate::sampler::slot_valid(names1.deep_view(), names2.deep_view(), slot),
    ensures
        node@ == endpoint(label1@, label2@, names1.deep_view(), names2.deep_view(), slot),
{
    let label = if slot.from_first { label1.clone() } else { label2.clone() };
    let value = name_at(names1, names2, slot).clone();
    NodeParams { label, prop: Prop { key: "name".to_owned(), value } }
}

/// Samples pairs of vertices from the two pools, each end from either pool,
/// and makes a request of every pair whose two names differ, in the order in
/// which the pairs were accepted.
pub fn scramble_paths(
    label1: String,
    label2: String,
    names1: &Vec<String>,
    names2: &Vec<String>,
    needed_count: i32,
) -> (result: Result<Vec<Path>, SampleError>)
    ensures
        available_pairs(names1.deep_view(), names2.deep_view(), SampleMode::Mixed).finite(),
        result is Ok <==> can_scramble(names1.deep_view(), names2.deep_view(), needed_count),
        match result {
            Ok(paths) => {
                &&& is_scramble(label1@, label2@, names1.deep_view(), names2.deep_view(), needed_count, paths@)
                &&& paths.len() <= wanted(needed_count)
                &&& forall|k: int|
                    0 <= k < paths.len() ==> (#[trigger] paths[k])@.from.prop.value != paths[k]@.to.prop.value
            },
            Err(error) => error == SampleError::InvalidSampleRequest,
        },
{
    let ghost a = names1.deep_view();
    let ghost b = names2.deep_view();
    let count: usize = if needed_count > 0 { needed_count as usize } else { 0 };
    let draws = match sample(names1, names2, count, SampleMode::Mixed) {
        Ok(draws) => draws,
        Err(error) => {
            return Err(error);
        },
    };
    let mut paths: Vec<Path> = Vec::new();
    let mut k: usize = 0;
    while k < draws.len()
        invariant
            k <= draws.len(),
            a == names1.deep_view(),
            b == names2.deep_view(),
            is_selection(a, b, SampleMode::Mixed, draws@),
            paths.len() <= k,
            views_of(paths@) == requests_of(label1@, label2@, a, b, draws@.take(k as int)),
            forall|m: int|
                0 <= m < paths.len() ==> (#[trigger] paths[m])@.from.prop.value != paths[m]@.to.prop.value,
        decreases draws.len() - k,
    {
        let draw = draws[k];
        let ghost earlier = views_of(paths@);
        proof {
            assert(draws@.take(k + 1).drop_last() == draws@.take(k as int));
            assert(draws@.take(k + 1).last() == draw);
        }
        let from_name = name_at(names1, names2, draw.first);
        let to_name = name_at(names1, names2, draw.second);
        if *from_name != *to_name {
            let from = endpoint_at(&label1, &label2, names1, names2, draw.first);
            let to = endpoint_at(&label1, &label2, names1, names2, draw.second);
            paths.push(Path { from, to });
            assert(views_of(paths@) == earlier.push(request_of(label1@, label2@, a, b, draw)));
        }
        k += 1;
    }
    assert(draws@.take(draws.len() as int) == draws@);
    assert(is_selection(a, b, SampleMode::Mixed, draws@));
    Ok(paths)
}

} // verus!
