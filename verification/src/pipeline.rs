//! The run as a whole: seed two labels, relate them, sample paths and rank
//! them. The pipeline decides what is asked of the store next; the caller
//! asks it and hands back what the store said.

use crate::edges::{can_connect, connect_nodes, is_edge_batch};
use crate::paths::{
    can_scramble, is_scramble, scramble_paths, shortest_path_query, shortest_path_query_text, views_of, Path,
};
use crate::ranking::{find_descending, is_descending, lengths_of, paths_of, Lookup, Ranked};
use crate::statements::{create_nodes_of_label, is_node_batch, names_query, names_query_text, REL};
use vstd::prelude::*;

verus! {

/// What a run is made with.
#[derive(Debug)]
pub struct Settings {
    pub first_label: String,
    pub second_label: String,
    /// How many vertices are created under each label.
    pub vertex_count: i32,
    /// How many pairs of vertices are sampled for measuring.
    pub path_count: i32,
    /// The kind of relation that measured paths run over.
    pub relation: String,
    /// The greatest number of relations in a measured path.
    pub max_depth: i32,
}

/// How far a run has come, with what it has learned that it still needs.
#[derive(Debug)]
pub enum Phase {
    Idle,
    SeedingFirst,
    SeedingSecond,
    Reading,
    Connecting { first: Vec<String>, second: Vec<String> },
    Measuring { paths: Vec<Path> },
    Finished,
}

/// What the caller reports to the pipeline.
#[derive(Debug)]
pub enum Event {
    /// The run is to start.
    Begin,
    /// The batch was written.
    Written,
    /// The names that the two queries returned.
    Names { first: Vec<String>, second: Vec<String> },
    /// For each query in turn the length it returned, or nothing where it
    /// returned none or failed.
    Lengths(Vec<Option<i64>>),
}

/// Why a run stopped short.
#[derive(Clone, Copy, Debug, PartialEq, Eq, Structural)]
pub enum PipelineError {
    /// The pools hold fewer pairs than the run needs.
    InvalidSampleRequest,
    /// The event does not answer what the pipeline asked for.
    UnexpectedEvent,
}

/// What the pipeline asks of the caller.
#[derive(Debug)]
pub enum Action {
    /// Write these statements as one batch; then report `Written`.
    Write(Vec<String>),
    /// Run these two queries, in any order or at once, and report the names
    /// of the vertices that each returns.
    ReadNames { first: String, second: String },
    /// Run each of these queries and report the lengths they return.
    Measure(Vec<String>),
    /// The run is over: these are its results.
    Finish(Vec<Ranked>),
    /// The run is over without results.
    Stop(PipelineError),
}

/// A run: its settings and its phase.
#[derive(Debug)]
pub struct Pipeline {
    pub settings: Settings,
    pub phase: Phase,
}

/// The queries for the lengths of the paths, in the order of the paths.
pub open spec fn is_measurement(paths: Seq<Path>, rel: Seq<char>, depth: i32, queries: Seq<String>) -> bool {
    &&& queries.len() == paths.len()
    &&& forall|k: int|
        0 <= k < queries.len() ==> (#[trigger] queries[k])@ == shortest_path_query_text(
            paths[k]@.from,
            paths[k]@.to,
            rel,
            depth as int,
        )
}

/// What one step of a run does: the phase it leaves the run in and what it
/// asks for, given the phase it found and the event.
pub open spec fn step_spec(before: Pipeline, event: Event, after: Pipeline, action: Action) -> bool {
    let settings = before.settings;
    &&& after.settings == settings
    &&& match (before.phase, event) {
        (Phase::Idle, Event::Begin) => {
            &&& after.phase is SeedingFirst
            &&& action matches Action::Write(batch)
            &&& is_node_batch(batch@, settings.vertex_count, settings.first_label@)
        },
        (Phase::SeedingFirst, Event::Written) => {
            &&& after.phase is SeedingSecond
            &&& action matches Action::Write(batch)
            &&& is_node_batch(batch@, settings.vertex_count, settings.second_label@)
        },
        (Phase::SeedingSecond, Event::Written) => {
            &&& after.phase is Reading
            &&& action matches Action::ReadNames { first, second }
            &&& first@ == names_query_text(settings.first_label@)
            &&& second@ == names_query_text(settings.second_label@)
        },
        (Phase::Reading, Event::Names { first, second }) => {
            if can_connect(first.deep_view(), second.deep_view()) {
                &&& after.phase == (Phase::Connecting { first, second })
                &&& action matches Action::Write(batch)
                &&& is_edge_batch(
                    settings.first_label@,
                    settings.second_label@,
                    first.deep_view(),
                    second.deep_view(),
                    batch@,
                )
            } else {
                &&& after.phase is Finished
                &&& action == Action::Stop(PipelineError::InvalidSampleRequest)
            }
        },
        (Phase::Connecting { first, second }, Event::Written) => {
            if can_scramble(first.deep_view(), second.deep_view(), settings.path_count) {
                &&& after.phase matches Phase::Measuring { paths }
                &&& is_scramble(
                    settings.first_label@,
                    settings.second_label@,
                    first.deep_view(),
                    second.deep_view(),
                    settings.path_count,
                    paths@,
                )
                &&& action matches Action::Measure(queries)
                &&& is_measurement(paths@, settings.relation@, settings.max_depth, queries@)
            } else {
                &&& after.phase is Finished
                &&& action == Action::Stop(PipelineError::InvalidSampleRequest)
            }
        },
        (Phase::Measuring { paths }, Event::Lengths(lengths)) => {
            &&& after.phase is Finished
            &&& if lengths.len() == paths.len() {
                &&& action matches Action::Finish(ranked)
                &&& is_descending(views_of(paths@), lengths@, settings.max_depth, ranked@)
            } else {
                action == Action::Stop(PipelineError::UnexpectedEvent)
            }
        },
        _ => {
            &&& after.phase is Finished
            &&& action == Action::Stop(PipelineError::UnexpectedEvent)
        },
    }
}

/// The query for the length of each path, in the order of the paths.
pub fn path_queries(paths: &Vec<Path>, rel: &str, depth: i32) -> (queries: Vec<String>)
    ensures
        is_measurement(paths@, rel@, depth, queries@),
{
    let mut queries: Vec<String> = Vec::new();
    let mut k: usize = 0;
    while k < paths.len()
        invariant
            k <= paths.len(),
            queries.len() == k,
            forall|m: int|
                0 <= m < k ==> (#[trigger] queries[m])@ == shortest_path_query_text(
                    paths[m]@.from,
                    paths[m]@.to,
                    rel@,
                    depth as int,
                ),
        decreases paths.len() - k,
    {
        queries.push(shortest_path_query(&paths[k].from, &paths[k].to, rel, depth));
        k += 1;
    }
    queries
}

/// Each path with the length that was found for it, where there is one
/// length for each path.
pub fn lookups_from(paths: &Vec<Path>, lengths: &Vec<Option<i64>>) -> (lookups: Option<Vec<Lookup>>)
    ensures
        lookups is Some <==> lengths.len() == paths.len(),
        lookups matches Some(lookups) ==> paths_of(lookups@) == views_of(paths@) && lengths_of(lookups@)
            == lengths@,
{
    if lengths.len() != paths.len() {
        return None;
    }
    let mut lookups: Vec<Lookup> = Vec::new();
    let mut k: usize = 0;
    while k < paths.len()
        invariant
            k <= paths.len(),
            lengths.len() == paths.len(),
            lookups.len() == k,
            forall|m: int| 0 <= m < k ==> (#[trigger] lookups[m]).path@ == paths[m]@,
            forall|m: int| 0 <= m < k ==> (#[trigger] lookups[m]).length == lengths[m],
        decreases paths.len() - k,
    {
        lookups.push(Lookup { path: paths[k].copy(), length: lengths[k] });
        k += 1;
    }
    assert(paths_of(lookups@) =~= views_of(paths@));
    assert(lengths_of(lookups@) =~= lengths@);
    Some(lookups)
}

impl Settings {
    /// Ten professors, ten students and twenty paths of at most ten
    /// relations.
    pub fn standard() -> (settings: Settings)
        ensures
            settings.first_label@ == "Professor"@,
            settings.second_label@ == "Student"@,
            settings.vertex_count == 10,
            settings.path_count == 20,
            settings.relation@ == REL@,
            settings.max_depth == 10,
    {
        Settings {
            first_label: "Professor".to_owned(),
            second_label: "Student".to_owned(),
            vertex_count: 10,
            path_count: 20,
            relation: REL.to_owned(),
            max_depth: 10,
        }
    }
}

impl Pipeline {
    /// A run that has not started.
    pub fn new(settings: Settings) -> (pipeline: Pipeline)
        ensures
            pipeline.settings == settings,
            pipeline.phase is Idle,
    {
        Pipeline { settings, phase: Phase::Idle }
    }

    /// Whether the run is over.
    pub fn is_finished(&self) -> (finished: bool)
        ensures
            finished == (self.phase is Finished),
    {
        match self.phase {
            Phase::Finished => true,
            _ => false,
        }
    }

    /// Takes the run one step on: from its phase and the event to its next
    /// phase and what the caller is to do. An event that does not answer the
    /// last action ends the run.
    pub fn step(self, event: Event) -> (next: (Pipeline, Action))
        ensures
            step_spec(self, event, next.0, next.1),
    {
        let Pipeline { settings, phase } = self;
        match (phase, event) {
            (Phase::Idle, Event::Begin) => {
                let batch = create_nodes_of_label(settings.vertex_count, settings.first_label.as_str());
                (Pipeline { settings, phase: Phase::SeedingFirst }, Action::Write(batch))
            },
            (Phase::SeedingFirst, Event::Written) => {
                let batch = create_nodes_of_label(settings.vertex_count, settings.second_label.as_str());
                (Pipeline { settings, phase: Phase::SeedingSecond }, Action::Write(batch))
            },
            (Phase::SeedingSecond, Event::Written) => {
                let first = names_query(settings.first_label.as_str());
                let second = names_query(settings.second_label.as_str());
                (Pipeline { settings, phase: Phase::Reading }, Action::ReadNames { first, second })
            },
            (Phase::Reading, Event::Names { first, second }) => {
                match connect_nodes(
                    settings.first_label.as_str(),
                    settings.second_label.as_str(),
                    &first,
                    &second,
                ) {
                    Ok(batch) => (
                        Pipeline { settings, phase: Phase::Connecting { first, second } },
                        Action::Write(batch),
                    ),
                    Err(_) => (
                        Pipeline { settings, phase: Phase::Finished },
                        Action::Stop(PipelineError::InvalidSampleRequest),
                    ),
                }
            },
            (Phase::Connecting { first, second }, Event::Written) => {
                match scramble_paths(
                    settings.first_label.clone(),
                    settings.second_label.clone(),
                    &first,
                    &second,
                    settings.path_count,
                ) {
                    Ok(paths) => {
                        let queries = path_queries(&paths, settings.relation.as_str(), settings.max_depth);
                        (Pipeline { settings, phase: Phase::Measuring { paths } }, Action::Measure(queries))
                    },
                    Err(_) => (
                        Pipeline { settings, phase: Phase::Finished },
                        Action::Stop(PipelineError::InvalidSampleRequest),
                    ),
                }
            },
            (Phase::Measuring { paths }, Event::Lengths(lengths)) => {
                match lookups_from(&paths, &lengths) {
                    Some(lookups) => {
                        let ranked = find_descending(&lookups, settings.max_depth);
                        (Pipeline { settings, phase: Phase::Finished }, Action::Finish(ranked))
                    },
                    None => (
                        Pipeline { settings, phase: Phase::Finished },
                        Action::Stop(PipelineError::UnexpectedEvent),
                    ),
                }
            },
            _ => (Pipeline { settings, phase: Phase::Finished }, Action::Stop(PipelineError::UnexpectedEvent)),
        }
    }
}

} // verus!
