use graph_rank::paths::{NodeParams, Path, Prop};
use graph_rank::pipeline::{lookups_from, path_queries, Action, Event, Phase, Pipeline, PipelineError, Settings};
use graph_rank::ranking::{report_lines, Ranked};
use graph_rank::statements::delete_statement;

/// A store in memory that understands the statements of the library.
struct FakeStore {
    vertices: Vec<(String, String)>,
    edges: Vec<(String, String)>,
    batches: usize,
}

fn quoted(text: &str) -> Vec<String> {
    text.split('"').skip(1).step_by(2).map(|s| s.to_string()).collect()
}

fn label_after(text: &str, marker: &str) -> String {
    let start = text.find(marker).unwrap() + marker.len();
    text[start..].chars().take_while(|c| c.is_alphanumeric() || *c == '_').collect()
}

impl FakeStore {
    fn new() -> Self {
        FakeStore { vertices: Vec::new(), edges: Vec::new(), batches: 0 }
    }

    fn write(&mut self, batch: &Vec<String>) {
        self.batches += 1;
        for statement in batch {
            if statement.starts_with("CREATE (n:") {
                self.vertices.push((label_after(statement, "(n:"), quoted(statement)[0].clone()));
            } else if statement.starts_with("MATCH (one:") {
                let names = quoted(statement);
                assert!(self.vertices.contains(&(label_after(statement, "(one:"), names[0].clone())));
                assert!(self.vertices.contains(&(label_after(statement, "(two:"), names[1].clone())));
                self.edges.push((names[0].clone(), names[1].clone()));
            } else {
                assert_eq!(*statement, delete_statement());
                self.vertices.clear();
                self.edges.clear();
            }
        }
    }

    fn names(&self, query: &str) -> Vec<String> {
        let label = label_after(query, "(n:");
        self.vertices.iter().filter(|v| v.0 == label).map(|v| v.1.clone()).collect()
    }

    fn length(&self, query: &str) -> Option<i64> {
        let names = quoted(query);
        let depth_text = &query[query.find("*..").unwrap() + 3..query.find("] - (two)").unwrap()];
        let depth: i64 = depth_text.parse().unwrap();
        let mut reached = vec![names[0].clone()];
        let mut frontier = vec![names[0].clone()];
        let mut hops = 0;
        while !frontier.is_empty() {
            if frontier.contains(&names[1]) {
                return Some(hops);
            }
            if hops == depth {
                return None;
            }
            let mut next = Vec::new();
            for (one, two) in &self.edges {
                for (here, there) in [(one, two), (two, one)] {
                    if frontier.contains(here) && !reached.contains(there) {
                        reached.push(there.clone());
                        next.push(there.clone());
                    }
                }
            }
            frontier = next;
            hops += 1;
        }
        None
    }
}

fn settings(first: &str, second: &str, vertices: i32, paths: i32) -> Settings {
    Settings {
        first_label: first.to_string(),
        second_label: second.to_string(),
        vertex_count: vertices,
        path_count: paths,
        relation: "RELATES".to_string(),
        max_depth: 10,
    }
}

/// Runs the pipeline against the store and gives back its last action.
fn run(store: &mut FakeStore, settings: Settings) -> (Pipeline, Action, Vec<String>) {
    let mut pipeline = Pipeline::new(settings);
    let mut event = Event::Begin;
    let mut queries = Vec::new();
    for _ in 0..20 {
        let (next, action) = pipeline.step(event);
        pipeline = next;
        event = match action {
            Action::Write(batch) => {
                store.write(&batch);
                Event::Written
            }
            Action::ReadNames { first, second } => {
                Event::Names { first: store.names(&first), second: store.names(&second) }
            }
            Action::Measure(asked) => {
                let lengths = asked.iter().map(|q| store.length(q)).collect();
                queries = asked;
                Event::Lengths(lengths)
            }
            last => return (pipeline, last, queries),
        };
    }
    panic!("the run did not end");
}

fn finished(action: Action) -> Vec<Ranked> {
    match action {
        Action::Finish(ranked) => ranked,
        other => panic!("no results: {:?}", other),
    }
}

#[test]
fn standard_settings() {
    let settings = Settings::standard();
    assert_eq!(settings.first_label, "Professor");
    assert_eq!(settings.second_label, "Student");
    assert_eq!(settings.vertex_count, 10);
    assert_eq!(settings.path_count, 20);
    assert_eq!(settings.relation, "RELATES");
    assert_eq!(settings.max_depth, 10);
}

#[test]
fn end_to_end_twenty_edges_between_five_and_five() {
    let mut store = FakeStore::new();
    let (pipeline, action, queries) = run(&mut store, settings("labelA", "labelB", 5, 6));
    assert!(pipeline.is_finished());
    assert_eq!(store.vertices.len(), 10);
    assert_eq!(store.batches, 3);
    assert_eq!(store.edges.len(), 20);
    for (k, edge) in store.edges.iter().enumerate() {
        assert!(edge.0.starts_with("labelA_"));
        assert!(edge.1.starts_with("labelB_"));
        assert!(!store.edges[..k].contains(edge));
    }
    assert_eq!(queries.len(), 6);
    let ranked = finished(action);
    assert!(ranked.len() <= 6);
    for pair in ranked.windows(2) {
        assert!(pair[0].length >= pair[1].length);
    }
    for result in &ranked {
        assert!(0 <= result.length && result.length <= 10);
        let query = graph_rank::paths::shortest_path_query(&result.path.from, &result.path.to, "RELATES", 10);
        assert_eq!(store.length(&query), Some(result.length));
    }
    assert_eq!(report_lines(&ranked).len(), ranked.len());
}

#[test]
fn standard_run_end_to_end() {
    let mut store = FakeStore::new();
    store.write(&vec![delete_statement()]);
    let (pipeline, action, queries) = run(&mut store, Settings::standard());
    assert!(pipeline.is_finished());
    assert_eq!(store.vertices.len(), 20);
    assert_eq!(store.edges.len(), 40);
    assert_eq!(queries.len(), 20);
    let ranked = finished(action);
    let found = queries.iter().filter(|q| store.length(q).is_some()).count();
    assert_eq!(ranked.len(), found);
}

#[test]
fn end_to_end_too_few_pairs_stop_the_run() {
    // One vertex under each label: four relations needed, none possible.
    let mut store = FakeStore::new();
    let (pipeline, action, _) = run(&mut store, settings("labelA", "labelB", 1, 1));
    assert!(pipeline.is_finished());
    assert!(matches!(action, Action::Stop(PipelineError::InvalidSampleRequest)));
    assert!(store.edges.is_empty());
}

#[test]
fn too_many_paths_stop_the_run_after_the_edges() {
    let mut store = FakeStore::new();
    // Ten slots make a hundred pairs; four for each of the five indices
    // have both slots at that index, which leaves eighty.
    let (pipeline, action, _) = run(&mut store, settings("labelA", "labelB", 5, 81));
    assert!(pipeline.is_finished());
    assert!(matches!(action, Action::Stop(PipelineError::InvalidSampleRequest)));
    assert_eq!(store.edges.len(), 20);
    let mut store = FakeStore::new();
    let (_, action, queries) = run(&mut store, settings("labelA", "labelB", 5, 80));
    assert_eq!(queries.len(), 80);
    assert!(matches!(action, Action::Finish(_)));
}

#[test]
fn end_to_end_a_chain_of_twelve_is_out_of_reach() {
    let mut store = FakeStore::new();
    for i in 0..13 {
        store.vertices.push(("Link".to_string(), format!("link_{}", i)));
    }
    for i in 0..12 {
        store.edges.push((format!("link_{}", i), format!("link_{}", i + 1)));
    }
    let node = |i: usize| NodeParams {
        label: "Link".to_string(),
        prop: Prop { key: "name".to_string(), value: format!("link_{}", i) },
    };
    let paths = vec![
        Path { from: node(0), to: node(3) },
        Path { from: node(0), to: node(12) },
        Path { from: node(12), to: node(2) },
    ];
    let queries = path_queries(&paths, "RELATES", 10);
    assert_eq!(queries.len(), 3);
    let lengths: Vec<Option<i64>> = queries.iter().map(|q| store.length(q)).collect();
    assert_eq!(lengths, vec![Some(3), None, Some(10)]);
    let pipeline = Pipeline { settings: settings("Link", "Link", 0, 3), phase: Phase::Measuring { paths } };
    let (pipeline, action) = pipeline.step(Event::Lengths(lengths));
    assert!(pipeline.is_finished());
    let ranked = finished(action);
    assert_eq!(ranked.len(), 2);
    assert_eq!(
        report_lines(&ranked),
        vec![
            "1. Path from 'link_12' to 'link_2' length = 10".to_string(),
            "2. Path from 'link_0' to 'link_3' length = 3".to_string(),
        ]
    );
}

#[test]
fn the_first_steps_ask_for_the_vertices_of_both_labels() {
    let pipeline = Pipeline::new(settings("P", "S", 2, 1));
    let (pipeline, action) = pipeline.step(Event::Begin);
    match action {
        Action::Write(batch) => assert_eq!(
            batch,
            vec!["CREATE (n:P {name: \"P_0\"})".to_string(), "CREATE (n:P {name: \"P_1\"})".to_string()]
        ),
        other => panic!("{:?}", other),
    }
    let (pipeline, action) = pipeline.step(Event::Written);
    match action {
        Action::Write(batch) => assert_eq!(
            batch,
            vec!["CREATE (n:S {name: \"S_0\"})".to_string(), "CREATE (n:S {name: \"S_1\"})".to_string()]
        ),
        other => panic!("{:?}", other),
    }
    let (pipeline, action) = pipeline.step(Event::Written);
    assert!(matches!(
        action,
        Action::ReadNames { ref first, ref second }
            if first == "MATCH (n:P) RETURN n" && second == "MATCH (n:S) RETURN n"
    ));
    assert!(matches!(pipeline.phase, Phase::Reading));
}

#[test]
fn an_event_that_answers_nothing_stops_the_run() {
    let (pipeline, action) = Pipeline::new(Settings::standard()).step(Event::Written);
    assert!(pipeline.is_finished());
    assert!(matches!(action, Action::Stop(PipelineError::UnexpectedEvent)));
    let (pipeline, _) = Pipeline::new(Settings::standard()).step(Event::Begin);
    let (pipeline, action) = pipeline.step(Event::Names { first: Vec::new(), second: Vec::new() });
    assert!(pipeline.is_finished());
    assert!(matches!(action, Action::Stop(PipelineError::UnexpectedEvent)));
}

#[test]
fn a_finished_run_takes_no_event() {
    let (pipeline, _) = Pipeline::new(Settings::standard()).step(Event::Written);
    let (pipeline, action) = pipeline.step(Event::Begin);
    assert!(pipeline.is_finished());
    assert!(matches!(action, Action::Stop(PipelineError::UnexpectedEvent)));
}

#[test]
fn lengths_that_do_not_match_the_paths_stop_the_run() {
    let node = |name: &str| NodeParams {
        label: "L".to_string(),
        prop: Prop { key: "name".to_string(), value: name.to_string() },
    };
    let paths = vec![Path { from: node("a"), to: node("b") }];
    assert!(lookups_from(&paths, &vec![Some(1), Some(2)]).is_none());
    let lookups = lookups_from(&paths, &vec![Some(4)]).unwrap();
    assert_eq!(lookups.len(), 1);
    assert_eq!(lookups[0].path.from.prop.value, "a");
    assert_eq!(lookups[0].length, Some(4));
    let pipeline = Pipeline { settings: Settings::standard(), phase: Phase::Measuring { paths } };
    let (pipeline, action) = pipeline.step(Event::Lengths(Vec::new()));
    assert!(pipeline.is_finished());
    assert!(matches!(action, Action::Stop(PipelineError::UnexpectedEvent)));
}

#[test]
fn wiping_twice_leaves_the_store_as_wiping_once() {
    let mut store = FakeStore::new();
    let _ = run(&mut store, settings("labelA", "labelB", 5, 2));
    store.write(&vec![delete_statement()]);
    assert!(store.vertices.is_empty() && store.edges.is_empty());
    store.write(&vec![delete_statement()]);
    assert!(store.vertices.is_empty() && store.edges.is_empty());
}
