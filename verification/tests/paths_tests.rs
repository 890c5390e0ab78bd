use graph_rank::paths::{scramble_paths, shortest_path_query, NodeParams, Path, Prop};
use graph_rank::sampler::SampleError;

fn pool(prefix: &str, size: usize) -> Vec<String> {
    (0..size).map(|i| format!("{}_{}", prefix, i)).collect()
}

fn node(label: &str, value: &str) -> NodeParams {
    NodeParams { label: label.to_string(), prop: Prop { key: "name".to_string(), value: value.to_string() } }
}

fn scramble(a: &Vec<String>, b: &Vec<String>, count: i32) -> Result<Vec<Path>, SampleError> {
    scramble_paths("Professor".to_string(), "Student".to_string(), a, b, count)
}

#[test]
fn twenty_requests_between_ten_and_ten() {
    let a = pool("Professor", 10);
    let b = pool("Student", 10);
    let paths = scramble(&a, &b, 20).unwrap();
    assert_eq!(paths.len(), 20);
    let mut pairs = Vec::new();
    for path in &paths {
        for end in [&path.from, &path.to] {
            assert_eq!(end.prop.key, "name");
            assert!(end.label == "Professor" || end.label == "Student");
            let names = if end.label == "Professor" { &a } else { &b };
            assert!(names.contains(&end.prop.value));
        }
        assert_ne!(path.from.prop.value, path.to.prop.value);
        let pair = (path.from.prop.value.clone(), path.to.prop.value.clone());
        assert!(!pairs.contains(&pair));
        pairs.push(pair);
        let from_index = &path.from.prop.value[path.from.prop.value.len() - 1..];
        let to_index = &path.to.prop.value[path.to.prop.value.len() - 1..];
        assert_ne!(from_index, to_index);
    }
}

#[test]
fn no_requests_for_a_count_that_is_not_positive() {
    let a = pool("Professor", 3);
    let b = pool("Student", 3);
    assert!(scramble(&a, &b, 0).unwrap().is_empty());
    assert!(scramble(&a, &b, -5).unwrap().is_empty());
}

#[test]
fn more_requests_than_pairs_are_refused() {
    let a = pool("Professor", 2);
    let b = pool("Student", 2);
    // four slots in all, a pair for each two that differ in index: eight
    assert_eq!(scramble(&a, &b, 8).unwrap().len(), 8);
    assert_eq!(scramble(&a, &b, 9).err(), Some(SampleError::InvalidSampleRequest));
}

#[test]
fn a_pair_of_one_name_with_itself_makes_no_request() {
    let a = vec!["x".to_string(), "x".to_string()];
    let b = vec!["q".to_string()];
    // the pairs of names are (x, x), (x, q) and (q, x)
    let paths = scramble(&a, &b, 3).unwrap();
    assert_eq!(paths.len(), 2);
    for path in &paths {
        assert_ne!(path.from.prop.value, path.to.prop.value);
    }
    assert_eq!(scramble(&a, &b, 4).err(), Some(SampleError::InvalidSampleRequest));
}

#[test]
fn the_label_of_an_end_is_that_of_its_pool() {
    let a = vec!["only_a".to_string(), "other_a".to_string()];
    let b = vec!["only_b".to_string(), "other_b".to_string()];
    for path in scramble(&a, &b, 8).unwrap() {
        for end in [path.from, path.to] {
            if end.prop.value.ends_with("_a") {
                assert_eq!(end.label, "Professor");
            } else {
                assert_eq!(end.label, "Student");
            }
        }
    }
}

#[test]
fn shortest_path_query_names_both_ends_the_relation_and_the_depth() {
    let query = shortest_path_query(&node("Professor", "Professor_1"), &node("Student", "Student_2"), "RELATES", 10);
    assert_eq!(
        query,
        "MATCH (one:Professor {name: \"Professor_1\"}) MATCH (two:Student {name: \"Student_2\"}), p = shortestPath((one) - [:RELATES*..10] - (two)) RETURN LENGTH(p)"
    );
}

#[test]
fn shortest_path_query_uses_the_key_of_each_end() {
    let from = NodeParams { label: "A".to_string(), prop: Prop { key: "id".to_string(), value: "7".to_string() } };
    let to = NodeParams { label: "B".to_string(), prop: Prop { key: "code".to_string(), value: "z".to_string() } };
    assert_eq!(
        shortest_path_query(&from, &to, "KNOWS", -1),
        "MATCH (one:A {id: \"7\"}) MATCH (two:B {code: \"z\"}), p = shortestPath((one) - [:KNOWS*..-1] - (two)) RETURN LENGTH(p)"
    );
}

#[test]
fn copy_keeps_both_ends() {
    let path = Path { from: node("A", "a"), to: node("B", "b") };
    let copy = path.copy();
    assert_eq!(copy.from.label, "A");
    assert_eq!(copy.from.prop.key, "name");
    assert_eq!(copy.from.prop.value, "a");
    assert_eq!(copy.to.label, "B");
    assert_eq!(copy.to.prop.key, "name");
    assert_eq!(copy.to.prop.value, "b");
}
