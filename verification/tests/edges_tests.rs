use graph_rank::edges::connect_nodes;
use graph_rank::sampler::SampleError;

fn pool(prefix: &str, size: usize) -> Vec<String> {
    (1..=size).map(|i| format!("{}{}", prefix, i)).collect()
}

/// The two names of an edge statement.
fn ends(statement: &str) -> (String, String) {
    let parts: Vec<&str> = statement.split('"').collect();
    assert_eq!(parts.len(), 5);
    (parts[1].to_string(), parts[3].to_string())
}

#[test]
fn twenty_distinct_edges_between_five_and_five() {
    let a = pool("A", 5);
    let b = pool("B", 5);
    let queries = connect_nodes("labelA", "labelB", &a, &b).unwrap();
    assert_eq!(queries.len(), 20);
    let mut pairs = Vec::new();
    for query in &queries {
        let (first, second) = ends(query);
        assert!(a.contains(&first));
        assert!(b.contains(&second));
        assert_eq!(
            *query,
            format!(
                "MATCH (one:labelA {{name: \"{}\"}}) MATCH (two:labelB {{name: \"{}\"}}) CREATE (one) - [:RELATES] -> (two)",
                first, second
            )
        );
        assert!(!pairs.contains(&(first.clone(), second.clone())));
        pairs.push((first, second));
    }
}

#[test]
fn edges_never_join_equal_indices() {
    let a = pool("A", 5);
    let b = pool("B", 5);
    for _ in 0..20 {
        for query in connect_nodes("L", "M", &a, &b).unwrap() {
            let (first, second) = ends(&query);
            assert_ne!(first[1..], second[1..]);
        }
    }
}

#[test]
fn the_count_goes_by_the_first_label_alone() {
    let a = pool("A", 3);
    let b = pool("B", 9);
    // twice three and three
    assert_eq!(connect_nodes("L", "M", &a, &b).unwrap().len(), 12);
}

#[test]
fn too_few_pairs_for_the_count() {
    let a = pool("A", 5);
    let b = pool("B", 4);
    // sixteen pairs at different indices, twenty needed
    assert_eq!(connect_nodes("L", "M", &a, &b), Err(SampleError::InvalidSampleRequest));
    let none: Vec<String> = Vec::new();
    assert_eq!(connect_nodes("L", "M", &a, &none), Err(SampleError::InvalidSampleRequest));
}

#[test]
fn no_edges_for_an_empty_first_label() {
    let none: Vec<String> = Vec::new();
    let b = pool("B", 4);
    assert_eq!(connect_nodes("L", "M", &none, &b), Ok(Vec::new()));
}
