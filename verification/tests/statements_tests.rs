use graph_rank::statements::{
    create_nodes_of_label, delete_statement, edge_statement, names_query, node_statement, REL,
};

#[test]
fn relation_kind() {
    assert_eq!(REL, "RELATES");
}

#[test]
fn node_statement_names_the_vertex_by_label_and_number() {
    assert_eq!(node_statement("Professor", 3), "CREATE (n:Professor {name: \"Professor_3\"})");
    assert_eq!(node_statement("S", 12), "CREATE (n:S {name: \"S_12\"})");
}

#[test]
fn one_statement_for_each_vertex_from_zero() {
    assert_eq!(
        create_nodes_of_label(3, "Student"),
        vec![
            "CREATE (n:Student {name: \"Student_0\"})".to_string(),
            "CREATE (n:Student {name: \"Student_1\"})".to_string(),
            "CREATE (n:Student {name: \"Student_2\"})".to_string(),
        ]
    );
}

#[test]
fn ten_vertices_end_with_number_nine() {
    let statements = create_nodes_of_label(10, "Professor");
    assert_eq!(statements.len(), 10);
    assert_eq!(statements[9], "CREATE (n:Professor {name: \"Professor_9\"})");
}

#[test]
fn no_statement_for_no_vertices() {
    assert!(create_nodes_of_label(0, "Student").is_empty());
    assert!(create_nodes_of_label(-4, "Student").is_empty());
}

#[test]
fn names_query_asks_for_the_vertices_of_the_label() {
    assert_eq!(names_query("Professor"), "MATCH (n:Professor) RETURN n");
}

#[test]
fn edge_statement_goes_from_the_first_label_to_the_second() {
    assert_eq!(
        edge_statement("Professor", "Student", "Professor_1", "Student_7"),
        "MATCH (one:Professor {name: \"Professor_1\"}) MATCH (two:Student {name: \"Student_7\"}) CREATE (one) - [:RELATES] -> (two)"
    );
}

#[test]
fn delete_statement_removes_vertices_and_relations() {
    assert_eq!(delete_statement(), "MATCH (n) OPTIONAL MATCH (n)-[r]-() DELETE n, r");
}

#[test]
fn delete_statement_is_the_same_each_time() {
    assert_eq!(delete_statement(), delete_statement());
}
