//! The statements that seed, read and empty the store, as text.

use crate::decimal::{decimal_digits, unsigned_text};
use vstd::prelude::*;

verus! {

/// The kind of every relation that is created.
pub const REL: &'static str = "RELATES";

/// The statement that creates the vertex with a given number under a label.
/// Its name is the label, an underscore and the number.
pub open spec fn node_statement_text(label: Seq<char>, number: nat) -> Seq<char> {
    "CREATE (n:"@ + label + " {name: \""@ + label + "_"@ + decimal_digits(number) + "\"})"@
}

/// The batch that creates the vertices numbered from zero up to `amount`
/// under a label, in that order; empty where `amount` is not positive.
pub open spec fn is_node_batch(batch: Seq<String>, amount: i32, label: Seq<char>) -> bool {
    &&& batch.len() == (if amount > 0 { amount as int } else { 0 })
    &&& forall|i: int| 0 <= i < batch.len() ==> (#[trigger] batch[i])@ == node_statement_text(label, i as nat)
}

/// The query for all vertices of a label.
pub open spec fn names_query_text(label: Seq<char>) -> Seq<char> {
    "MATCH (n:"@ + label + ") RETURN n"@
}

/// The statement that relates the vertex of the first label named `first` to
/// the vertex of the second label named `second`.
pub open spec fn edge_statement_text(
    label_1: Seq<char>,
    label_2: Seq<char>,
    first: Seq<char>,
    second: Seq<char>,
) -> Seq<char> {
    "MATCH (one:"@ + label_1 + " {name: \""@ + first + "\"}) MATCH (two:"@ + label_2 + " {name: \""@
        + second + "\"}) CREATE (one) - [:"@ + REL@ + "] -> (two)"@
}

/// The statement that removes every vertex and every relation.
pub open spec fn delete_statement_text() -> Seq<char> {
    "MATCH (n) OPTIONAL MATCH (n)-[r]-() DELETE n, r"@
}

/// The statement that creates one vertex.
pub fn node_statement(label: &str, number: u64) -> (statement: String)
    ensures
        statement@ == node_statement_text(label@, number as nat),
{
    let mut statement = "CREATE (n:".to_owned();
    statement.append(label);
    statement.append(" {name: \"");
    statement.append(label);
    statement.append("_");
    let digits = unsigned_text(number);
    statement.append(digits.as_str());
    statement.append("\"})");
    statement
}

/// One statement for each of the vertices numbered from zero up to `amount`,
/// in that order. None where `amount` is not positive.
pub fn create_nodes_of_label(amount: i32, label: &str) -> (statements: Vec<String>)
    ensures
        is_node_batch(statements@, amount, label@),
{
    let mut statements: Vec<String> = Vec::new();
    let mut i: i32 = 0;
    while i < amount
        invariant
            0 <= i,
            i <= amount || i == 0,
            statements.len() == i,
            forall|k: int|
                0 <= k < statements.len() ==> (#[trigger] statements[k])@ == node_statement_text(label@, k as nat),
        decreases amount - i,
    {
        statements.push(node_statement(label, i as u64));
        i += 1;
    }
    statements
}

/// The query for all vertices of a label.
pub fn names_query(label: &str) -> (query: String)
    ensures
        query@ == names_query_text(label@),
{
    let mut query = "MATCH (n:".to_owned();
    query.append(label);
    query.append(") RETURN n");
    query
}

/// The statement that relates two vertices, found by their names.
pub fn edge_statement(label_1: &str, label_2: &str, first: &str, second: &str) -> (statement: String)
    ensures
        statement@ == edge_statement_text(label_1@, label_2@, first@, second@),
{
    let mut statement = "MATCH (one:".to_owned();
    statement.append(label_1);
    statement.append(" {name: \"");
    statement.append(first);
    statement.append("\"}) MATCH (two:");
    statement.append(label_2);
    statement.append(" {name: \"");
    statement.append(second);
    statement.append("\"}) CREATE (one) - [:");
    statement.append(REL);
    statement.append("] -> (two)");
    statement
}

/// The statement that removes every vertex and every relation.
pub fn delete_statement() -> (statement: String)
    ensures
        statement@ == delete_statement_text(),
{
    "MATCH (n) OPTIONAL MATCH (n)-[r]-() DELETE n, r".to_owned()
}

} // verus!
