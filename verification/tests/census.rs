use motif_census::{
    count_basic, load_nodes, process, read_matrix, summary_basic, Cell, LoadError, MotifShape,
    Node, Sign,
};

fn sign_of(text: &str) -> Option<Sign> {
    match text.parse::<f64>() {
        Err(_) => None,
        Ok(weight) => Some(if weight == 0.0 {
            Sign::Zero
        } else if weight.is_sign_negative() {
            Sign::Negative
        } else {
            Sign::Positive
        }),
    }
}

fn cells_of(rows: Vec<Vec<String>>) -> Vec<Vec<Cell>> {
    rows.into_iter()
        .map(|row| row.into_iter().map(|raw| Cell { sign: sign_of(&raw), raw }).collect())
        .collect()
}

fn nodes_of(text: &str) -> Vec<Node> {
    let rows = read_matrix(text.as_bytes()).expect("reading row");
    load_nodes(&cells_of(rows)).expect("loading nodes")
}

fn census_of(text: &str) -> Vec<MotifShape> {
    let mut out = vec![];
    process(&nodes_of(text), &mut out);
    out
}

#[test]
fn chain() {
    let conn = "\
0,1,0
0,0,1
0,0,0\
		";
    let mut out = vec![];
    process(&nodes_of(conn), &mut out);
    assert_eq!(out, vec![MotifShape::Chain(0, 1, 2)]);
}

#[test]
fn div() {
    let conn = "\
0,1,1
0,0,0
0,0,0\
		";
    let mut out = vec![];
    process(&nodes_of(conn), &mut out);
    assert_eq!(out, vec![MotifShape::Divergent(1, 0, 2)]);
}

#[test]
fn conv() {
    let conn = "\
0,0,0
1,0,0
1,0,0\
		";
    let mut out = vec![];
    process(&nodes_of(conn), &mut out);
    assert_eq!(out, vec![MotifShape::Convergent(1, 0, 2)]);
}

#[test]
fn recip() {
    let conn = "\
0,1,0
1,0,0\
		";
    let rows = read_matrix(conn.as_bytes()).expect("reading row");

    assert_eq!(
        load_nodes(&cells_of(rows)).err(),
        Some(LoadError::NotSquare { row: 2, expected: 3 })
    );
}

#[test]
fn reciprocal_pair_of_two_nodes() {
    assert_eq!(census_of("0,1\n1,0"), vec![MotifShape::Reciprocal(0, 1)]);
}

#[test]
fn all_zero_matrix_has_no_motif() {
    let found = census_of("0,0,0\n0,0,0\n0,0,0");
    assert_eq!(found, vec![]);
    let counts = count_basic(&found);
    assert_eq!(counts, [0, 0, 0, 0]);
    assert_eq!(
        summary_basic(&counts),
        vec![("Chain", 0), ("Convergent", 0), ("Divergent", 0), ("Reciprocal", 0)]
    );
}

#[test]
fn empty_matrix_has_no_node() {
    assert_eq!(nodes_of("").len(), 0);
    assert_eq!(census_of(""), vec![]);
}

#[test]
fn full_triangle_in_emission_order() {
    let found = census_of("0,1,1\n1,0,1\n1,1,0");
    assert_eq!(
        found,
        vec![
            MotifShape::Convergent(1, 0, 2),
            MotifShape::Divergent(1, 0, 2),
            MotifShape::Chain(1, 0, 2),
            MotifShape::Chain(2, 0, 1),
            MotifShape::Reciprocal(0, 1),
            MotifShape::Reciprocal(0, 2),
            MotifShape::Convergent(0, 1, 2),
            MotifShape::Divergent(0, 1, 2),
            MotifShape::Chain(0, 1, 2),
            MotifShape::Chain(2, 1, 0),
            MotifShape::Reciprocal(1, 2),
            MotifShape::Convergent(0, 2, 1),
            MotifShape::Divergent(0, 2, 1),
            MotifShape::Chain(0, 2, 1),
            MotifShape::Chain(1, 2, 0),
        ]
    );
}

#[test]
fn three_sources_give_three_convergent_pairs() {
    let found = census_of("0,0,0,0\n1,0,0,0\n1,0,0,0\n1,0,0,0");
    assert_eq!(
        found,
        vec![
            MotifShape::Convergent(1, 0, 2),
            MotifShape::Convergent(1, 0, 3),
            MotifShape::Convergent(2, 0, 3),
        ]
    );
}

#[test]
fn three_targets_give_three_divergent_pairs() {
    let found = census_of("0,1,1,1\n0,0,0,0\n0,0,0,0\n0,0,0,0");
    assert_eq!(
        found,
        vec![
            MotifShape::Divergent(1, 0, 2),
            MotifShape::Divergent(1, 0, 3),
            MotifShape::Divergent(2, 0, 3),
        ]
    );
}

#[test]
fn mutual_edge_alone_is_no_chain() {
    let found = census_of("0,1,0\n1,0,0\n0,0,0");
    assert_eq!(found, vec![MotifShape::Reciprocal(0, 1)]);
}

#[test]
fn self_loop_is_no_reciprocal_pair() {
    let found = census_of("1,0\n0,0");
    assert_eq!(found, vec![]);
}

#[test]
fn process_appends_behind_what_is_there() {
    let nodes = nodes_of("0,1,0\n0,0,1\n0,0,0");
    let mut out = vec![MotifShape::Reciprocal(7, 8)];
    process(&nodes, &mut out);
    assert_eq!(out, vec![MotifShape::Reciprocal(7, 8), MotifShape::Chain(0, 1, 2)]);
}

#[test]
fn two_runs_give_the_same_sequence() {
    let nodes = nodes_of("0,1,1,0\n1,0,1,1\n0,1,0,1\n1,0,0,0");
    let mut first = vec![];
    process(&nodes, &mut first);
    let mut second = vec![];
    process(&nodes, &mut second);
    assert!(!first.is_empty());
    assert_eq!(first, second);
    let mut both = first.clone();
    process(&nodes, &mut both);
    assert_eq!(both[first.len()..], first[..]);
}

#[test]
fn occurrences_are_canonical_and_within_the_nodes() {
    let nodes = nodes_of("0,1,1,0\n1,0,1,1\n0,1,0,1\n1,0,0,0");
    let mut found = vec![];
    process(&nodes, &mut found);
    assert_eq!(nodes.len(), 4);
    for shape in &found {
        match *shape {
            MotifShape::Chain(a, b, c) => {
                assert!(a < 4 && b < 4 && c < 4);
                assert_ne!(a, c);
            }
            MotifShape::Convergent(a, b, c) | MotifShape::Divergent(a, b, c) => {
                assert!(a < 4 && b < 4 && c < 4);
                assert!(a < c);
            }
            MotifShape::Reciprocal(a, b) => {
                assert!(a < 4 && b < 4);
                assert!(a < b);
            }
        }
    }
    for (i, first) in found.iter().enumerate() {
        for second in &found[i + 1..] {
            assert_ne!(first, second);
        }
    }
}

#[test]
fn motif_text_shows_the_direction_of_the_edges() {
    assert_eq!(MotifShape::Chain(0, 1, 2).to_text(), "chain: 0 \u{2192} 1 \u{2192} 2");
    assert_eq!(MotifShape::Convergent(1, 0, 2).to_text(), "convergent: 1 \u{2192} 0 \u{2190} 2");
    assert_eq!(MotifShape::Divergent(1, 0, 2).to_text(), "divergent: 1 \u{2190} 0 \u{2192} 2");
    assert_eq!(MotifShape::Reciprocal(0, 1).to_text(), "reciprocal: 0 \u{2194} 1");
}

#[test]
fn motif_text_writes_numbers_in_decimal() {
    assert_eq!(
        MotifShape::Chain(10, 205, 99).to_text(),
        "chain: 10 \u{2192} 205 \u{2192} 99"
    );
    assert_eq!(
        MotifShape::Reciprocal(1000, 1234567890).to_text(),
        "reciprocal: 1000 \u{2194} 1234567890"
    );
}
