use motif_census::{
    infer_type, is_connected, load_nodes, read_matrix, Cell, LoadError, Node, Sign, Type,
};

fn sign_of(text: &str) -> Option<Sign> {
    match text.parse::<f64>() {
        Err(_) => None,
        Ok(weight) => Some(if weight == 0.0 {
            Sign::Zero
        } else if weight.is_sign_negative() {
            Sign::Negative
        } else {
            Sign::Positive
        }),
    }
}

fn matrix(rows: &[&[&str]]) -> Vec<Vec<Cell>> {
    rows.iter()
        .map(|row| {
            row.iter().map(|raw| Cell { raw: raw.to_string(), sign: sign_of(raw) }).collect()
        })
        .collect()
}

fn loaded(rows: &[&[&str]]) -> Vec<Node> {
    load_nodes(&matrix(rows)).expect("loading nodes")
}

fn refused(rows: &[&[&str]]) -> LoadError {
    match load_nodes(&matrix(rows)) {
        Ok(_) => panic!("the matrix was accepted"),
        Err(error) => error,
    }
}

#[test]
fn empty_and_literal_zero_fields_are_no_edges() {
    assert!(!is_connected(""));
    assert!(!is_connected("0"));
    assert!(!is_connected("0.0"));
}

#[test]
fn other_spellings_of_zero_are_edges() {
    assert!(is_connected("0.00"));
    assert!(is_connected("-0"));
    assert!(is_connected("00"));
    assert!(is_connected("0."));
    assert!(is_connected(".0"));
    assert!(is_connected("0,0"));
    assert!(is_connected("0.1"));
    assert!(is_connected("1.0"));
}

#[test]
fn weights_and_text_are_edges() {
    assert!(is_connected("1"));
    assert!(is_connected("-3.5"));
    assert!(is_connected("x"));
    assert!(is_connected(" "));
    assert!(is_connected("\u{2192}"));
}

#[test]
fn node_count_is_matrix_width() {
    assert_eq!(loaded(&[&["0"]]).len(), 1);
    assert_eq!(loaded(&[&["0", "1", "0"], &["0", "0", "1"], &["0", "0", "0"]]).len(), 3);
    assert_eq!(loaded(&[]).len(), 0);
}

#[test]
fn edges_are_listed_in_ascending_order() {
    let nodes = loaded(&[
        &["0", "1", "0", "2"],
        &["1", "0", "3", "0"],
        &["0", "", "0", "0"],
        &["4", "5", "6", "0"],
    ]);
    assert_eq!(nodes[0].edges_to(), vec![1, 3]);
    assert_eq!(nodes[1].edges_to(), vec![0, 2]);
    assert_eq!(nodes[2].edges_to(), vec![]);
    assert_eq!(nodes[3].edges_to(), vec![0, 1, 2]);
    assert_eq!(nodes[0].edges_from(), vec![1, 3]);
    assert_eq!(nodes[1].edges_from(), vec![0, 3]);
    assert_eq!(nodes[2].edges_from(), vec![1, 3]);
    assert_eq!(nodes[3].edges_from(), vec![0]);
}

#[test]
fn more_than_four_neighbours_are_kept() {
    let nodes = loaded(&[
        &["0", "1", "1", "1", "1", "1", "1"],
        &["1", "0", "0", "0", "0", "0", "0"],
        &["1", "0", "0", "0", "0", "0", "0"],
        &["1", "0", "0", "0", "0", "0", "0"],
        &["1", "0", "0", "0", "0", "0", "0"],
        &["1", "0", "0", "0", "0", "0", "0"],
        &["1", "0", "0", "0", "0", "0", "0"],
    ]);
    assert_eq!(nodes[0].edges_to(), vec![1, 2, 3, 4, 5, 6]);
    assert_eq!(nodes[0].edges_from(), vec![1, 2, 3, 4, 5, 6]);
    assert_eq!(nodes[6].edges_to(), vec![0]);
    assert_eq!(nodes[6].edges_from(), vec![0]);
}

#[test]
fn a_self_loop_stands_in_both_lists() {
    let nodes = loaded(&[&["1", "0"], &["0", "0"]]);
    assert_eq!(nodes[0].edges_to(), vec![0]);
    assert_eq!(nodes[0].edges_from(), vec![0]);
}

#[test]
fn polarity_follows_the_sign_of_the_weights() {
    let nodes = loaded(&[&["0", "2.5", "1"], &["-1", "0", "-0.5"], &["0", "0", "0"]]);
    assert_eq!(nodes[0].typ(), Type::Excitatory);
    assert_eq!(nodes[1].typ(), Type::Inhibitory);
    assert_eq!(nodes[2].typ(), Type::Undetermined);
}

#[test]
fn zero_weights_leave_the_polarity_undetermined() {
    let nodes = loaded(&[&["0", "0.00", "-0"], &["0", "0", "0"], &["0", "0", "0"]]);
    assert_eq!(nodes[0].edges_to(), vec![1, 2]);
    assert_eq!(nodes[0].typ(), Type::Undetermined);
    assert_eq!(nodes[1].edges_from(), vec![0]);
}

#[test]
fn zero_weight_between_weights_of_one_sign() {
    let nodes = loaded(&[&["-1", "0.00", "-2"], &["0", "0", "0"], &["0", "0", "0"]]);
    assert_eq!(nodes[0].typ(), Type::Inhibitory);
}

#[test]
fn both_signs_break_dales_law() {
    assert_eq!(
        refused(&[&["0", "+2.0", "-3.0"], &["0", "0", "0"], &["0", "0", "0"]]),
        LoadError::DalesLaw { node: 0 }
    );
    assert_eq!(
        refused(&[&["0", "0", "0"], &["0", "0", "0"], &["-1", "1", "0"]]),
        LoadError::DalesLaw { node: 2 }
    );
}

#[test]
fn text_that_is_no_number_is_refused() {
    assert_eq!(
        refused(&[&["0", "1"], &["abc", "0"]]),
        LoadError::NotNumeric { node: 1, value: "abc".to_string() }
    );
}

#[test]
fn a_row_of_another_width_is_refused() {
    assert_eq!(
        refused(&[&["0", "1", "0"], &["0", "0"], &["0", "0", "0"]]),
        LoadError::NotSquare { row: 1, expected: 3 }
    );
    assert_eq!(
        refused(&[&["0", "1"], &["0", "0", "0"]]),
        LoadError::NotSquare { row: 1, expected: 2 }
    );
}

#[test]
fn a_row_beyond_the_square_is_refused() {
    assert_eq!(
        refused(&[&["0", "1"], &["0", "0"], &["0", "0"]]),
        LoadError::NotSquare { row: 2, expected: 2 }
    );
    assert_eq!(refused(&[&[]]), LoadError::NotSquare { row: 0, expected: 0 });
}

#[test]
fn missing_rows_are_refused() {
    assert_eq!(
        refused(&[&["0", "1", "0"], &["1", "0", "0"]]),
        LoadError::NotSquare { row: 2, expected: 3 }
    );
}

#[test]
fn a_matrix_that_ends_early_is_refused() {
    assert_eq!(refused(&[&["0", "1"]]), LoadError::NotSquare { row: 1, expected: 2 });
    assert_eq!(
        refused(&[&["0", "0", "0", "0"], &["0", "0", "0", "0"], &["0", "0", "0", "0"]]),
        LoadError::NotSquare { row: 3, expected: 4 }
    );
}

#[test]
fn a_fault_in_the_rows_present_comes_before_the_missing_rows() {
    assert_eq!(
        refused(&[&["0", "x", "0"]]),
        LoadError::NotNumeric { node: 0, value: "x".to_string() }
    );
    assert_eq!(
        refused(&[&["0", "1", "0"], &["-1", "0", "1"]]),
        LoadError::DalesLaw { node: 1 }
    );
    assert_eq!(
        refused(&[&["0", "1", "0"], &["1", "0"]]),
        LoadError::NotSquare { row: 1, expected: 3 }
    );
}

#[test]
fn the_first_fault_in_reading_order_is_returned() {
    assert_eq!(
        refused(&[&["0", "x", "0"], &["1", "-1", "0"], &["0"]]),
        LoadError::NotNumeric { node: 0, value: "x".to_string() }
    );
    assert_eq!(
        refused(&[&["0", "1", "0"], &["1", "-1", "y"], &["0"]]),
        LoadError::DalesLaw { node: 1 }
    );
    assert_eq!(
        refused(&[&["0", "1", "0"], &["0"], &["1", "-1", "y"]]),
        LoadError::NotSquare { row: 1, expected: 3 }
    );
}

#[test]
fn a_field_that_is_no_edge_is_not_parsed() {
    let nodes = load_nodes(&vec![
        vec![
            Cell { raw: "0".to_string(), sign: None },
            Cell { raw: "".to_string(), sign: Some(Sign::Negative) },
        ],
        vec![
            Cell { raw: "0.0".to_string(), sign: Some(Sign::Positive) },
            Cell { raw: "0".to_string(), sign: None },
        ],
    ])
    .expect("loading nodes");
    assert_eq!(nodes[0].edges_to(), vec![]);
    assert_eq!(nodes[0].typ(), Type::Undetermined);
    assert_eq!(nodes[1].typ(), Type::Undetermined);
}

#[test]
fn one_weight_settles_the_polarity() {
    assert_eq!(infer_type(Type::Undetermined, Sign::Negative), Some(Type::Inhibitory));
    assert_eq!(infer_type(Type::Undetermined, Sign::Positive), Some(Type::Excitatory));
    assert_eq!(infer_type(Type::Undetermined, Sign::Zero), Some(Type::Undetermined));
}

#[test]
fn a_weight_confirms_or_contradicts_the_polarity() {
    assert_eq!(infer_type(Type::Inhibitory, Sign::Negative), Some(Type::Inhibitory));
    assert_eq!(infer_type(Type::Inhibitory, Sign::Zero), Some(Type::Inhibitory));
    assert_eq!(infer_type(Type::Inhibitory, Sign::Positive), None);
    assert_eq!(infer_type(Type::Excitatory, Sign::Positive), Some(Type::Excitatory));
    assert_eq!(infer_type(Type::Excitatory, Sign::Zero), Some(Type::Excitatory));
    assert_eq!(infer_type(Type::Excitatory, Sign::Negative), None);
}

#[test]
fn read_matrix_splits_records_and_fields() {
    let rows = read_matrix(b"0,1.5,\n-2,0,abc\n").expect("reading row");
    assert_eq!(
        rows,
        vec![
            vec!["0".to_string(), "1.5".to_string(), "".to_string()],
            vec!["-2".to_string(), "0".to_string(), "abc".to_string()],
        ]
    );
}

#[test]
fn read_matrix_keeps_the_first_record() {
    let rows = read_matrix(b"1,2\n3,4").expect("reading row");
    assert_eq!(rows.len(), 2);
    assert_eq!(rows[0], vec!["1".to_string(), "2".to_string()]);
}

#[test]
fn read_matrix_of_nothing_has_no_row() {
    assert_eq!(read_matrix(b"").expect("reading row"), Vec::<Vec<String>>::new());
}

#[test]
fn read_matrix_refuses_records_of_unequal_length() {
    let read = read_matrix(b"0,1,0\n0,0\n0,0,0\n");
    assert!(read.is_err());
    assert!(!read.unwrap_err().message.is_empty());
}

#[test]
fn read_matrix_refuses_bytes_that_are_no_text() {
    assert!(read_matrix(b"0,\xff\n0,0\n").is_err());
}
