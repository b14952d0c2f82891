use motif_census::{
    count_basic, count_by_node_type, determine_motif_category_basic,
    determine_motif_category_by_node_type, load_nodes, process, summary_basic,
    summary_by_node_type, Cell, ClassifyError, MotifCategoryBasic, MotifCategoryByNodeType,
    MotifShape, Node, Sign,
};

fn sign_of(text: &str) -> Option<Sign> {
    match text.parse::<f64>() {
        Err(_) => None,
        Ok(weight) => Some(if weight == 0.0 {
            Sign::Zero
        } else if weight.is_sign_negative() {
            Sign::Negative
        } else {
            Sign::Positive
        }),
    }
}

fn loaded(rows: &[&[&str]]) -> Vec<Node> {
    let cells: Vec<Vec<Cell>> = rows
        .iter()
        .map(|row| {
            row.iter().map(|raw| Cell { raw: raw.to_string(), sign: sign_of(raw) }).collect()
        })
        .collect();
    load_nodes(&cells).expect("loading nodes")
}

/// Nodes 0 and 1 are excitatory, 2 and 3 inhibitory, 4 is undetermined.
fn mixed() -> Vec<Node> {
    loaded(&[
        &["0", "1", "0", "0", "0"],
        &["1", "0", "0", "0", "0"],
        &["0", "0", "0", "-1", "0"],
        &["0", "0", "-1", "0", "0"],
        &["0", "0", "0", "0", "0"],
    ])
}

#[test]
fn basic_category_is_the_shape() {
    assert_eq!(
        determine_motif_category_basic(&MotifShape::Chain(0, 1, 2)),
        MotifCategoryBasic::Chain
    );
    assert_eq!(
        determine_motif_category_basic(&MotifShape::Convergent(0, 1, 2)),
        MotifCategoryBasic::Convergent
    );
    assert_eq!(
        determine_motif_category_basic(&MotifShape::Divergent(0, 1, 2)),
        MotifCategoryBasic::Divergent
    );
    assert_eq!(
        determine_motif_category_basic(&MotifShape::Reciprocal(0, 1)),
        MotifCategoryBasic::Reciprocal
    );
}

#[test]
fn chain_is_decided_by_source_and_sink() {
    let nodes = mixed();
    let of = |a, c| determine_motif_category_by_node_type(&nodes, &MotifShape::Chain(a, 4, c));
    assert_eq!(of(0, 1), Ok(MotifCategoryByNodeType::ChainEE));
    assert_eq!(of(0, 2), Ok(MotifCategoryByNodeType::ChainEI));
    assert_eq!(of(2, 0), Ok(MotifCategoryByNodeType::ChainIE));
    assert_eq!(of(2, 3), Ok(MotifCategoryByNodeType::ChainII));
}

#[test]
fn convergent_is_decided_by_its_two_sources() {
    let nodes = mixed();
    let of =
        |a, c| determine_motif_category_by_node_type(&nodes, &MotifShape::Convergent(a, 4, c));
    assert_eq!(of(0, 1), Ok(MotifCategoryByNodeType::ConvergentEE));
    assert_eq!(of(0, 2), Ok(MotifCategoryByNodeType::ConvergentEI));
    assert_eq!(of(2, 0), Ok(MotifCategoryByNodeType::ConvergentEI));
    assert_eq!(of(2, 3), Ok(MotifCategoryByNodeType::ConvergentII));
}

#[test]
fn divergent_is_decided_by_its_shared_source() {
    let nodes = mixed();
    let of = |b| determine_motif_category_by_node_type(&nodes, &MotifShape::Divergent(4, b, 4));
    assert_eq!(of(0), Ok(MotifCategoryByNodeType::DivergentE));
    assert_eq!(of(3), Ok(MotifCategoryByNodeType::DivergentI));
}

#[test]
fn reciprocal_is_decided_by_its_two_nodes() {
    let nodes = mixed();
    let of = |a, b| determine_motif_category_by_node_type(&nodes, &MotifShape::Reciprocal(a, b));
    assert_eq!(of(0, 1), Ok(MotifCategoryByNodeType::ReciprocalEE));
    assert_eq!(of(1, 2), Ok(MotifCategoryByNodeType::ReciprocalEI));
    assert_eq!(of(3, 0), Ok(MotifCategoryByNodeType::ReciprocalEI));
    assert_eq!(of(2, 3), Ok(MotifCategoryByNodeType::ReciprocalII));
}

#[test]
fn undetermined_deciding_node_has_no_category() {
    let nodes = mixed();
    assert_eq!(
        determine_motif_category_by_node_type(&nodes, &MotifShape::Chain(0, 1, 4)),
        Err(ClassifyError::Undetermined { node: 4 })
    );
    assert_eq!(
        determine_motif_category_by_node_type(&nodes, &MotifShape::Chain(4, 1, 0)),
        Err(ClassifyError::Undetermined { node: 4 })
    );
    assert_eq!(
        determine_motif_category_by_node_type(&nodes, &MotifShape::Convergent(4, 1, 4)),
        Err(ClassifyError::Undetermined { node: 4 })
    );
    assert_eq!(
        determine_motif_category_by_node_type(&nodes, &MotifShape::Divergent(0, 4, 1)),
        Err(ClassifyError::Undetermined { node: 4 })
    );
    assert_eq!(
        determine_motif_category_by_node_type(&nodes, &MotifShape::Reciprocal(2, 4)),
        Err(ClassifyError::Undetermined { node: 4 })
    );
}

#[test]
fn deciding_node_outside_the_list_has_no_category() {
    let nodes = mixed();
    assert_eq!(
        determine_motif_category_by_node_type(&nodes, &MotifShape::Chain(5, 1, 0)),
        Err(ClassifyError::UnknownNode { node: 5 })
    );
    assert_eq!(
        determine_motif_category_by_node_type(&nodes, &MotifShape::Reciprocal(0, 9)),
        Err(ClassifyError::UnknownNode { node: 9 })
    );
    assert_eq!(
        determine_motif_category_by_node_type(&nodes, &MotifShape::Chain(4, 1, 7)),
        Err(ClassifyError::Undetermined { node: 4 })
    );
}

#[test]
fn the_middle_of_a_chain_does_not_decide() {
    let nodes = mixed();
    assert_eq!(
        determine_motif_category_by_node_type(&nodes, &MotifShape::Chain(0, 4, 2)),
        Ok(MotifCategoryByNodeType::ChainEI)
    );
    assert_eq!(
        determine_motif_category_by_node_type(&nodes, &MotifShape::Divergent(4, 2, 9)),
        Ok(MotifCategoryByNodeType::DivergentI)
    );
}

#[test]
fn basic_categories_in_order() {
    let all = [
        (MotifCategoryBasic::Chain, "Chain"),
        (MotifCategoryBasic::Convergent, "Convergent"),
        (MotifCategoryBasic::Divergent, "Divergent"),
        (MotifCategoryBasic::Reciprocal, "Reciprocal"),
    ];
    for (place, (category, name)) in all.iter().enumerate() {
        assert_eq!(category.int_value(), place);
        assert_eq!(MotifCategoryBasic::from_int(place), Some(*category));
        assert_eq!(category.name(), *name);
    }
    assert_eq!(MotifCategoryBasic::from_int(4), None);
    assert_eq!(MotifCategoryBasic::from_int(usize::MAX), None);
}

#[test]
fn node_type_categories_in_order() {
    let all = [
        (MotifCategoryByNodeType::ChainEE, "ChainEE"),
        (MotifCategoryByNodeType::ChainEI, "ChainEI"),
        (MotifCategoryByNodeType::ChainIE, "ChainIE"),
        (MotifCategoryByNodeType::ChainII, "ChainII"),
        (MotifCategoryByNodeType::ConvergentEE, "ConvergentEE"),
        (MotifCategoryByNodeType::ConvergentII, "ConvergentII"),
        (MotifCategoryByNodeType::ConvergentEI, "ConvergentEI"),
        (MotifCategoryByNodeType::DivergentE, "DivergentE"),
        (MotifCategoryByNodeType::DivergentI, "DivergentI"),
        (MotifCategoryByNodeType::ReciprocalEE, "ReciprocalEE"),
        (MotifCategoryByNodeType::ReciprocalII, "ReciprocalII"),
        (MotifCategoryByNodeType::ReciprocalEI, "ReciprocalEI"),
    ];
    for (place, (category, name)) in all.iter().enumerate() {
        assert_eq!(category.int_value(), place);
        assert_eq!(MotifCategoryByNodeType::from_int(place), Some(*category));
        assert_eq!(category.name(), *name);
    }
    assert_eq!(MotifCategoryByNodeType::from_int(12), None);
}

#[test]
fn basic_counts_of_a_full_triangle() {
    let nodes = loaded(&[&["0", "1", "1"], &["1", "0", "1"], &["1", "1", "0"]]);
    let mut found = vec![];
    process(&nodes, &mut found);
    let counts = count_basic(&found);
    assert_eq!(counts, [6, 3, 3, 3]);
    assert_eq!(counts.iter().sum::<usize>(), found.len());
    assert_eq!(
        summary_basic(&counts),
        vec![("Chain", 6), ("Convergent", 3), ("Divergent", 3), ("Reciprocal", 3)]
    );
}

#[test]
fn node_type_counts_of_a_mixed_triangle() {
    let nodes = loaded(&[&["0", "1", "1"], &["-1", "0", "-1"], &["1", "1", "0"]]);
    let mut found = vec![];
    process(&nodes, &mut found);
    assert_eq!(found.len(), 15);
    let counts = count_by_node_type(&nodes, &found).expect("classifying");
    // chains: 1>0>2 IE, 2>0>1 EI, 0>1>2 EE, 2>1>0 EE, 0>2>1 EI, 1>2>0 IE
    // convergent: (1,0,2) EI, (0,1,2) EE, (0,2,1) EI
    // divergent: at 0 E, at 1 I, at 2 E
    // reciprocal: (0,1) EI, (0,2) EE, (1,2) EI
    assert_eq!(counts, [2, 2, 2, 0, 1, 0, 2, 2, 1, 1, 0, 2]);
    assert_eq!(counts.iter().sum::<usize>(), found.len());
    let lines = summary_by_node_type(&counts);
    assert_eq!(lines.len(), 12);
    assert_eq!(lines[0], ("ChainEE", 2));
    assert_eq!(lines[3], ("ChainII", 0));
    assert_eq!(lines[6], ("ConvergentEI", 2));
    assert_eq!(lines[8], ("DivergentI", 1));
    assert_eq!(lines[11], ("ReciprocalEI", 2));
}

#[test]
fn counting_by_node_type_stops_at_the_first_error() {
    let nodes = mixed();
    let found = vec![
        MotifShape::Chain(0, 1, 2),
        MotifShape::Reciprocal(4, 0),
        MotifShape::Divergent(0, 7, 1),
    ];
    assert_eq!(
        count_by_node_type(&nodes, &found),
        Err(ClassifyError::Undetermined { node: 4 })
    );
    assert_eq!(count_basic(&found), [1, 0, 1, 1]);
}

#[test]
fn a_chain_into_a_node_without_targets_has_no_node_type() {
    let nodes = loaded(&[&["0", "1", "0"], &["0", "0", "1"], &["0", "0", "0"]]);
    let mut found = vec![];
    process(&nodes, &mut found);
    assert_eq!(found, vec![MotifShape::Chain(0, 1, 2)]);
    assert_eq!(
        count_by_node_type(&nodes, &found),
        Err(ClassifyError::Undetermined { node: 2 })
    );
}

#[test]
fn counts_of_nothing_are_zero() {
    let nodes = mixed();
    assert_eq!(count_basic(&vec![]), [0; 4]);
    assert_eq!(count_by_node_type(&nodes, &vec![]), Ok([0; 12]));
    let lines = summary_by_node_type(&[0; 12]);
    assert_eq!(lines.len(), 12);
    assert!(lines.iter().all(|line| line.1 == 0));
    assert_eq!(lines[7].0, "DivergentE");
}
