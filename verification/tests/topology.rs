use candle_gnn::nn::degree::{
    edge_norm_factors, floor_degree, in_degree, in_degree_with_size, out_degree, out_degree_with_size,
    source_degrees, target_degrees,
};
use candle_gnn::nn::edge_index::{all_below, row_span};
use candle_gnn::nn::{EdgeIndex, GnnError};

fn ring() -> EdgeIndex {
    // (0,1),(1,2),(2,3),(3,0) and the reverse of each
    EdgeIndex::new(vec![0, 1, 2, 3, 1, 2, 3, 0], vec![1, 2, 3, 0, 0, 1, 2, 3]).unwrap()
}

#[test]
fn edge_index_keeps_rows_as_given() {
    let g = EdgeIndex::new(vec![5, 5, 0], vec![1, 1, 0]).unwrap();
    assert_eq!(g.len(), 3);
    assert_eq!(g.source(0), 5);
    assert_eq!(g.target(0), 1);
    assert_eq!(g.source(2), 0);
    assert_eq!(g.target(2), 0);
    assert_eq!(g.source_row(), &vec![5, 5, 0]);
    assert_eq!(g.target_row(), &vec![1, 1, 0]);
}

#[test]
fn edge_index_refuses_ragged_rows() {
    let r = EdgeIndex::new(vec![0, 1, 2], vec![1, 2]);
    assert!(matches!(r, Err(GnnError::RaggedEdgeIndex { sources: 3, targets: 2 })));
}

#[test]
fn empty_edge_index_is_accepted() {
    let g = EdgeIndex::new(vec![], vec![]).unwrap();
    assert_eq!(g.len(), 0);
    assert_eq!(out_degree(&g).unwrap(), Vec::<u32>::new());
    assert_eq!(in_degree(&g).unwrap(), Vec::<u32>::new());
    assert_eq!(out_degree_with_size(&g, 3).unwrap(), vec![0, 0, 0]);
}

#[test]
fn reversed_swaps_the_rows() {
    let g = EdgeIndex::new(vec![0, 1], vec![2, 3]).unwrap();
    let r = g.reversed();
    assert_eq!(r.source_row(), &vec![2, 3]);
    assert_eq!(r.target_row(), &vec![0, 1]);
}

#[test]
fn degrees_count_edges_per_node() {
    let g = EdgeIndex::new(vec![0, 0, 2, 2, 2], vec![1, 3, 1, 1, 0]).unwrap();
    assert_eq!(out_degree(&g).unwrap(), vec![2, 0, 3]);
    assert_eq!(in_degree(&g).unwrap(), vec![1, 3, 0, 1]);
}

#[test]
fn degrees_count_self_loops_and_repeated_edges() {
    let g = EdgeIndex::new(vec![1, 1, 1], vec![1, 1, 0]).unwrap();
    assert_eq!(out_degree(&g).unwrap(), vec![0, 3]);
    assert_eq!(in_degree(&g).unwrap(), vec![1, 2]);
}

#[test]
fn inferred_node_count_is_one_more_than_the_largest_index() {
    let g = EdgeIndex::new(vec![0, 4], vec![2, 1]).unwrap();
    assert_eq!(out_degree(&g).unwrap().len(), 5);
    assert_eq!(in_degree(&g).unwrap().len(), 3);
    assert_eq!(row_span(g.source_row()), 5);
    assert_eq!(row_span(g.target_row()), 3);
    assert_eq!(row_span(&vec![]), 0);
    assert_eq!(row_span(&vec![u32::MAX]), 1u64 << 32);
}

#[test]
fn explicit_node_count_covers_isolated_nodes() {
    let g = EdgeIndex::new(vec![0, 1], vec![1, 0]).unwrap();
    assert_eq!(out_degree_with_size(&g, 4).unwrap(), vec![1, 1, 0, 0]);
    assert_eq!(in_degree_with_size(&g, 4).unwrap(), vec![1, 1, 0, 0]);
}

#[test]
fn explicit_node_count_below_an_index_is_refused() {
    let g = EdgeIndex::new(vec![0, 3], vec![1, 0]).unwrap();
    assert!(matches!(
        out_degree_with_size(&g, 3),
        Err(GnnError::NodeIndexOutOfRange { num_nodes: 3 })
    ));
    assert_eq!(in_degree_with_size(&g, 3).unwrap(), vec![1, 1, 0]);
    assert!(matches!(
        in_degree_with_size(&g, 1),
        Err(GnnError::NodeIndexOutOfRange { num_nodes: 1 })
    ));
}

#[test]
fn degree_sums_equal_the_number_of_edges() {
    let graphs = vec![
        ring(),
        EdgeIndex::new(vec![0, 0, 2, 2, 2], vec![1, 3, 1, 1, 0]).unwrap(),
        EdgeIndex::new(vec![7], vec![7]).unwrap(),
        EdgeIndex::new(vec![], vec![]).unwrap(),
    ];
    for g in graphs {
        let e = g.len() as u32;
        assert_eq!(out_degree(&g).unwrap().iter().sum::<u32>(), e);
        assert_eq!(in_degree(&g).unwrap().iter().sum::<u32>(), e);
        assert_eq!(out_degree_with_size(&g, 9).unwrap().iter().sum::<u32>(), e);
        assert_eq!(in_degree_with_size(&g, 9).unwrap().iter().sum::<u32>(), e);
    }
}

#[test]
fn floor_degree_lifts_zero_to_one() {
    assert_eq!(floor_degree(0), 1);
    assert_eq!(floor_degree(1), 1);
    assert_eq!(floor_degree(7), 7);
    assert_eq!(floor_degree(u32::MAX), u32::MAX);
}

#[test]
fn per_edge_degrees_follow_the_edges() {
    let g = EdgeIndex::new(vec![0, 0, 2], vec![1, 3, 1]).unwrap();
    assert_eq!(source_degrees(&g, 4).unwrap(), vec![2, 2, 1]);
    assert_eq!(target_degrees(&g, 4).unwrap(), vec![2, 1, 2]);
    assert!(matches!(
        source_degrees(&g, 2),
        Err(GnnError::NodeIndexOutOfRange { num_nodes: 2 })
    ));
    assert!(matches!(
        target_degrees(&g, 3),
        Err(GnnError::NodeIndexOutOfRange { num_nodes: 3 })
    ));
}

#[test]
fn ring_normalisation_factors_are_two_and_two() {
    let (leaving, entering) = edge_norm_factors(&ring(), 4).unwrap();
    assert_eq!(leaving, vec![2; 8]);
    assert_eq!(entering, vec![2; 8]);
}

#[test]
fn normalisation_factors_multiply_to_the_degree_product() {
    let g = EdgeIndex::new(vec![0, 0, 0, 1], vec![1, 1, 2, 1]).unwrap();
    let (leaving, entering) = edge_norm_factors(&g, 3).unwrap();
    let products: Vec<u64> = leaving.iter().zip(entering.iter()).map(|(a, b)| *a as u64 * *b as u64).collect();
    // out-degrees 3,1,0 and in-degrees 0,3,1
    assert_eq!(products, vec![9, 9, 3, 3]);
    assert!(matches!(
        edge_norm_factors(&g, 2),
        Err(GnnError::NodeIndexOutOfRange { num_nodes: 2 })
    ));
}

#[test]
fn normalisation_factors_do_not_depend_on_node_labels() {
    let g = EdgeIndex::new(vec![0, 0, 0, 1], vec![1, 1, 2, 1]).unwrap();
    // relabel 0 -> 2, 1 -> 0, 2 -> 1
    let p = [2u32, 0, 1];
    let relabelled = EdgeIndex::new(
        g.source_row().iter().map(|n| p[*n as usize]).collect(),
        g.target_row().iter().map(|n| p[*n as usize]).collect(),
    )
    .unwrap();
    assert_eq!(edge_norm_factors(&g, 3).unwrap(), edge_norm_factors(&relabelled, 3).unwrap());
}

#[test]
fn all_below_checks_every_entry() {
    assert!(all_below(&vec![0, 1, 2], 3));
    assert!(!all_below(&vec![0, 3, 2], 3));
    assert!(all_below(&vec![], 0));
    assert!(!all_below(&vec![0], 0));
}
