use candle_core::{Device, Tensor};
use candle_gnn::nn::aggregate::{attention_agg, edge_softmax, mean_agg, sum_agg, weighted_sum_agg};
use candle_gnn::nn::{EdgeIndex, GnnError};

fn features() -> Tensor {
    Tensor::new(&[[1f32, 10.], [2., 20.], [4., 40.], [8., 80.]], &Device::Cpu).unwrap()
}

fn rows(t: &Tensor) -> Vec<Vec<f32>> {
    t.to_vec2::<f32>().unwrap()
}

#[test]
fn sum_agg_adds_source_rows_into_target_slots() {
    let xs = features();
    let out = xs.zeros_like().unwrap();
    // 0 -> 1, 2 -> 1, 3 -> 0
    let edges = EdgeIndex::new(vec![0, 2, 3], vec![1, 1, 0]).unwrap();
    let res = sum_agg(&xs, &edges, &out).unwrap();
    assert_eq!(
        rows(&res),
        vec![vec![8., 80.], vec![5., 50.], vec![0., 0.], vec![0., 0.]]
    );
}

#[test]
fn sum_agg_counts_a_repeated_edge_twice() {
    let xs = features();
    let out = xs.zeros_like().unwrap();
    let edges = EdgeIndex::new(vec![1, 1], vec![0, 0]).unwrap();
    let res = sum_agg(&xs, &edges, &out).unwrap();
    assert_eq!(rows(&res)[0], vec![4., 40.]);
}

#[test]
fn sum_agg_keeps_the_seed_of_an_unreached_node() {
    let xs = features();
    let edges = EdgeIndex::new(vec![0], vec![1]).unwrap();
    let res = sum_agg(&xs, &edges, &xs).unwrap();
    assert_eq!(
        rows(&res),
        vec![vec![1., 10.], vec![3., 30.], vec![4., 40.], vec![8., 80.]]
    );
}

#[test]
fn sum_agg_without_edges_returns_the_seed() {
    let xs = features();
    let edges = EdgeIndex::new(vec![], vec![]).unwrap();
    let res = sum_agg(&xs, &edges, &xs).unwrap();
    assert_eq!(rows(&res), rows(&xs));
}

#[test]
fn mean_agg_divides_by_the_in_degree_of_the_target() {
    let xs = features();
    let out = xs.zeros_like().unwrap();
    let edges = EdgeIndex::new(vec![0, 2, 3], vec![1, 1, 0]).unwrap();
    let res = mean_agg(&xs, &edges, &out).unwrap();
    assert_eq!(
        rows(&res),
        vec![vec![8., 80.], vec![2.5, 25.], vec![0., 0.], vec![0., 0.]]
    );
}

#[test]
fn mean_agg_leaves_an_isolated_node_finite() {
    let xs = features();
    let edges = EdgeIndex::new(vec![0, 1], vec![1, 0]).unwrap();
    let res = mean_agg(&xs, &edges, &xs).unwrap();
    let got = rows(&res);
    assert_eq!(got[2], vec![4., 40.]);
    assert_eq!(got[3], vec![8., 80.]);
    assert!(got.iter().flatten().all(|v| v.is_finite()));
}

#[test]
fn weighted_sum_agg_adds_target_rows_into_source_slots() {
    let xs = features();
    let out = xs.zeros_like().unwrap();
    // 0 -> 1, 2 -> 1, 3 -> 0: node 0 reads node 1, node 2 reads node 1, node 3 reads node 0
    let edges = EdgeIndex::new(vec![0, 2, 3], vec![1, 1, 0]).unwrap();
    let weight = Tensor::new(&[[0.5f32], [0.25], [2.]], &Device::Cpu).unwrap();
    let res = weighted_sum_agg(&xs, &edges, &weight, &out).unwrap();
    assert_eq!(
        rows(&res),
        vec![vec![1., 10.], vec![0., 0.], vec![0.5, 5.], vec![2., 20.]]
    );
}

#[test]
fn weighted_sum_agg_on_one_edge() {
    let xs = Tensor::new(&[[1f32], [2.]], &Device::Cpu).unwrap();
    let out = Tensor::new(&[[10f32], [20.]], &Device::Cpu).unwrap();
    let edges = EdgeIndex::new(vec![0], vec![1]).unwrap();
    let weight = Tensor::new(&[[0.5f32]], &Device::Cpu).unwrap();
    let res = weighted_sum_agg(&xs, &edges, &weight, &out).unwrap();
    assert_eq!(rows(&res), vec![vec![11.], vec![20.]]);
}

#[test]
fn weighted_sum_agg_refuses_nodes_out_of_range() {
    let xs = Tensor::new(&[[1f32], [2.]], &Device::Cpu).unwrap();
    let out = Tensor::new(&[[10f32], [20.], [30.]], &Device::Cpu).unwrap();
    let weight = Tensor::new(&[[0.5f32]], &Device::Cpu).unwrap();
    // the target is read from xs, which has two rows
    let edges = EdgeIndex::new(vec![0], vec![2]).unwrap();
    assert!(matches!(
        weighted_sum_agg(&xs, &edges, &weight, &out),
        Err(GnnError::NodeIndexOutOfRange { num_nodes: 2 })
    ));
    // the source is added to in out, which has three rows
    let edges = EdgeIndex::new(vec![3], vec![1]).unwrap();
    assert!(matches!(
        weighted_sum_agg(&xs, &edges, &weight, &out),
        Err(GnnError::NodeIndexOutOfRange { num_nodes: 3 })
    ));
}

#[test]
fn attention_agg_scales_each_message_into_its_target() {
    let xs = features();
    let out = xs.zeros_like().unwrap();
    let edges = EdgeIndex::new(vec![0, 2, 3], vec![1, 1, 0]).unwrap();
    let attention = Tensor::new(&[[0.5f32], [0.25], [2.]], &Device::Cpu).unwrap();
    let res = attention_agg(&xs, &edges, &attention, &out).unwrap();
    assert_eq!(
        rows(&res),
        vec![vec![16., 160.], vec![1.5, 15.], vec![0., 0.], vec![0., 0.]]
    );
}

#[test]
fn aggregation_reports_what_the_runtime_refuses() {
    // a weight with two columns cannot be broadcast against rows of width 2 and 1 column per edge
    let xs = features();
    let edges = EdgeIndex::new(vec![0], vec![1]).unwrap();
    let weight = Tensor::new(&[[0.5f32, 1., 2.]], &Device::Cpu).unwrap();
    assert!(matches!(
        weighted_sum_agg(&xs, &edges, &weight, &xs),
        Err(GnnError::Backend(_))
    ));
}

#[test]
fn aggregation_refuses_an_edge_outside_the_features() {
    let xs = features();
    let edges = EdgeIndex::new(vec![4], vec![0]).unwrap();
    let r = sum_agg(&xs, &edges, &xs);
    assert!(matches!(r, Err(GnnError::NodeIndexOutOfRange { num_nodes: 4 })));
}

#[test]
fn aggregation_refuses_an_edge_outside_the_accumulator() {
    let xs = features();
    let out = Tensor::new(&[[0f32, 0.], [0., 0.]], &Device::Cpu).unwrap();
    let edges = EdgeIndex::new(vec![0], vec![3]).unwrap();
    let r = mean_agg(&xs, &edges, &out);
    assert!(matches!(r, Err(GnnError::NodeIndexOutOfRange { num_nodes: 2 })));
}

#[test]
fn aggregation_refuses_slices_of_different_width() {
    let xs = features();
    let out = Tensor::new(&[[0f32, 0., 0.], [0., 0., 0.]], &Device::Cpu).unwrap();
    let edges = EdgeIndex::new(vec![0], vec![1]).unwrap();
    match sum_agg(&xs, &edges, &out) {
        Err(GnnError::ShapeMismatch { expected_dims, found_dims }) => {
            assert_eq!(expected_dims, vec![2, 3]);
            assert_eq!(found_dims, vec![4, 2]);
        }
        other => panic!("unexpected: {:?}", other.map(|t| t.dims().to_vec())),
    }
}

#[test]
fn aggregation_refuses_a_tensor_without_axes() {
    let xs = Tensor::new(1f32, &Device::Cpu).unwrap();
    let edges = EdgeIndex::new(vec![], vec![]).unwrap();
    let r = sum_agg(&xs, &edges, &xs);
    assert!(matches!(r, Err(GnnError::Rank { expected: 1, found: 0 })));
}

#[test]
fn edge_softmax_sums_to_one_over_the_edges_into_a_node() {
    // edges into node 1: e0, e1, e3; into node 0: e2
    let edges = EdgeIndex::new(vec![0, 2, 3, 1], vec![1, 1, 0, 1]).unwrap();
    let scores = Tensor::new(&[[0.5f32, -1.], [2., 0.], [-3., 4.], [0.25, 1.5]], &Device::Cpu).unwrap();
    let res = edge_softmax(&scores, &edges, 4).unwrap();
    assert_eq!(res.dims(), &[4, 2]);
    let a = rows(&res);
    for head in 0..2 {
        let into_one = a[0][head] + a[1][head] + a[3][head];
        assert!((into_one - 1.).abs() < 1e-6);
        assert!((a[2][head] - 1.).abs() < 1e-6);
    }
    let expected = (0.5f32).exp() / ((0.5f32).exp() + (2f32).exp() + (0.25f32).exp());
    assert!((a[0][0] - expected).abs() < 1e-6);
}

#[test]
fn edge_softmax_refuses_scores_that_do_not_match_the_edges() {
    let edges = EdgeIndex::new(vec![0, 1], vec![1, 0]).unwrap();
    let scores = Tensor::new(&[[0f32], [0.], [0.]], &Device::Cpu).unwrap();
    assert!(matches!(
        edge_softmax(&scores, &edges, 2),
        Err(GnnError::EdgeCount { expected: 2, found: 3 })
    ));
    let scores = Tensor::new(&[[0f32], [0.]], &Device::Cpu).unwrap();
    assert!(matches!(
        edge_softmax(&scores, &edges, 1),
        Err(GnnError::NodeIndexOutOfRange { num_nodes: 1 })
    ));
    let scalar = Tensor::new(0f32, &Device::Cpu).unwrap();
    assert!(matches!(
        edge_softmax(&scalar, &edges, 2),
        Err(GnnError::Rank { expected: 1, found: 0 })
    ));
}

#[test]
fn mean_agg_works_on_slices_with_several_axes() {
    let xs = Tensor::new(&[[[2f32, 4.], [6., 8.]], [[10., 20.], [30., 40.]]], &Device::Cpu).unwrap();
    let out = xs.zeros_like().unwrap();
    let edges = EdgeIndex::new(vec![0, 1], vec![1, 1]).unwrap();
    let res = mean_agg(&xs, &edges, &out).unwrap();
    assert_eq!(
        res.to_vec3::<f32>().unwrap(),
        vec![
            vec![vec![0., 0.], vec![0., 0.]],
            vec![vec![6., 12.], vec![18., 24.]]
        ]
    );
}

#[test]
fn aggregation_refuses_integer_tensors() {
    let xs = Tensor::new(&[[1u32, 2], [3, 4]], &Device::Cpu).unwrap();
    let edges = EdgeIndex::new(vec![0], vec![1]).unwrap();
    assert!(matches!(sum_agg(&xs, &edges, &xs), Err(GnnError::NotFloatingPoint)));
    assert!(matches!(mean_agg(&xs, &edges, &xs), Err(GnnError::NotFloatingPoint)));
    assert!(matches!(edge_softmax(&xs, &edges, 2), Err(GnnError::NotFloatingPoint)));
    let floats = features();
    assert!(matches!(sum_agg(&floats, &edges, &xs), Err(GnnError::NotFloatingPoint)));
}

#[test]
fn mean_agg_follows_the_order_of_the_edges() {
    // two edges into node 0: the result is seed + x1 / 2 + x2 / 2, added in this order
    let xs = Tensor::new(&[[0.1f32], [0.2], [0.7]], &Device::Cpu).unwrap();
    let edges = EdgeIndex::new(vec![1, 2], vec![0, 0]).unwrap();
    let res = mean_agg(&xs, &edges, &xs).unwrap();
    let expected = (0.1f32 + 0.2f32 / 2.) + 0.7f32 / 2.;
    assert_eq!(rows(&res)[0][0], expected);
}
