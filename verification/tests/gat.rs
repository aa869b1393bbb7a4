use candle_core::{Device, Tensor};
use candle_gnn::nn::gat::{Gat, GatConv, GatParams};
use candle_gnn::nn::{EdgeIndex, GnnError, GnnModule};
use candle_nn::{Activation, Dropout};

const W: [[f32; 4]; 2] = [[1., 0., 2., -1.], [0., 1., 0.5, 3.]];
const ATT_SRC: [[f32; 2]; 2] = [[0.5, -0.25], [1., 0.]];
const ATT_DST: [[f32; 2]; 2] = [[0.1, 0.2], [-0.5, 0.25]];
const SLOPE: f64 = 0.1;

fn conv_with(att_src: [[f32; 2]; 2], att_dst: [[f32; 2]; 2]) -> GatConv {
    GatConv::new(
        2,
        4,
        2,
        Activation::LeakyRelu(SLOPE),
        Dropout::new(0.0),
        Tensor::new(&W, &Device::Cpu).unwrap(),
        Tensor::new(&[att_src], &Device::Cpu).unwrap(),
        Tensor::new(&[att_dst], &Device::Cpu).unwrap(),
    )
    .unwrap()
}

fn features() -> Vec<Vec<f32>> {
    vec![vec![1., 2.], vec![-1., 0.5], vec![0., 1.], vec![3., 3.]]
}

fn tensor(rows: &[Vec<f32>]) -> Tensor {
    Tensor::new(rows.to_vec(), &Device::Cpu).unwrap()
}

fn rows(t: &Tensor) -> Vec<Vec<f32>> {
    t.to_vec2::<f32>().unwrap()
}

fn leaky(x: f32) -> f32 {
    if x > 0. { x } else { x * SLOPE as f32 }
}

/// The layer computed with plain loops.
fn by_hand(xs: &[Vec<f32>], src: &[u32], dst: &[u32], att_src: [[f32; 2]; 2], att_dst: [[f32; 2]; 2]) -> Vec<Vec<f32>> {
    let n = xs.len();
    let h: Vec<Vec<f32>> = xs
        .iter()
        .map(|x| (0..4).map(|c| x[0] * W[0][c] + x[1] * W[1][c]).collect())
        .collect();
    let mut out = vec![vec![0f32; 4]; n];
    for head in 0..2 {
        let score = |s: usize, t: usize| -> f32 {
            let a: f32 = (0..2).map(|d| h[s][head * 2 + d] * att_src[head][d]).sum();
            let b: f32 = (0..2).map(|d| h[t][head * 2 + d] * att_dst[head][d]).sum();
            leaky(a + b).exp()
        };
        for t in 0..n {
            let total: f32 = (0..src.len())
                .filter(|e| dst[*e] as usize == t)
                .map(|e| score(src[e] as usize, t))
                .sum();
            for e in 0..src.len() {
                if dst[e] as usize == t {
                    let a = score(src[e] as usize, t) / total;
                    for d in 0..2 {
                        out[t][head * 2 + d] += a * h[src[e] as usize][head * 2 + d];
                    }
                }
            }
        }
    }
    out
}

fn close(a: &[Vec<f32>], b: &[Vec<f32>]) -> bool {
    a.len() == b.len()
        && a.iter().zip(b).all(|(x, y)| x.len() == y.len() && x.iter().zip(y).all(|(p, q)| (p - q).abs() < 1e-4))
}

#[test]
fn attention_layer_matches_plain_loops() {
    let src = vec![0, 1, 3, 2, 0];
    let dst = vec![2, 2, 2, 0, 1];
    let edges = EdgeIndex::new(src.clone(), dst.clone()).unwrap();
    let out = conv_with(ATT_SRC, ATT_DST).forward(&tensor(&features()), &edges).unwrap();
    assert_eq!(out.dims(), &[4, 4]);
    let expected = by_hand(&features(), &src, &dst, ATT_SRC, ATT_DST);
    assert!(close(&rows(&out), &expected), "{:?} vs {:?}", rows(&out), expected);
}

#[test]
fn zero_attention_vectors_give_the_mean_of_the_neighbours() {
    let edges = EdgeIndex::new(vec![0, 1], vec![2, 2]).unwrap();
    let zero = [[0f32; 2]; 2];
    let out = rows(&conv_with(zero, zero).forward(&tensor(&features()), &edges).unwrap());
    // h0 = [1, 2, 3, 5], h1 = [-1, 0.5, -1.75, 2.5]
    assert!(close(&[out[2].clone()], &[vec![0., 1.25, 0.625, 3.75]]));
}

#[test]
fn node_without_incoming_edges_gets_zeros_and_stays_finite() {
    let edges = EdgeIndex::new(vec![0, 1], vec![2, 2]).unwrap();
    let out = rows(&conv_with(ATT_SRC, ATT_DST).forward_t(&tensor(&features()), &edges, true).unwrap());
    assert!(out.iter().flatten().all(|v| v.is_finite()));
    assert_eq!(out[0], vec![0.; 4]);
    assert_eq!(out[1], vec![0.; 4]);
    assert_eq!(out[3], vec![0.; 4]);
}

#[test]
fn gat_graph_without_edges_gives_zeros() {
    let edges = EdgeIndex::new(vec![], vec![]).unwrap();
    let out = rows(&conv_with(ATT_SRC, ATT_DST).forward(&tensor(&features()), &edges).unwrap());
    assert_eq!(out, vec![vec![0.; 4]; 4]);
}

#[test]
fn gat_constructor_checks_the_extents_of_the_parameters() {
    let make = |w: Tensor, s: Tensor, d: Tensor| {
        GatConv::new(2, 4, 2, Activation::LeakyRelu(SLOPE), Dropout::new(0.0), w, s, d)
    };
    let w = Tensor::new(&W, &Device::Cpu).unwrap();
    let s = Tensor::new(&[ATT_SRC], &Device::Cpu).unwrap();
    let d = Tensor::new(&[ATT_DST], &Device::Cpu).unwrap();
    let flat = Tensor::new(&ATT_SRC, &Device::Cpu).unwrap();
    match make(w.t().unwrap(), s.clone(), d.clone()) {
        Err(GnnError::ShapeMismatch { expected_dims, found_dims }) => {
            assert_eq!(expected_dims, vec![2, 4]);
            assert_eq!(found_dims, vec![4, 2]);
        }
        _ => panic!("weight of the wrong extents was accepted"),
    }
    match make(w.clone(), flat.clone(), d.clone()) {
        Err(GnnError::ShapeMismatch { expected_dims, found_dims }) => {
            assert_eq!(expected_dims, vec![1, 2, 2]);
            assert_eq!(found_dims, vec![2, 2]);
        }
        _ => panic!("source attention of the wrong extents was accepted"),
    }
    assert!(matches!(make(w.clone(), s.clone(), flat), Err(GnnError::ShapeMismatch { .. })));
    let conv = make(w, s, d).unwrap();
    assert_eq!(conv.in_dim(), 2);
    assert_eq!(conv.out_dim(), 4);
    assert_eq!(conv.num_heads(), 2);
    assert_eq!(conv.parameters().len(), 3);
}

#[test]
fn gat_forward_refuses_features_of_the_wrong_shape() {
    let conv = conv_with(ATT_SRC, ATT_DST);
    let edges = EdgeIndex::new(vec![0], vec![1]).unwrap();
    let wide = Tensor::new(&[[1f32, 0., 0.], [0., 1., 0.]], &Device::Cpu).unwrap();
    assert!(matches!(
        conv.forward(&wide, &edges),
        Err(GnnError::FeatureDim { expected: 2, found: 3 })
    ));
    let cube = Tensor::new(&[[[1f32, 0.]]], &Device::Cpu).unwrap();
    assert!(matches!(
        conv.forward(&cube, &edges),
        Err(GnnError::Rank { expected: 2, found: 3 })
    ));
    let one = Tensor::new(&[[1f32, 0.]], &Device::Cpu).unwrap();
    assert!(matches!(
        conv.forward(&one, &edges),
        Err(GnnError::NodeIndexOutOfRange { num_nodes: 1 })
    ));
}

#[test]
fn gat_stack_runs_dropout_and_activation_between_layers() {
    let second = GatConv::new(
        4,
        2,
        1,
        Activation::LeakyRelu(SLOPE),
        Dropout::new(0.0),
        Tensor::new(&[[1f32, 0.], [0., 1.], [1., 0.], [0., 1.]], &Device::Cpu).unwrap(),
        Tensor::new(&[[[0f32, 0.]]], &Device::Cpu).unwrap(),
        Tensor::new(&[[[0f32, 0.]]], &Device::Cpu).unwrap(),
    )
    .unwrap();
    let zero = [[0f32; 2]; 2];
    let params = GatParams { dropout: Dropout::new(0.0), activation_fn: Activation::Relu };
    let model = Gat::with_params(vec![conv_with(zero, zero), second], params).unwrap();
    assert_eq!(model.num_layers(), 2);
    assert_eq!(model.parameters().len(), 6);
    let edges = EdgeIndex::new(vec![0, 1, 2], vec![2, 2, 2]).unwrap();
    let out = rows(&model.forward_t(&tensor(&features()), &edges, false).unwrap());
    // layer 1, node 2: mean of h0, h1, h2 = [0, 3.5, 1.75, 10.5] / 3; relu keeps all
    // layer 2, node 2 (only node with a self-edge): [h0 + h2, h1 + h3] of its own row
    let m = [0f32 / 3., 3.5 / 3., 1.75 / 3., 10.5 / 3.];
    assert!(close(&[out[2].clone()], &[vec![(m[0] + m[2]) / 3., (m[1] + m[3]) / 3.]]));
    assert_eq!(out[0], vec![0., 0.]);
}

#[test]
fn gat_empty_stack_is_refused() {
    let params = GatParams { dropout: Dropout::new(0.0), activation_fn: Activation::Relu };
    assert!(matches!(Gat::with_params(vec![], params), Err(GnnError::NoLayers)));
}

#[test]
fn gated_score_activation_is_refused() {
    let r = GatConv::new(
        2,
        4,
        2,
        Activation::Swiglu,
        Dropout::new(0.0),
        Tensor::new(&W, &Device::Cpu).unwrap(),
        Tensor::new(&[ATT_SRC], &Device::Cpu).unwrap(),
        Tensor::new(&[ATT_DST], &Device::Cpu).unwrap(),
    );
    assert!(matches!(r, Err(GnnError::GatedActivation)));
}

#[test]
fn attention_on_a_graph_without_nodes_is_empty() {
    let xs = Tensor::zeros((0, 2), candle_core::DType::F32, &Device::Cpu).unwrap();
    let edges = EdgeIndex::new(vec![], vec![]).unwrap();
    let r = conv_with(ATT_SRC, ATT_DST).forward(&xs, &edges);
    match r {
        Ok(out) => assert_eq!(out.dims(), &[0, 4]),
        Err(e) => assert!(matches!(e, GnnError::Backend(_))),
    }
}

#[test]
fn gat_stack_can_be_built_from_its_parts() {
    let model = Gat::new(vec![conv_with(ATT_SRC, ATT_DST)], Dropout::new(0.0), Activation::Relu).unwrap();
    assert_eq!(model.num_layers(), 1);
    assert!(matches!(
        Gat::new(vec![], Dropout::new(0.0), Activation::Relu),
        Err(GnnError::NoLayers)
    ));
}

#[test]
fn equal_scores_are_normalised_per_target() {
    let conv = GatConv::new(
        1,
        2,
        2,
        Activation::LeakyRelu(0.2),
        Dropout::new(0.0),
        Tensor::new(&[[1f32, 2.]], &Device::Cpu).unwrap(),
        Tensor::new(&[[[0f32], [0.]]], &Device::Cpu).unwrap(),
        Tensor::new(&[[[0f32], [0.]]], &Device::Cpu).unwrap(),
    )
    .unwrap();
    let xs = Tensor::new(&[[1f32], [2.], [3.]], &Device::Cpu).unwrap();
    let edges = EdgeIndex::new(vec![0, 1, 0, 2], vec![1, 0, 2, 0]).unwrap();
    let out = conv.forward_t(&xs, &edges, false).unwrap();
    assert_eq!(rows(&out), vec![vec![2.5, 5.], vec![1., 2.], vec![1., 2.]]);
}

#[test]
fn attend_weighs_each_head_by_its_own_attention() {
    let conv = conv_with(ATT_SRC, ATT_DST);
    // three nodes, two heads of width 2
    let h = Tensor::new(
        &[[[1f32, 2.], [3., 4.]], [[10., 20.], [30., 40.]], [[100., 200.], [300., 400.]]],
        &Device::Cpu,
    )
    .unwrap();
    // 0 -> 2 and 1 -> 2; node 0 and node 1 receive nothing
    let edges = EdgeIndex::new(vec![0, 1], vec![2, 2]).unwrap();
    let attention = Tensor::new(&[[[0.5f32], [2.]], [[0.25], [1.]]], &Device::Cpu).unwrap();
    let out = conv.attend(&h, &edges, &attention).unwrap();
    assert_eq!(
        rows(&out),
        vec![
            vec![0., 0., 0., 0.],
            vec![0., 0., 0., 0.],
            vec![0.5 + 2.5, 1. + 5., 6. + 30., 8. + 40.],
        ]
    );
}

#[test]
fn attend_refuses_what_it_cannot_aggregate() {
    let conv = conv_with(ATT_SRC, ATT_DST);
    let h = Tensor::new(&[[[1f32, 2.], [3., 4.]]], &Device::Cpu).unwrap();
    let attention = Tensor::new(&[[[1f32], [1.]]], &Device::Cpu).unwrap();
    let outside = EdgeIndex::new(vec![0], vec![1]).unwrap();
    assert!(matches!(
        conv.attend(&h, &outside, &attention),
        Err(GnnError::NodeIndexOutOfRange { num_nodes: 1 })
    ));
    let integers = Tensor::new(&[[[1u32, 2], [3, 4]]], &Device::Cpu).unwrap();
    let loops = EdgeIndex::new(vec![0], vec![0]).unwrap();
    assert!(matches!(conv.attend(&integers, &loops, &attention), Err(GnnError::NotFloatingPoint)));
    // heads of width 3 cannot be laid side by side in rows of width 4
    let wide = Tensor::new(&[[[1f32, 2., 3.], [4., 5., 6.]]], &Device::Cpu).unwrap();
    assert!(matches!(conv.attend(&wide, &loops, &attention), Err(GnnError::Backend(_))));
}

#[test]
fn layer_with_its_own_nonlinearity_applies_it_to_the_result() {
    // only node 1 sends, so node 2 gets its row: h1 = [-1, 0.5, -1.75, 2.5]
    let edges = EdgeIndex::new(vec![1], vec![2]).unwrap();
    let plain = conv_with(ATT_SRC, ATT_DST);
    let out = rows(&plain.forward(&tensor(&features()), &edges).unwrap());
    assert!(close(&[out[2].clone()], &[vec![-1., 0.5, -1.75, 2.5]]));
    let clamped = conv_with(ATT_SRC, ATT_DST).with_activation(Activation::Relu).unwrap();
    let out = rows(&clamped.forward(&tensor(&features()), &edges).unwrap());
    assert!(close(&[out[2].clone()], &[vec![0., 0.5, 0., 2.5]]));
    assert_eq!(out[0], vec![0.; 4]);
    assert_eq!(clamped.parameters().len(), 3);
}

#[test]
fn gated_nonlinearity_of_a_layer_is_refused() {
    assert!(matches!(
        conv_with(ATT_SRC, ATT_DST).with_activation(Activation::Swiglu),
        Err(GnnError::GatedActivation)
    ));
}
