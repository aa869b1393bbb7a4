use candle_core::{Device, Tensor};
use candle_gnn::datasets::{EdgeType, NodeType};
use candle_gnn::nn::aggregate::mean_agg;
use candle_gnn::nn::hetero_gcn::{apply, fitting_features, hetero_gcn, HeteroGcnConv};
use candle_gnn::nn::{EdgeIndex, GnnError, HeteroGnnModule};
use candle_nn::{Activation, Dropout};

use EdgeType::To;
use NodeType::{Author, Paper, Term};

fn t(rows: &[&[f32]]) -> Tensor {
    let rows: Vec<Vec<f32>> = rows.iter().map(|r| r.to_vec()).collect();
    Tensor::new(rows, &Device::Cpu).unwrap()
}

fn rows(t: &Tensor) -> Vec<Vec<f32>> {
    t.to_vec2::<f32>().unwrap()
}

fn eye2() -> Tensor {
    t(&[&[1., 0.], &[0., 1.]])
}

/// Two node types, one relation Author -> Paper.
fn layer() -> HeteroGcnConv<NodeType, EdgeType> {
    HeteroGcnConv::new(
        vec![(Author, t(&[&[1., 2.], &[3., 4.]])), (Paper, t(&[&[1., 0.], &[0., 1.], &[1., 1.]]))],
        vec![((Author, To, Paper), t(&[&[10., 0.], &[0., 10.]]))],
    )
    .unwrap()
}

fn features() -> Vec<(NodeType, Tensor)> {
    vec![
        (Author, t(&[&[1., 0.], &[0., 1.]])),
        (Paper, t(&[&[1., 2., 3.], &[4., 5., 6.], &[7., 8., 9.]])),
    ]
}

fn edges() -> Vec<((NodeType, EdgeType, NodeType), EdgeIndex)> {
    // author 0 -> paper 0, author 1 -> paper 0, author 1 -> paper 2
    vec![((Author, To, Paper), EdgeIndex::new(vec![0, 1, 1], vec![0, 0, 2]).unwrap())]
}

#[test]
fn relation_updates_its_target_type_only() {
    let out = layer().forward(&features(), &edges()).unwrap();
    assert_eq!(out.len(), 2);
    assert_eq!(out[0].0, Author);
    assert_eq!(out[1].0, Paper);
    // authors: root transform alone
    assert_eq!(rows(&out[0].1), vec![vec![1., 2.], vec![3., 4.]]);
    // papers: root transform [4, 5], [10, 11], [16, 17]
    // messages: author rows times 10, averaged over the incoming edges
    assert_eq!(
        rows(&out[1].1),
        vec![vec![4. + 5., 5. + 5.], vec![10., 11.], vec![16., 17. + 10.]]
    );
}

#[test]
fn untargeted_type_equals_its_root_transform() {
    let xs = features();
    let out = layer().forward(&xs, &edges()).unwrap();
    let root = xs[0].1.matmul(&t(&[&[1., 2.], &[3., 4.]])).unwrap();
    assert_eq!(rows(&out[0].1), rows(&root));
}

#[test]
fn message_passing_keeps_the_roots_of_unreached_nodes() {
    let conv = layer();
    let xs = features();
    let roots = conv.transform_roots(&xs).unwrap();
    let before: Vec<Vec<Vec<f32>>> = roots.iter().map(|(_, r)| rows(r)).collect();
    let out = conv.pass_messages(&xs, &edges(), roots).unwrap();
    assert_eq!(rows(&out[0].1), before[0]);
    assert_eq!(rows(&out[1].1)[1], before[1][1]);
    assert_ne!(rows(&out[1].1)[0], before[1][0]);
}

#[test]
fn several_relations_into_one_type_add_up() {
    let conv = HeteroGcnConv::new(
        vec![(Paper, eye2())],
        vec![((Author, To, Paper), eye2()), ((Term, To, Paper), t(&[&[2., 0.], &[0., 2.]]))],
    )
    .unwrap();
    let xs = vec![
        (Author, t(&[&[1., 1.]])),
        (Term, t(&[&[5., 7.], &[1., 1.]])),
        (Paper, t(&[&[100., 200.]])),
    ];
    let edges = vec![
        ((Author, To, Paper), EdgeIndex::new(vec![0], vec![0]).unwrap()),
        ((Term, To, Paper), EdgeIndex::new(vec![0, 1], vec![0, 0]).unwrap()),
    ];
    let out = conv.forward(&xs, &edges).unwrap();
    assert_eq!(out.len(), 1);
    // 100 + 1 + (10 + 2) / 2 and 200 + 1 + (14 + 2) / 2
    assert_eq!(rows(&out[0].1), vec![vec![107., 209.]]);
}

#[test]
fn hetero_constructor_refuses_bad_weights() {
    let twice = HeteroGcnConv::<NodeType, EdgeType>::new(vec![(Author, eye2()), (Author, eye2())], vec![]);
    assert!(matches!(twice, Err(GnnError::DuplicateKey { index: 1 })));
    let flat = HeteroGcnConv::<NodeType, EdgeType>::new(
        vec![(Author, Tensor::new(&[1f32, 2.], &Device::Cpu).unwrap())],
        vec![],
    );
    assert!(matches!(flat, Err(GnnError::Rank { expected: 2, found: 1 })));
    let unknown = HeteroGcnConv::new(vec![(Author, eye2())], vec![((Author, To, Paper), eye2())]);
    assert!(matches!(unknown, Err(GnnError::UnknownNodeType { index: 0 })));
    let narrow = HeteroGcnConv::new(
        vec![(Author, eye2()), (Paper, eye2())],
        vec![((Author, To, Paper), t(&[&[1.], &[1.]]))],
    );
    match narrow {
        Err(GnnError::ShapeMismatch { expected_dims, found_dims }) => {
            assert_eq!(expected_dims, vec![2, 2]);
            assert_eq!(found_dims, vec![2, 1]);
        }
        _ => panic!("relation weight of the wrong width was accepted"),
    }
    let repeated = HeteroGcnConv::new(
        vec![(Paper, eye2())],
        vec![((Author, To, Paper), eye2()), ((Author, To, Paper), eye2())],
    );
    assert!(matches!(repeated, Err(GnnError::DuplicateKey { index: 1 })));
}

#[test]
fn hetero_forward_refuses_input_that_does_not_fit() {
    let conv = layer();
    let no_papers = vec![(Author, t(&[&[1., 0.]]))];
    assert!(matches!(conv.forward(&no_papers, &edges()), Err(GnnError::MissingFeatures)));
    assert!(matches!(conv.forward(&features(), &vec![]), Err(GnnError::MissingEdges)));
    let mut narrow = features();
    narrow[1] = (Paper, t(&[&[1., 2.]]));
    assert!(matches!(
        conv.forward(&narrow, &edges()),
        Err(GnnError::FeatureDim { expected: 3, found: 2 })
    ));
    let mut ints = features();
    ints[0] = (Author, Tensor::new(&[[1u32, 0]], &Device::Cpu).unwrap());
    assert!(matches!(conv.forward(&ints, &edges()), Err(GnnError::NotFloatingPoint)));
    let far = vec![((Author, To, Paper), EdgeIndex::new(vec![0], vec![3]).unwrap())];
    assert!(matches!(
        conv.forward(&features(), &far),
        Err(GnnError::NodeIndexOutOfRange { num_nodes: 3 })
    ));
    let from_far = vec![((Author, To, Paper), EdgeIndex::new(vec![2], vec![0]).unwrap())];
    assert!(matches!(
        conv.forward(&features(), &from_far),
        Err(GnnError::NodeIndexOutOfRange { num_nodes: 2 })
    ));
}

#[test]
fn fitting_features_finds_the_last_entry() {
    let xs = vec![(Author, t(&[&[1., 0.]])), (Paper, t(&[&[1.]])), (Author, t(&[&[1., 0.], &[2., 0.]]))];
    assert!(matches!(fitting_features(&xs, &Author, 2), Ok((2, 2))));
    assert!(matches!(fitting_features(&xs, &Paper, 1), Ok((1, 1))));
    assert!(matches!(fitting_features(&xs, &Term, 1), Err(GnnError::MissingFeatures)));
    assert!(matches!(
        fitting_features(&xs, &Paper, 2),
        Err(GnnError::FeatureDim { expected: 2, found: 1 })
    ));
}

#[test]
fn apply_maps_every_tensor_and_keeps_the_keys() {
    let xs = features();
    let out = apply(&xs, |x: &Tensor| x.affine(2., 0.).map_err(GnnError::Backend)).unwrap();
    assert_eq!(out.len(), 2);
    assert_eq!(out[0].0, Author);
    assert_eq!(rows(&out[0].1), vec![vec![2., 0.], vec![0., 2.]]);
    assert_eq!(out[1].0, Paper);
    assert_eq!(rows(&out[1].1)[2], vec![14., 16., 18.]);
    let failed = apply(&xs, |_x: &Tensor| Err(GnnError::MissingEdges));
    assert!(matches!(failed, Err(GnnError::MissingEdges)));
    let empty: Vec<(NodeType, Tensor)> = vec![];
    assert_eq!(apply(&empty, |x: &Tensor| Ok(x.clone())).unwrap().len(), 0);
}

#[test]
fn hetero_stack_activates_between_layers() {
    // layer 1 maps authors and papers to width 2, layer 2 keeps authors only
    let first = HeteroGcnConv::new(
        vec![(Author, t(&[&[1., -1.], &[0., 1.]])), (Paper, t(&[&[1., 0.], &[0., 1.], &[0., 0.]]))],
        vec![((Paper, To, Author), t(&[&[1., 0.], &[0., 1.], &[0., 0.]]))],
    )
    .unwrap();
    let second: HeteroGcnConv<NodeType, EdgeType> = HeteroGcnConv::new(vec![(Author, eye2())], vec![]).unwrap();
    let model = hetero_gcn(vec![first, second], Activation::Relu, Dropout::new(0.0));
    let xs = features();
    let edges = vec![((Paper, To, Author), EdgeIndex::new(vec![0, 1], vec![1, 1]).unwrap())];
    let out = model.forward_t(&xs, &edges, false).unwrap();
    assert_eq!(out.len(), 1);
    assert_eq!(out[0].0, Author);
    // layer 1, authors: roots [1, -1], [0, 1]; author 1 gets the mean of papers 0 and 1: [2.5, 3.5]
    // relu: [1, 0], [2.5, 4.5]; layer 2 is the identity
    assert_eq!(rows(&out[0].1), vec![vec![1., 0.], vec![2.5, 4.5]]);
}

#[test]
fn hetero_stack_without_layers_returns_the_features() {
    let model = hetero_gcn(Vec::<HeteroGcnConv<NodeType, EdgeType>>::new(), Activation::Relu, Dropout::new(0.0));
    let xs = features();
    let out = model.forward_t(&xs, &edges(), true).unwrap();
    assert_eq!(out.len(), 2);
    assert_eq!(rows(&out[1].1), rows(&xs[1].1));
}

#[test]
fn hetero_stack_reports_what_the_first_layer_refuses() {
    let model = hetero_gcn(vec![layer()], Activation::Relu, Dropout::new(0.0));
    assert!(matches!(
        model.forward_t(&features(), &vec![], false),
        Err(GnnError::MissingEdges)
    ));
}

#[test]
fn hetero_stack_runs_through_the_module_interface() {
    let model = hetero_gcn(vec![layer()], Activation::Relu, Dropout::new(0.0));
    let direct = model.forward_t(&features(), &edges(), false).unwrap();
    let through = HeteroGnnModule::forward(&model, &features(), &edges()).unwrap();
    assert_eq!(through.len(), direct.len());
    for (a, b) in through.iter().zip(direct.iter()) {
        assert_eq!(a.0, b.0);
        assert_eq!(rows(&a.1), rows(&b.1));
    }
    let trained = HeteroGnnModule::forward_t(&model, &features(), &edges(), true).unwrap();
    assert_eq!(rows(&trained[1].1), rows(&direct[1].1));
}

#[test]
fn message_passing_is_mean_aggregation_relation_by_relation() {
    let w_author = eye2();
    let w_term = t(&[&[2., 0.], &[0., 2.]]);
    let conv = HeteroGcnConv::new(
        vec![(Paper, eye2())],
        vec![((Author, To, Paper), w_author.clone()), ((Term, To, Paper), w_term.clone())],
    )
    .unwrap();
    let xs = vec![
        (Author, t(&[&[1., 1.], &[3., 5.]])),
        (Term, t(&[&[5., 7.], &[1., 1.]])),
        (Paper, t(&[&[100., 200.], &[0.5, 0.25]])),
    ];
    let from_authors = EdgeIndex::new(vec![0, 1], vec![0, 0]).unwrap();
    let from_terms = EdgeIndex::new(vec![0, 1, 1], vec![0, 1, 1]).unwrap();
    let edges = vec![
        (
            (Author, To, Paper),
            EdgeIndex::new(from_authors.source_row().clone(), from_authors.target_row().clone()).unwrap(),
        ),
        (
            (Term, To, Paper),
            EdgeIndex::new(from_terms.source_row().clone(), from_terms.target_row().clone()).unwrap(),
        ),
    ];
    let roots = conv.transform_roots(&xs).unwrap();
    let root = roots[0].1.clone();
    let out = conv.pass_messages(&xs, &edges, roots).unwrap();
    let first = mean_agg(&xs[0].1.matmul(&w_author).unwrap(), &from_authors, &root).unwrap();
    let second = mean_agg(&xs[1].1.matmul(&w_term).unwrap(), &from_terms, &first).unwrap();
    assert_eq!(rows(&out[0].1), rows(&second));
    assert_ne!(rows(&out[0].1), rows(&root));
}

#[test]
fn check_ready_reports_the_first_check_that_fails() {
    let conv = layer();
    assert!(conv.check_ready(&features(), &edges()).is_ok());
    // papers are missing and authors hold integers: the missing features come first
    let xs = vec![(Author, Tensor::new(&[[1u32, 0]], &Device::Cpu).unwrap())];
    assert!(matches!(conv.check_ready(&xs, &edges()), Err(GnnError::MissingFeatures)));
    // authors hold integers and papers have the wrong width: the element kind comes first
    let xs = vec![
        (Author, Tensor::new(&[[1u32, 0]], &Device::Cpu).unwrap()),
        (Paper, t(&[&[1., 2.]])),
    ];
    assert!(matches!(conv.check_ready(&xs, &edges()), Err(GnnError::NotFloatingPoint)));
    // papers have the wrong width and the edge list is missing: the width comes first
    let xs = vec![(Author, t(&[&[1., 0.]])), (Paper, t(&[&[1., 2.]]))];
    assert!(matches!(
        conv.check_ready(&xs, &vec![]),
        Err(GnnError::FeatureDim { expected: 3, found: 2 })
    ));
    let flat = vec![(Author, Tensor::new(&[1f32, 0.], &Device::Cpu).unwrap()), (Paper, t(&[&[1., 2., 3.]]))];
    assert!(matches!(
        conv.check_ready(&flat, &edges()),
        Err(GnnError::Rank { expected: 2, found: 1 })
    ));
}

#[test]
fn hetero_constructor_says_where_it_failed() {
    let twice = HeteroGcnConv::<NodeType, EdgeType>::new(
        vec![(Author, eye2()), (Paper, eye2()), (Author, eye2())],
        vec![],
    );
    assert!(matches!(twice, Err(GnnError::DuplicateKey { index: 2 })));
    let unknown = HeteroGcnConv::new(
        vec![(Author, eye2())],
        vec![((Paper, To, Author), eye2()), ((Author, To, Paper), eye2())],
    );
    assert!(matches!(unknown, Err(GnnError::UnknownNodeType { index: 1 })));
}

#[test]
fn hetero_stack_reports_what_a_later_layer_refuses() {
    let first = || {
        HeteroGcnConv::<NodeType, EdgeType>::new(vec![(Author, t(&[&[1., -1.], &[0., 1.]]))], vec![]).unwrap()
    };
    // the first layer returns authors of width 2; the second takes width 3
    let wide = HeteroGcnConv::new(vec![(Author, t(&[&[1., 0.], &[0., 1.], &[1., 1.]]))], vec![]).unwrap();
    let model = hetero_gcn(vec![first(), wide], Activation::Relu, Dropout::new(0.0));
    assert!(matches!(
        model.forward_t(&features(), &vec![], false),
        Err(GnnError::FeatureDim { expected: 3, found: 2 })
    ));
    // the first layer returns no terms; the second asks for them
    let terms = HeteroGcnConv::new(vec![(Term, eye2())], vec![]).unwrap();
    let model = hetero_gcn(vec![first(), terms], Activation::Relu, Dropout::new(0.0));
    assert!(matches!(model.forward_t(&features(), &vec![], false), Err(GnnError::MissingFeatures)));
}
