use candle_gnn::datasets::{CompressionFormat, EdgeType, NodeType};
use candle_gnn::nn::typed::{find_key, find_relation, lookup_dim, same_relation, TypeKey};
use candle_gnn::nn::weights::{attention_shapes, check_heads, edge_weight_shapes, node_weight_shapes, stack_shapes};
use candle_gnn::utils::mask_to_index;

use EdgeType::To;
use NodeType::{Author, Conference, Paper, Term};

#[test]
fn mask_to_index_lists_the_set_positions() {
    assert_eq!(mask_to_index(&[0, 1, 0, 0, 2, 255]), vec![1, 4, 5]);
    assert_eq!(mask_to_index(&[0, 0]), Vec::<u32>::new());
    assert_eq!(mask_to_index(&[]), Vec::<u32>::new());
    assert_eq!(mask_to_index(&[1, 1, 1]), vec![0, 1, 2]);
}

#[test]
fn node_and_edge_types_have_names() {
    assert_eq!(Author.name(), "author");
    assert_eq!(Paper.name(), "paper");
    assert_eq!(Term.name(), "term");
    assert_eq!(Conference.name(), "conference");
    assert_eq!(To.name(), "to");
}

#[test]
fn type_keys_compare_by_identity() {
    assert!(Author.same(&Author));
    assert!(!Author.same(&Paper));
    assert!(To.same(&To));
    assert!(same_relation(&(Author, To, Paper), &(Author, To, Paper)));
    assert!(!same_relation(&(Author, To, Paper), &(Paper, To, Author)));
}

#[test]
fn compression_formats_are_distinct() {
    assert_ne!(CompressionFormat::Zip, CompressionFormat::Tgz);
}

#[test]
fn lookups_take_the_last_entry_for_a_key() {
    let dims = [(Author, 3usize), (Paper, 5), (Author, 7)];
    assert_eq!(lookup_dim(&dims, &Author), Some(7));
    assert_eq!(lookup_dim(&dims, &Paper), Some(5));
    assert_eq!(lookup_dim(&dims, &Term), None);
    assert_eq!(find_key(&dims, &Author), Some(2));
    let relations = [((Author, To, Paper), 1u8), ((Paper, To, Author), 2)];
    assert_eq!(find_relation(&relations, &(Paper, To, Author)), Some(1));
    assert_eq!(find_relation(&relations, &(Paper, To, Term)), None);
}

#[test]
fn stack_shapes_pair_consecutive_sizes() {
    assert_eq!(stack_shapes(&[1433, 16, 7]), vec![(1433, 16), (16, 7)]);
    assert_eq!(stack_shapes(&[4]), Vec::<(usize, usize)>::new());
}

#[test]
fn attention_shapes_split_the_output_into_heads() {
    assert!(check_heads(&[1433, 128, 7], &[8, 1]));
    assert_eq!(
        attention_shapes(&[1433, 128, 7], &[8, 1]),
        vec![(1433, 128, 8, 16), (128, 7, 1, 7)]
    );
}

#[test]
fn heads_must_divide_the_output_width() {
    assert!(!check_heads(&[4, 6], &[4]));
    assert!(!check_heads(&[4, 6], &[0]));
    assert!(!check_heads(&[4, 6, 2], &[3]));
    assert!(!check_heads(&[], &[]));
    assert!(check_heads(&[4], &[]));
}

#[test]
fn node_weights_follow_the_declared_widths() {
    let in_dims = [(Author, 334usize), (Paper, 4231), (Term, 50), (Conference, 20)];
    let out_dims = [(Author, 128usize), (Paper, 64)];
    assert_eq!(
        node_weight_shapes(&in_dims, &out_dims),
        vec![(Author, (334, 128)), (Paper, (4231, 64))]
    );
}

#[test]
fn a_later_declaration_replaces_an_earlier_one() {
    let in_dims = [(Author, 3usize), (Author, 5)];
    let out_dims = [(Author, 7usize), (Author, 11)];
    assert_eq!(node_weight_shapes(&in_dims, &out_dims), vec![(Author, (5, 11))]);
}

#[test]
fn relations_without_declared_widths_get_no_weight() {
    let in_dims = [(Author, 334usize), (Paper, 4231)];
    let out_dims = [(Author, 4usize)];
    let edge_types = [
        (Author, To, Paper),
        (Paper, To, Author),
        (Term, To, Author),
        (Paper, To, Author),
    ];
    // only relations into Author have an output width; Term has no input width
    assert_eq!(
        edge_weight_shapes(&in_dims, &out_dims, &edge_types),
        vec![((Paper, To, Author), (4231, 4))]
    );
}

#[test]
fn every_declared_relation_gets_a_weight() {
    let dims = [(Author, 2usize), (Paper, 3)];
    let edge_types = [(Author, To, Paper), (Paper, To, Author)];
    assert_eq!(
        edge_weight_shapes(&dims, &dims, &edge_types),
        vec![((Author, To, Paper), (2, 3)), ((Paper, To, Author), (3, 2))]
    );
}
