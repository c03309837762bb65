use sgf::collection::Collection;
use sgf::errors::SgfErrorKind;
use sgf::game_tree::GameTree;
use sgf::node::Node;
use sgf::property::{Property, PropertyValue};

#[test]
fn can_parse_multiple_game_trees() {
    // Letters at tree level stand outside any node: a structural error.
    let content = "( ab ) ( cd )";
    let result = Collection::new(content);

    assert!(result.is_err());
    let err = result.unwrap_err();
    assert_eq!(err.kind, SgfErrorKind::StructuralError);
    assert_eq!(err.offset, 3);
}

#[test]
fn can_parse_single_game_tree() {
    let content = "(;FF[4])";
    let tree = GameTree::parse(content).unwrap().0;

    let node = tree.sequence.get(0).unwrap();
    assert_eq!(node.properties.len(), 1);

    let prop = node.properties.get(0).unwrap();
    assert_eq!(prop.id, "FF");
}

#[test]
fn can_parse_nested_game_tree() {
    let content = "(;FF[4] (;AP[windows:95]))";
    let tree = GameTree::parse(content).unwrap().0;

    assert_eq!(tree.leaves.len(), 1);

    let nested = tree.leaves.get(0).unwrap();

    assert_eq!(nested.leaves.len(), 0);
}

#[test]
fn can_parse_node_single_property() {
    let content = ";FF[4]";
    let node = Node::parse(content).unwrap().0;

    assert_eq!(node.properties.len(), 1);

    let prop = node.properties.get(0).unwrap();

    assert_eq!(prop.id, "FF");
}

#[test]
fn can_parse_node_multiple_property() {
    // The same identifier twice in one node is fatal.
    let content = ";FF[1][2]FF[3]";
    let result = Node::parse(content);

    assert!(result.is_err());
    let err = result.unwrap_err();
    assert_eq!(err.kind, SgfErrorKind::DuplicatePropertyError);
    assert_eq!(err.identifier, "FF");
}

#[test]
fn can_parse_property() {
    let content = "FF[4]";
    let property = Property::parse(content).unwrap().0;

    assert_eq!(property.id, "FF");

    assert_eq!(property.values.len(), 1);

    let val = property.values.get(0).unwrap();
    assert_eq!(*val, PropertyValue::Number(4, 1, 4))
}

#[test]
fn can_parse_property_multiple_value() {
    let content = "FF[1][2][3][4]";
    let property = Property::parse(content).unwrap().0;

    assert_eq!(property.id, "FF");

    assert_eq!(property.values.len(), 4);

    for i in 0..4 {
        assert_eq!(
            *property.values.get(i).unwrap(),
            PropertyValue::Number((i + 1) as u32, 1, 4)
        )
    }
}

#[test]
fn minimal_document_is_one_tree_with_one_empty_node() {
    let (collection, warnings) = Collection::new("(;)").unwrap();

    assert_eq!(collection.game_trees.len(), 1);
    let tree = collection.game_trees.get(0).unwrap();
    assert_eq!(tree.sequence.len(), 1);
    assert_eq!(tree.leaves.len(), 0);
    assert_eq!(tree.sequence.get(0).unwrap().properties.len(), 0);
    assert_eq!(warnings.len(), 0);
}

#[test]
fn ff_four_is_a_number_in_its_declared_range() {
    let (collection, warnings) = Collection::new("(;FF[4])").unwrap();

    assert_eq!(collection.game_trees.len(), 1);
    let tree = collection.game_trees.get(0).unwrap();
    assert_eq!(tree.sequence.len(), 1);
    let node = tree.sequence.get(0).unwrap();
    assert_eq!(node.properties.len(), 1);
    let prop = node.properties.get(0).unwrap();
    assert_eq!(prop.id, "FF");
    assert_eq!(prop.values, vec![PropertyValue::Number(4, 1, 4)]);
    assert_eq!(warnings.len(), 0);
}

#[test]
fn ff_five_fails_validation_naming_identifier_and_value() {
    let err = Collection::new("(;FF[5])").unwrap_err();

    assert_eq!(err.kind, SgfErrorKind::ValueValidationError);
    assert_eq!(err.identifier, "FF");
    assert_eq!(err.detail, "5");
    assert_eq!(err.offset, 5);
}

#[test]
fn two_variations_are_collected_in_encountered_order() {
    let (collection, _warnings) = Collection::new("(;FF[4](;B[aa])(;B[bb]))").unwrap();

    assert_eq!(collection.game_trees.len(), 1);
    let tree = collection.game_trees.get(0).unwrap();
    assert_eq!(tree.sequence.len(), 1);
    assert_eq!(tree.leaves.len(), 2);

    let first = tree.leaves.get(0).unwrap();
    assert_eq!(first.sequence.len(), 1);
    assert_eq!(first.leaves.len(), 0);
    assert_eq!(
        first.sequence[0].properties[0].values[0],
        PropertyValue::Move(String::from("aa"))
    );

    let second = tree.leaves.get(1).unwrap();
    assert_eq!(second.sequence.len(), 1);
    assert_eq!(second.leaves.len(), 0);
    assert_eq!(
        second.sequence[0].properties[0].values[0],
        PropertyValue::Move(String::from("bb"))
    );
}

#[test]
fn two_top_level_trees_in_input_order() {
    let (collection, _warnings) = Collection::new("(;FF[1])(;FF[2])").unwrap();

    assert_eq!(collection.game_trees.len(), 2);
    let first = collection.game_trees.get(0).unwrap();
    let second = collection.game_trees.get(1).unwrap();
    assert_eq!(
        first.sequence[0].properties[0].values[0],
        PropertyValue::Number(1, 1, 4)
    );
    assert_eq!(
        second.sequence[0].properties[0].values[0],
        PropertyValue::Number(2, 1, 4)
    );
}

#[test]
fn duplicate_property_in_one_node_is_fatal() {
    let err = Collection::new("(;FF[1]FF[2])").unwrap_err();

    assert_eq!(err.kind, SgfErrorKind::DuplicatePropertyError);
    assert_eq!(err.identifier, "FF");
}

#[test]
fn parsing_twice_yields_identical_trees_and_warnings() {
    let content = "(;FF[4]XX[opaque](;B[aa])(;W[bb]))";
    let first = Collection::new(content).unwrap();
    let second = Collection::new(content).unwrap();

    assert_eq!(first.0, second.0);
    assert_eq!(first.1, second.1);
}

#[test]
fn unknown_identifier_warns_and_keeps_the_text() {
    let (collection, warnings) = Collection::new("(;XX[1])").unwrap();

    assert_eq!(warnings.len(), 1);
    assert_eq!(warnings[0].identifier, "XX");
    assert_eq!(warnings[0].offset, 3);
    let node = &collection.game_trees[0].sequence[0];
    assert_eq!(node.properties[0].values[0], PropertyValue::Text(String::from("1")));
}

#[test]
fn unknown_identifiers_warn_in_document_order() {
    let (_collection, warnings) = Collection::new("(;XA[1]XB[2])").unwrap();

    assert_eq!(warnings.len(), 2);
    assert_eq!(warnings[0].identifier, "XA");
    assert_eq!(warnings[1].identifier, "XB");
}

#[test]
fn unterminated_tree_is_a_structural_error() {
    let err = Collection::new("(;FF[4]").unwrap_err();

    assert_eq!(err.kind, SgfErrorKind::StructuralError);
    assert_eq!(err.detail, "unterminated game tree");
    assert_eq!(err.offset, 8);
}

#[test]
fn unterminated_value_is_a_structural_error() {
    let err = Collection::new("(;C[ab").unwrap_err();

    assert_eq!(err.kind, SgfErrorKind::StructuralError);
    assert_eq!(err.detail, "unterminated property value");
}

#[test]
fn stray_character_at_document_level_is_fatal() {
    let err = Collection::new("x(;)").unwrap_err();

    assert_eq!(err.kind, SgfErrorKind::StructuralError);
    assert_eq!(err.detail, "unexpected character at document level");
    assert_eq!(err.offset, 1);
}

#[test]
fn property_without_values_is_fatal() {
    let err = Collection::new("(;FF)").unwrap_err();

    assert_eq!(err.kind, SgfErrorKind::StructuralError);
    assert_eq!(err.detail, "property has no values");
    assert_eq!(err.identifier, "FF");
}

#[test]
fn strict_tree_parse_requires_the_closing_delimiter() {
    let err = GameTree::parse("(;FF[4]").unwrap_err();
    assert_eq!(err.kind, SgfErrorKind::StructuralError);
    assert_eq!(err.detail, "unterminated game tree");

    let ok = GameTree::parse("(;B[aa]) and beyond").unwrap();
    assert_eq!(ok.1, 8);
    assert_eq!(ok.0.sequence.len(), 1);
}

#[test]
fn lenient_tree_parse_closes_at_end_of_input() {
    let (tree, consumed, _warnings) = GameTree::parse_lenient("(;FF[4]").unwrap();

    assert_eq!(tree.sequence.len(), 1);
    assert_eq!(consumed, 7);
}

#[test]
fn tree_parse_requires_the_opening_delimiter() {
    let err = GameTree::parse(";FF[4])").unwrap_err();
    assert_eq!(err.kind, SgfErrorKind::StructuralError);
    assert_eq!(err.detail, "expected an opening delimiter");
    assert_eq!(err.offset, 1);
}

#[test]
fn degenerate_tree_is_valid_and_consumes_both_delimiters() {
    let (tree, consumed, _warnings) = GameTree::parse("()").unwrap();

    assert_eq!(tree.sequence.len(), 0);
    assert_eq!(tree.leaves.len(), 0);
    assert_eq!(consumed, 2);
}

#[test]
fn tree_parse_consumes_through_the_matching_delimiter() {
    // Only the balanced prefix is consumed; the caller sees the rest.
    let (tree, consumed, _warnings) = GameTree::parse("())").unwrap();

    assert_eq!(tree.sequence.len(), 0);
    assert_eq!(consumed, 2);
}

#[test]
fn sibling_variations_are_collected_by_the_tree_parser() {
    let (tree, consumed, _warnings) = GameTree::parse("(;(;)(;))").unwrap();

    assert_eq!(tree.sequence.len(), 1);
    assert_eq!(tree.sequence[0].properties.len(), 0);
    assert_eq!(tree.leaves.len(), 2);
    assert_eq!(consumed, 9);
}

#[test]
fn node_parse_requires_the_leading_marker() {
    let err = Node::parse("FF[4]").unwrap_err();
    assert_eq!(err.kind, SgfErrorKind::StructuralError);
    assert_eq!(err.detail, "expected a node marker");
    assert_eq!(err.offset, 1);
}

#[test]
fn empty_node_ends_at_the_next_marker() {
    let (node, consumed, _warnings) = Node::parse(";;").unwrap();

    assert_eq!(node.properties.len(), 0);
    assert_eq!(consumed, 1);
}

#[test]
fn duplicate_property_is_caught_by_the_node_parser() {
    let err = Node::parse(";FF[1]FF[2]").unwrap_err();

    assert_eq!(err.kind, SgfErrorKind::DuplicatePropertyError);
    assert_eq!(err.identifier, "FF");
}

#[test]
fn node_parse_stops_before_the_next_marker() {
    let (node, consumed, _warnings) = Node::parse(";FF[4];B[aa]").unwrap();

    assert_eq!(node.properties.len(), 1);
    assert_eq!(consumed, 6);
}

#[test]
fn sibling_nodes_form_the_sequence() {
    let (collection, _warnings) = Collection::new("(;FF[4];B[aa])").unwrap();

    let tree = collection.game_trees.get(0).unwrap();
    assert_eq!(tree.sequence.len(), 2);
    assert_eq!(tree.leaves.len(), 0);
}
