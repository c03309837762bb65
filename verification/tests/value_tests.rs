use sgf::collection::Collection;
use sgf::errors::SgfErrorKind;
use sgf::property::{Color, Property, PropertyValue};

#[test]
fn escaped_bracket_is_decoded_verbatim() {
    let val = Property::get_prop_val("C", "a\\]b").unwrap();
    assert_eq!(val, PropertyValue::Text(String::from("a]b")));
}

#[test]
fn unescaped_line_break_collapses_to_one_space() {
    let val = Property::get_prop_val("PB", "a\nb").unwrap();
    assert_eq!(val, PropertyValue::SimpleText(String::from("a b")));
}

#[test]
fn escaped_line_break_is_removed() {
    let val = Property::get_prop_val("PB", "a\\\nb").unwrap();
    assert_eq!(val, PropertyValue::SimpleText(String::from("ab")));
}

#[test]
fn escaped_line_break_is_removed_for_text_too() {
    let val = Property::get_prop_val("C", "a\\\r\nb").unwrap();
    assert_eq!(val, PropertyValue::Text(String::from("ab")));
}

#[test]
fn whitespace_runs_collapse_only_in_simple_text() {
    let simple = Property::get_prop_val("PB", "a \t b").unwrap();
    assert_eq!(simple, PropertyValue::SimpleText(String::from("a b")));

    let hard = Property::get_prop_val("C", "a\r\nb").unwrap();
    assert_eq!(hard, PropertyValue::Text(String::from("a\nb")));
}

#[test]
fn escaped_bracket_survives_a_full_parse() {
    let (collection, _warnings) = Collection::new("(;C[a\\]b])").unwrap();
    let node = &collection.game_trees[0].sequence[0];
    assert_eq!(node.properties[0].values[0], PropertyValue::Text(String::from("a]b")));
}

#[test]
fn ff_value_below_range_is_rejected() {
    assert!(Property::parse("FF[0]").is_err());
}

#[test]
fn ff_value_above_range_is_rejected() {
    assert!(Property::parse("FF[5]").is_err());
}

#[test]
fn ff_value_that_is_no_number_is_rejected() {
    let err = Property::parse("FF[abcde]").unwrap_err();
    assert_eq!(err.kind, SgfErrorKind::ValueValidationError);
    assert_eq!(err.identifier, "FF");
    assert_eq!(err.detail, "abcde");
}

#[test]
fn ff_empty_value_is_rejected() {
    let err = Property::parse("FF[]").unwrap_err();
    assert_eq!(err.kind, SgfErrorKind::ValueValidationError);
    assert_eq!(err.detail, "");
}

#[test]
fn ff_huge_value_is_rejected() {
    assert!(Property::parse("FF[99999999999999999999]").is_err());
}

#[test]
fn signed_numbers_are_read() {
    let val = Property::get_prop_val("FF", "+4").unwrap();
    assert_eq!(val, PropertyValue::Number(4, 1, 4));

    // A minus sign is refused on whole numbers, even for zero.
    assert!(Property::get_prop_val("FF", "-0").is_err());
    let err = Property::parse("FF[-2]").unwrap_err();
    assert_eq!(err.kind, SgfErrorKind::ValueValidationError);
}

#[test]
fn composed_value_splits_at_the_separator() {
    let val = Property::get_prop_val("AP", "windows:95").unwrap();
    assert_eq!(
        val,
        PropertyValue::Compose(
            Box::new(PropertyValue::SimpleText(String::from("windows"))),
            Box::new(PropertyValue::SimpleText(String::from("95"))),
        )
    );
}

#[test]
fn composed_value_without_separator_is_rejected() {
    let err = Collection::new("(;AP[windows])").unwrap_err();
    assert_eq!(err.kind, SgfErrorKind::ValueValidationError);
    assert_eq!(err.identifier, "AP");
    assert_eq!(err.detail, "windows");
}

#[test]
fn escaped_separator_is_ordinary_text() {
    let val = Property::get_prop_val("AP", "a\\::b").unwrap();
    assert_eq!(
        val,
        PropertyValue::Compose(
            Box::new(PropertyValue::SimpleText(String::from("a:"))),
            Box::new(PropertyValue::SimpleText(String::from("b"))),
        )
    );
}

#[test]
fn value_less_identifier_takes_an_empty_bracket_pair() {
    let (collection, _warnings) = Collection::new("(;KO[])").unwrap();
    let node = &collection.game_trees[0].sequence[0];
    assert_eq!(node.properties[0].values[0], PropertyValue::Empty);

    let err = Collection::new("(;KO[x])").unwrap_err();
    assert_eq!(err.kind, SgfErrorKind::ValueValidationError);
}

#[test]
fn color_tokens_are_the_two_colors() {
    assert_eq!(
        Property::get_prop_val("PL", "B").unwrap(),
        PropertyValue::Color(Color::Black)
    );
    assert_eq!(
        Property::get_prop_val("PL", "W").unwrap(),
        PropertyValue::Color(Color::White)
    );
    let err = Collection::new("(;PL[x])").unwrap_err();
    assert_eq!(err.kind, SgfErrorKind::ValueValidationError);
    assert_eq!(err.identifier, "PL");
}

#[test]
fn double_is_normal_or_emphasized() {
    assert_eq!(Property::get_prop_val("GB", "1").unwrap(), PropertyValue::Double(false));
    assert_eq!(Property::get_prop_val("GB", "2").unwrap(), PropertyValue::Double(true));
    let err = Collection::new("(;GB[3])").unwrap_err();
    assert_eq!(err.kind, SgfErrorKind::ValueValidationError);
}

#[test]
fn real_values_must_be_decimal_text() {
    let (collection, _warnings) = Collection::new("(;KM[6.5])").unwrap();
    let node = &collection.game_trees[0].sequence[0];
    assert_eq!(node.properties[0].values[0], PropertyValue::Real(String::from("6.5")));

    assert!(Collection::new("(;KM[-0.5])").is_ok());
    assert!(Collection::new("(;KM[7])").is_ok());
    assert!(Collection::new("(;KM[7.])").is_err());
    assert!(Collection::new("(;KM[.5])").is_err());
    assert!(Collection::new("(;KM[x])").is_err());
}

#[test]
fn validate_checks_the_number_range() {
    assert!(PropertyValue::Number(3, 1, 4).validate().is_ok());
    let err = PropertyValue::Number(5, 1, 4).validate().unwrap_err();
    assert_eq!(err.kind, SgfErrorKind::ValueValidationError);
    assert_eq!(err.detail, "5 not in range 1 to 4");
}

#[test]
fn validate_names_the_offending_decimal_text() {
    let err = PropertyValue::Real(String::from("12.")).validate().unwrap_err();
    assert_eq!(err.detail, "12.");
}

#[test]
fn validate_checks_both_halves_of_a_composed_value() {
    let good = PropertyValue::Compose(
        Box::new(PropertyValue::Number(3, 1, 4)),
        Box::new(PropertyValue::SimpleText(String::from("x"))),
    );
    assert!(good.validate().is_ok());

    let bad_half = PropertyValue::Compose(
        Box::new(PropertyValue::SimpleText(String::from("x"))),
        Box::new(PropertyValue::Number(9, 1, 4)),
    );
    let err = bad_half.validate().unwrap_err();
    assert_eq!(err.detail, "9 not in range 1 to 4");
}

#[test]
fn validate_rejects_a_nested_composed_value() {
    let inner = PropertyValue::Compose(
        Box::new(PropertyValue::Number(9, 1, 4)),
        Box::new(PropertyValue::SimpleText(String::from("x"))),
    );
    let nested = PropertyValue::Compose(
        Box::new(inner),
        Box::new(PropertyValue::SimpleText(String::from("y"))),
    );
    let err = nested.validate().unwrap_err();
    assert_eq!(err.kind, SgfErrorKind::ValueValidationError);
    assert_eq!(err.detail, "composed value inside a composed value");
}

#[test]
fn validate_checks_decimal_text() {
    assert!(PropertyValue::Real(String::from("-12.25")).validate().is_ok());
    assert!(PropertyValue::Real(String::from("12.")).validate().is_err());
}

#[test]
fn get_prop_val_keeps_unknown_identifiers_as_text() {
    let val = Property::get_prop_val("ZZ", "anything").unwrap();
    assert_eq!(val, PropertyValue::Text(String::from("anything")));
}

#[test]
fn board_size_uses_its_own_range() {
    let (collection, _warnings) = Collection::new("(;SZ[19])").unwrap();
    let node = &collection.game_trees[0].sequence[0];
    assert_eq!(node.properties[0].values[0], PropertyValue::Number(19, 1, 52));

    assert!(Collection::new("(;SZ[53])").is_err());
}
