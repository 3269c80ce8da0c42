//! Pure text, number and geometry helpers.

use eve_ui_tree::text;
use eve_ui_tree::values::DecodedValue;
use eve_ui_tree::values::IntWrapper;
use eve_ui_tree::ui_utils::extract_int_from_int_or_string;
use eve_ui_tree::parser_utils::ParserUtils;
use eve_ui_tree::python_type_extractor::PythonTypeExtractor;
use eve_ui_tree::display_region::DisplayRegion;
use eve_ui_tree::display_region::clamped_add_i32;
use eve_ui_tree::ExtractError;

#[test]
fn numeric_decode_accepts_string_int_and_wrapper() {
    // A numeric string, a 32-bit wrapper and a collapsing 64-bit wrapper
    // all read as the same number.
    assert_eq!(extract_int_from_int_or_string(&DecodedValue::Str(String::from("123"))), Some(123));
    assert_eq!(
        extract_int_from_int_or_string(&DecodedValue::Int(IntWrapper::new_from_i32(123))),
        Some(123)
    );
    assert_eq!(
        extract_int_from_int_or_string(&DecodedValue::Int(IntWrapper::new_from_i64(123))),
        Some(123)
    );
    // A non-numeric string yields nothing rather than failing.
    assert_eq!(extract_int_from_int_or_string(&DecodedValue::Str(String::from("12a"))), None);
    assert_eq!(extract_int_from_int_or_string(&DecodedValue::Bool(true)), None);
    // A 64-bit value out of 32-bit range yields nothing.
    assert_eq!(
        extract_int_from_int_or_string(&DecodedValue::Int(IntWrapper::new_from_i64(1 << 40))),
        None
    );
}

#[test]
fn int_wrapper_getters() {
    assert_eq!(IntWrapper::new_from_i32(-5).get_i64(), -5);
    assert_eq!(IntWrapper::new_from_i32(-5).get_i32(), Some(-5));
    assert_eq!(IntWrapper::new_from_i64(1 << 40).get_i32(), None);
    assert_eq!(IntWrapper::new_from_i64(7).get_i32(), Some(7));
}

#[test]
fn parse_signed_integers() {
    assert_eq!(text::parse_i32_str("123"), Some(123));
    assert_eq!(text::parse_i32_str("-45"), Some(-45));
    assert_eq!(text::parse_i32_str("+7"), Some(7));
    assert_eq!(text::parse_i32_str("2147483647"), Some(i32::MAX));
    assert_eq!(text::parse_i32_str("-2147483648"), Some(i32::MIN));
    assert_eq!(text::parse_i32_str("2147483648"), None);
    assert_eq!(text::parse_i32_str(""), None);
    assert_eq!(text::parse_i32_str("-"), None);
    assert_eq!(text::parse_i32_str("1 2"), None);
}

#[test]
fn distance_parsing() {
    assert_eq!(
        ParserUtils::parse_overview_entry_distance_in_meters_from_text(&Some(String::from("150 m"))),
        150
    );
    assert_eq!(
        ParserUtils::parse_overview_entry_distance_in_meters_from_text(&Some(String::from(
            "2.290 km"
        ))),
        2290000
    );
    assert_eq!(
        ParserUtils::parse_overview_entry_distance_in_meters_from_text(&Some(String::from(
            "  12 km  "
        ))),
        12000
    );
    // Too far away, malformed, or missing: -1.
    assert_eq!(
        ParserUtils::parse_overview_entry_distance_in_meters_from_text(&Some(String::from(
            "5 au"
        ))),
        -1
    );
    assert_eq!(
        ParserUtils::parse_overview_entry_distance_in_meters_from_text(&Some(String::from("150"))),
        -1
    );
    assert_eq!(ParserUtils::parse_overview_entry_distance_in_meters_from_text(&None), -1);
    assert_eq!(
        ParserUtils::parse_overview_entry_distance_in_meters_from_text(&Some(String::from(
            "x km"
        ))),
        -1
    );
    // A product past the 32-bit range reads as missing.
    assert_eq!(
        ParserUtils::parse_overview_entry_distance_in_meters_from_text(&Some(String::from(
            "2147484 km"
        ))),
        -1
    );
}

#[test]
fn distance_units() {
    assert_eq!(ParserUtils::parse_distance_unit_in_meters("m"), Some(1));
    assert_eq!(ParserUtils::parse_distance_unit_in_meters("km"), Some(1000));
    assert_eq!(ParserUtils::parse_distance_unit_in_meters("au"), None);
}

#[test]
fn number_with_dot_separators() {
    assert_eq!(
        ParserUtils::parse_number_truncating_after_optional_decimal_separator("2.290"),
        Ok(2290)
    );
    assert!(matches!(
        ParserUtils::parse_number_truncating_after_optional_decimal_separator("2,290"),
        Err(ExtractError::DecodeFailure)
    ));
}

#[test]
fn case_folding_and_search() {
    assert_eq!(text::ascii_lowercase("BasicDynamicScroll").as_str(), "basicdynamicscroll");
    assert!(text::str_contains("the BasicDynamicScroll widget", "BasicDynamicScroll"));
    assert!(!text::str_contains("short", "longer needle"));
    assert!(text::str_contains("anything", ""));
    assert!(text::str_starts_with("entry_12", "entry_"));
    assert!(!text::str_starts_with("item_12", "entry_"));
}

#[test]
fn interest_allow_list() {
    assert!(PythonTypeExtractor::is_key_of_interest("_displayX"));
    assert!(PythonTypeExtractor::is_key_of_interest("children"));
    assert!(PythonTypeExtractor::is_key_of_interest("_color"));
    assert!(!PythonTypeExtractor::is_key_of_interest("_privateThing"));
}

#[test]
fn display_region_edges() {
    let region = DisplayRegion::new(10, 20, 30, 40);
    assert_eq!(region.right(), 40);
    assert_eq!(region.bottom(), 60);
    assert_eq!(clamped_add_i32(i32::MAX, 1), i32::MAX);
    assert_eq!(clamped_add_i32(i32::MIN, -1), i32::MIN);
    assert_eq!(clamped_add_i32(5, 7), 12);
    let translated = region.translated_by(100, 200);
    assert_eq!(translated, DisplayRegion { x: 110, y: 220, width: 30, height: 40 });
}

#[test]
fn header_alignment_rule() {
    let header = DisplayRegion::new(100, 0, 50, 10);
    let under = DisplayRegion::new(100, 20, 50, 10);
    let elsewhere = DisplayRegion::new(200, 20, 50, 10);
    assert!(ParserUtils::header_region_matches_cell_region(&header, &under));
    assert!(!ParserUtils::header_region_matches_cell_region(&header, &elsewhere));
}
