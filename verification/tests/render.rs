//! Tests of indentation, value formatting, option lists and the generic
//! representation helpers.

use scadman::Identifier;
use scadman::ScadDisplay;
use scadman::ScadObjectDimensionType;
use scadman::ScadObjectTrait;
use scadman::ScadOption;
use scadman::format_number;
use scadman::generate_sentence_repr;
use scadman::indent_str;
use scadman::object::block_repr;
use scadman::object::modifier_repr;
use scadman::object::primitive_repr;

#[test]
fn test_indent_str() {
    assert_eq!(indent_str("hello\nworld!\n", 3), "   hello\n   world!\n");
    assert_eq!(indent_str("   hello\n  world!", 2), "     hello\n    world!");
    assert_eq!(indent_str("\n\n\n", 1), " \n \n \n");
}

/// A stand-in sentence: an [`Identifier`] renders its text as it is, so it
/// serves where the original mocks a display value.
fn mock_display(text: &str) -> Identifier {
    Identifier(text.to_string())
}

/// A stand-in object whose rendered code is exactly the given statement
/// text followed by `";\n"`.
fn mock_statement(body: &str) -> scadman::ScadObject {
    scadman::primitive_2d(body.to_string())
}

/// A stand-in object rendering as a plain modifier line over a statement.
fn mock_modifier(head: &str, body: &str) -> scadman::ScadObject {
    scadman::modifier_2d(
        scadman::ScadModifierBody::Sentence(scadman::ScadModifierSentence {
            body: head.to_string(),
            children_type: ScadObjectDimensionType::Object2D,
        }),
        mock_statement(body),
    )
}

#[test]
fn test_primitive_repr() {
    assert_eq!(primitive_repr(&mock_display("prim()")), "prim();\n");
}

#[test]
fn test_modifier_repr() {
    let prim = mock_statement("prim()");
    assert_eq!(prim.to_code(), "prim();\n");
    assert_eq!(
        modifier_repr(&mock_display("mod()"), &prim),
        "mod()\n  prim();\n"
    );
    let nested = mock_modifier("mod2()", "prim()");
    assert_eq!(nested.to_code(), "mod2()\n  prim();\n");
    assert_eq!(
        modifier_repr(&mock_display("mod()"), &nested),
        "mod()\n  mod2()\n    prim();\n"
    );
    let block = scadman::block_2d(vec![mock_statement("prim1()"), mock_statement("prim2()")]);
    assert_eq!(block.to_code(), "{\n  prim1();\n  prim2();\n}\n");
    assert_eq!(
        modifier_repr(&mock_display("mod()"), &block),
        "mod() {\n  prim1();\n  prim2();\n}\n"
    );
    let commented = scadman::block_2d_commented(
        vec![mock_statement("prim1()"), mock_statement("prim2()")],
        "comment",
    );
    assert_eq!(
        commented.to_code(),
        "/* comment */\n{\n  prim1();\n  prim2();\n}\n"
    );
    assert_eq!(
        modifier_repr(&mock_display("mod()"), &commented),
        "mod()\n  /* comment */\n  {\n    prim1();\n    prim2();\n  }\n"
    );
}

#[test]
fn test_block_repr() {
    assert_eq!(
        block_repr(&[mock_statement("prim1()"), mock_modifier("mod()", "prim2()")]),
        "{\n  prim1();\n  mod()\n    prim2();\n}\n"
    );
}

#[test]
fn test_scad_option() {
    assert_eq!(
        ScadOption::from_key_value("key", false),
        ScadOption::KeyValue(("key".to_string(), "false".to_string()))
    );
    assert_eq!(
        ScadOption::from_key_value("", true),
        ScadOption::Value("true".to_string())
    );

    assert_eq!(
        ScadOption::from_key_value_option("key", Some(false)),
        Some(ScadOption::KeyValue((
            "key".to_string(),
            "false".to_string()
        )))
    );
    assert_eq!(ScadOption::from_key_value_option::<bool>("key", None), None);
}

#[test]
fn test_generate_body() {
    let opts = vec![
        ScadOption::from_key_value("size", 1_u64),
        ScadOption::from_key_value("center", true),
    ];
    assert_eq!(
        generate_sentence_repr("square", opts),
        "square(size = 1, center = true)"
    );
}

/// Formats a float the way SCAD literals are written: fixed precision,
/// then normalized by the library.
fn format_float(x: f64, n: usize) -> String {
    format_number(&format!("{x:.n$}"))
}

#[test]
fn test_format_float() {
    // Positive numbers
    assert_eq!(format_float(1.0, 2), "1");
    assert_eq!(format_float(1.2, 2), "1.2");
    assert_eq!(format_float(1.23, 2), "1.23");
    assert_eq!(format_float(1.234, 2), "1.23"); // rounding down
    assert_eq!(format_float(1.235, 2), "1.24"); // rounding up
    assert_eq!(format_float(1.00, 2), "1");
    assert_eq!(format_float(1.20, 2), "1.2");
    assert_eq!(format_float(1.00000000, 8), "1");
    assert_eq!(format_float(1.23456789, 8), "1.23456789");
    assert_eq!(format_float(1.234567891, 8), "1.23456789");
    assert_eq!(format_float(1.234567899, 8), "1.2345679");

    // Negative numbers
    assert_eq!(format_float(-1.0, 2), "-1");
    assert_eq!(format_float(-1.2, 2), "-1.2");
    assert_eq!(format_float(-1.23, 2), "-1.23");
    assert_eq!(format_float(-1.234, 2), "-1.23");
    assert_eq!(format_float(-1.235, 2), "-1.24");
    assert_eq!(format_float(-1.00, 2), "-1");
    assert_eq!(format_float(-1.20, 2), "-1.2");

    // Zero
    assert_eq!(format_float(0.0, 2), "0");
    assert_eq!(format_float(-0.0, 2), "0"); // ensure -0 becomes 0
    assert_eq!(format_float(0.000, 2), "0");

    // Edge cases for precision
    assert_eq!(format_float(123.0, 0), "123");
    assert_eq!(format_float(123.456, 0), "123");
    assert_eq!(format_float(123.567, 0), "124");
    assert_eq!(format_float(0.1, 0), "0");
    assert_eq!(format_float(0.9, 0), "1");

    // Numbers with many trailing zeros after rounding
    assert_eq!(format_float(1.23000000, 8), "1.23");
    assert_eq!(format_float(1.000000001, 8), "1"); // Very small epsilon
    assert_eq!(format_float(1.999999999, 8), "2"); // Very close to 2
    assert_eq!(format_float(0.000000001, 8), "0"); // close to 0
    assert_eq!(format_float(-0.000000001, 8), "0"); // ensure -0 becomes 0
}

#[test]
fn test_format_number_is_idempotent_on_formatted_output() {
    for s in ["10.500000", "-0.00000000", "100.", "1000", "-12.34000000", "0.00000000"] {
        let once = format_number(s);
        assert_eq!(format_number(&once), once);
    }
    // -0.0 formats identically to 0.0
    assert_eq!(format_number("-0.00000000"), format_number("0.00000000"));
}

#[test]
fn test_identifier_and_string_repr() {
    assert_eq!(Identifier("prim()".to_string()).repr_scad(), "prim()");
    assert_eq!("plain".to_string().repr_scad(), "\"plain\"");
    assert_eq!("say \"hi\"".to_string().repr_scad(), "\"say \\\"hi\\\"\"");
    assert_eq!(7_u64.repr_scad(), "7");
    assert_eq!(1234567890_usize.repr_scad(), "1234567890");
    assert_eq!(0_u64.repr_scad(), "0");
    assert_eq!(true.repr_scad(), "true");
    assert_eq!(false.repr_scad(), "false");
}

#[test]
fn test_indent_str_edges() {
    assert_eq!(indent_str("", 4), "");
    assert_eq!(indent_str("x", 2), "  x");
    assert_eq!(indent_str("a\nb", 0), "a\nb");
}

#[test]
fn test_indent_composes() {
    // Indenting one level at a time matches indenting once by the sum, so
    // a node nested k levels deep carries 2k spaces before each line.
    for s in ["a();\n", "a();\nb();\n", "{\n  x();\n}\n"] {
        assert_eq!(
            indent_str(&indent_str(s, 2), 2),
            indent_str(s, 4)
        );
        for line in indent_str(s, 2).lines() {
            assert!(line.starts_with("  "));
        }
    }
}

#[test]
fn test_decimal_extremes() {
    assert_eq!(u64::MAX.repr_scad(), "18446744073709551615");
    assert_eq!(1_u64.repr_scad(), "1");
    assert_eq!(10_u64.repr_scad(), "10");
    assert_eq!(100_u64.repr_scad(), "100");
}
