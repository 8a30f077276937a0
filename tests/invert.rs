use color_invert::color::{ColorValue, FilterError, FormatTag};
use color_invert::filter::{invert, invert_text, trim_text};
use color_invert::parse::classify_text;
use color_invert::render::{invert_color, render_color};

fn inv(s: &str) -> String {
    invert_text(s).unwrap()
}

#[test]
fn hex_upper_case_input_gives_lower_case_inverse() {
    assert_eq!(inv("#00FF00"), "#ff00ff");
}

#[test]
fn rgb_black_becomes_white() {
    assert_eq!(inv("rgb(0, 0, 0)"), "rgb(255, 255, 255)");
}

#[test]
fn hsl_hue_turns_half_a_circle() {
    assert_eq!(inv("hsl(10, 50%, 50%)"), "hsl(190, 50%, 50%)");
}

#[test]
fn not_a_color_passes_through() {
    assert_eq!(inv("not-a-color"), "not-a-color");
}

#[test]
fn unrecognised_texts_pass_through() {
    assert_eq!(inv("hello"), "hello");
    assert_eq!(inv(""), "");
    assert_eq!(inv("rgb(1,2)"), "rgb(1,2)");
    assert_eq!(inv("#abc"), "#abc");
    assert_eq!(inv("RGB(1, 2, 3)"), "RGB(1, 2, 3)");
    assert_eq!(inv("  hello  "), "  hello  ");
}

#[test]
fn non_text_value_is_not_a_string() {
    let expected = FilterError::NotAString.message();
    assert_eq!(invert(&upon::Value::Integer(5)), Err(expected.clone()));
    assert_eq!(invert(&upon::Value::Bool(true)), Err(expected.clone()));
    assert_eq!(invert(&upon::Value::None), Err(expected));
}

#[test]
fn text_value_is_inverted() {
    let v = upon::Value::String("#000000".to_string());
    assert_eq!(invert(&v), Ok("#ffffff".to_string()));
    let w = upon::Value::String("plain".to_string());
    assert_eq!(invert(&w), Ok("plain".to_string()));
}

#[test]
fn malformed_value_reports_message() {
    let v = upon::Value::String("rgb(300, 0, 0)".to_string());
    assert_eq!(invert(&v), Err(FilterError::MalformedColorLiteral.message()));
}

#[test]
fn stripped_hex_keeps_no_prefix() {
    assert_eq!(inv("00ff00"), "ff00ff");
    assert_eq!(inv("A0b1C2"), "5f4e3d");
}

#[test]
fn eight_digit_hex_keeps_opacity() {
    assert_eq!(inv("#11223344"), "#eeddcc44");
    assert_eq!(inv("112233AA"), "eeddccaa");
}

#[test]
fn hex_double_inversion_is_identity() {
    let s = "#1a2b3c";
    assert_eq!(inv(&inv(s)), s);
    let t = "#0f1e2d3c";
    assert_eq!(inv(&inv(t)), t);
}

#[test]
fn rgb_channels_are_complemented() {
    assert_eq!(inv("rgb(10, 20, 30)"), "rgb(245, 235, 225)");
    assert_eq!(inv("rgb(255,128,0)"), "rgb(0, 127, 255)");
}

#[test]
fn rgba_keeps_opacity_literal() {
    assert_eq!(inv("rgba(10, 20, 30, 0.5)"), "rgba(245, 235, 225, 0.5)");
    assert_eq!(inv("rgba(0,0,0,1)"), "rgba(255, 255, 255, 1)");
    assert_eq!(inv("rgba(0, 0, 0, 1.000)"), "rgba(255, 255, 255, 1.000)");
}

#[test]
fn hsl_hue_wraps_round() {
    assert_eq!(inv("hsl(200, 10%, 20%)"), "hsl(20, 10%, 20%)");
    assert_eq!(inv("hsl(360, 0%, 100%)"), "hsl(180, 0%, 100%)");
    assert_eq!(inv("hsl(180, 5%, 5%)"), "hsl(0, 5%, 5%)");
}

#[test]
fn hsla_keeps_opacity_literal() {
    assert_eq!(inv("hsla(90, 40%, 60%, 0.25)"), "hsla(270, 40%, 60%, 0.25)");
}

#[test]
fn surrounding_blanks_are_ignored_for_colors() {
    assert_eq!(inv("  #000000 \n"), "#ffffff");
    assert_eq!(inv("\trgb( 1 , 2 , 3 ) "), "rgb(254, 253, 252)");
}

#[test]
fn out_of_range_components_are_malformed() {
    assert_eq!(invert_text("rgb(256, 0, 0)"), Err(FilterError::MalformedColorLiteral));
    assert_eq!(invert_text("rgba(1, 2, 3, 1.5)"), Err(FilterError::MalformedColorLiteral));
    assert_eq!(invert_text("rgba(1, 2, 3, 2)"), Err(FilterError::MalformedColorLiteral));
    assert_eq!(invert_text("hsl(361, 0%, 0%)"), Err(FilterError::MalformedColorLiteral));
    assert_eq!(invert_text("hsl(0, 101%, 0%)"), Err(FilterError::MalformedColorLiteral));
    assert_eq!(invert_text("hsla(0, 0%, 0%, 7)"), Err(FilterError::MalformedColorLiteral));
    assert_eq!(invert_text("rgb(99999999999999999999, 0, 0)"), Err(FilterError::MalformedColorLiteral));
}

#[test]
fn notation_is_detected() {
    let cases = [
        ("#aabbcc", FormatTag::Hex),
        ("aabbcc", FormatTag::HexStripped),
        ("rgb(1, 2, 3)", FormatTag::Rgb),
        ("rgba(1, 2, 3, 0.1)", FormatTag::Rgba),
        ("hsl(1, 2%, 3%)", FormatTag::Hsl),
        ("hsla(1, 2%, 3%, 0)", FormatTag::Hsla),
    ];
    for (text, tag) in cases {
        let v = classify_text(text).unwrap().unwrap();
        assert_eq!(v.tag(), tag);
        let out = inv(text);
        assert_eq!(classify_text(&out).unwrap().unwrap().tag(), tag);
    }
    assert!(classify_text("hello").unwrap().is_none());
}

#[test]
fn parsed_components_are_exact() {
    match classify_text("#0a0B0c80").unwrap().unwrap() {
        ColorValue::Hex { red, green, blue, alpha } => {
            assert_eq!((red, green, blue, alpha), (10, 11, 12, Some(128)));
        }
        _ => panic!("expected a hex color"),
    }
    match classify_text("hsla(12, 34%, 56%, .5)") {
        Ok(None) => {}
        _ => panic!("an opacity needs a leading digit"),
    }
}

#[test]
fn inversion_of_values() {
    let v = invert_color(ColorValue::Rgb { red: 1, green: 2, blue: 3 });
    assert_eq!(render_color(&v), "rgb(254, 253, 252)");
    let h = invert_color(ColorValue::Hsl { hue: 300, saturation: 7, lightness: 8 });
    assert_eq!(render_color(&h), "hsl(120, 7%, 8%)");
    let x = ColorValue::HexStripped { red: 0, green: 255, blue: 16, alpha: None };
    assert_eq!(render_color(&x), "00ff10");
}

#[test]
fn trimming_removes_blanks_at_ends() {
    assert_eq!(trim_text("  a b \t"), "a b");
    assert_eq!(trim_text("   "), "");
}

#[test]
fn double_inversion_restores_color_in_every_notation() {
    assert_eq!(inv(&inv("hsl(10, 50%, 50%)")), "hsl(10, 50%, 50%)");
    assert_eq!(inv(&inv("rgba(1,2,3,0.5)")), "rgba(1, 2, 3, 0.5)");
    assert_eq!(inv(&inv("#00FF00")), "#00ff00");
    assert_eq!(inv(&inv("hsl(360, 1%, 2%)")), "hsl(0, 1%, 2%)");
}
