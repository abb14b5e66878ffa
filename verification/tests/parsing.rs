use silicon::color::{parse_str_color, Rgba};
use silicon::error::Error;
use silicon::font::{FontStyle, IntoFont, IntoFontStyle};
use silicon::text::{fetch_range, get_globble_len, get_lines, split_str, str_eq};

#[test]
fn color_parses_short_hex() {
    let c = parse_str_color("#eef").unwrap();
    assert_eq!(c, Rgba { r: 238, g: 238, b: 255, a: 255 });
}

#[test]
fn color_parses_full_hex() {
    let c = parse_str_color("#ff8001").unwrap();
    assert_eq!(c, Rgba { r: 255, g: 128, b: 1, a: 255 });
}

#[test]
fn color_parses_alpha_forms() {
    let c4 = parse_str_color("#1234").unwrap();
    assert_eq!(c4, Rgba { r: 0x11, g: 0x22, b: 0x33, a: 0x44 });
    let c8 = parse_str_color("#22446688").unwrap();
    assert_eq!(c8, Rgba { r: 0x22, g: 0x44, b: 0x66, a: 0x88 });
}

#[test]
fn color_rejects_bad_specs() {
    assert!(matches!(parse_str_color(""), Err(Error::InvalidColor(_))));
    assert!(matches!(parse_str_color("555"), Err(Error::InvalidColor(_))));
    assert!(matches!(parse_str_color("#55"), Err(Error::InvalidColor(_))));
    assert!(matches!(parse_str_color("#12g"), Err(Error::InvalidColor(_))));
    match parse_str_color("#zzz") {
        Err(Error::InvalidColor(s)) => assert_eq!(s, "#zzz"),
        other => panic!("expected InvalidColor, got {:?}", other),
    }
}

#[test]
fn invalid_color_message_carries_prefix() {
    let e = parse_str_color("nope").unwrap_err();
    assert_eq!(e.message(), "[silicon.nvim]: invalid color 'nope'");
}

#[test]
fn font_spec_parses_name_and_size() {
    let fonts = "Hack=20".to_font();
    assert_eq!(fonts.len(), 1);
    assert_eq!(fonts[0].family, "Hack");
    assert_eq!(fonts[0].size, 20);
}

#[test]
fn font_spec_appends_guaranteed_fallback() {
    let fonts = "Fira Code=14;Mono".to_font();
    assert_eq!(fonts.len(), 3);
    assert_eq!(fonts[0].family, "Fira Code");
    assert_eq!(fonts[0].size, 14);
    assert_eq!(fonts[1].family, "Mono");
    assert_eq!(fonts[1].size, 26);
    assert_eq!(fonts[2].family, "Hack");
    assert_eq!(fonts[2].size, 26);
}

#[test]
fn font_spec_malformed_size_falls_back() {
    let fonts = "Hack=abc".to_font();
    assert_eq!(fonts.len(), 1);
    assert_eq!(fonts[0].size, 26);
    let huge = "Hack=99999999999".to_font();
    assert_eq!(huge[0].size, 26);
    let frac = "Hack=20.5".to_font();
    assert_eq!(frac[0].size, 26);
}

#[test]
fn font_spec_never_empty() {
    for spec in ["", ";", "=;=", "A;B;C", "Hack", "Hack=1;Hack=2"] {
        let fonts = spec.to_font();
        assert!(!fonts.is_empty(), "spec {:?} gave an empty list", spec);
        assert!(
            fonts.iter().any(|f| f.family == "Hack"),
            "spec {:?} lost the fallback family",
            spec
        );
    }
}

#[test]
fn style_tokens_map_to_styles() {
    assert_eq!("bold".to_style(), FontStyle::Bold);
    assert_eq!("italic".to_style(), FontStyle::Italic);
    assert_eq!("bolditalic".to_style(), FontStyle::BoldItalic);
    assert_eq!("regular".to_style(), FontStyle::Regular);
    assert_eq!("".to_style(), FontStyle::Regular);
}

#[test]
fn gobble_len_counts_leading_spaces() {
    assert_eq!(get_globble_len("    fn x()"), 4);
    assert_eq!(get_globble_len("fn x()"), 0);
    assert_eq!(get_globble_len("   "), 0);
    assert_eq!(get_globble_len(""), 0);
}

#[test]
fn get_lines_joins_with_newlines() {
    let lines = vec![String::from("a"), String::from("b")];
    assert_eq!(get_lines(&lines, false), "a\nb\n");
}

#[test]
fn get_lines_gobbles_first_line_indent() {
    let lines = vec![
        String::from("    fn main() {"),
        String::from("        body();"),
        String::from("    }"),
    ];
    assert_eq!(get_lines(&lines, true), "fn main() {\n    body();\n}\n");
}

#[test]
fn get_lines_gobble_clips_short_lines() {
    let lines = vec![String::from("    x"), String::from("ab")];
    assert_eq!(get_lines(&lines, true), "x\n\n");
}

#[test]
fn split_str_keeps_empty_segments() {
    let parts = split_str("a;;b;", ';');
    assert_eq!(parts, vec!["a", "", "b", ""]);
    assert_eq!(split_str("", ';'), vec![""]);
}

#[test]
fn str_eq_compares_by_characters() {
    assert!(str_eq("héllo", "héllo"));
    assert!(!str_eq("a", "b"));
    assert!(!str_eq("a", "ab"));
}

#[test]
fn font_token_without_name_keeps_empty_family() {
    let fonts = "=5".to_font();
    assert_eq!(fonts[0].family, "");
    assert_eq!(fonts[0].size, 5);
    assert_eq!(fonts[1].family, "Hack");
}

#[test]
fn large_whole_number_sizes_parse_as_given() {
    let fonts = "Name=600".to_font();
    assert_eq!(fonts[0].size, 600);
    let max = "Name=4294967295".to_font();
    assert_eq!(max[0].size, 4294967295);
}

#[test]
fn font_token_extra_equals_ignored() {
    let fonts = "Mono=12=junk".to_font();
    assert_eq!(fonts[0].family, "Mono");
    assert_eq!(fonts[0].size, 12);
}

#[test]
fn basic_css_color_keywords_parse() {
    assert_eq!(parse_str_color("navy").unwrap(), Rgba { r: 0, g: 0, b: 128, a: 255 });
    assert_eq!(parse_str_color("white").unwrap(), Rgba { r: 255, g: 255, b: 255, a: 255 });
    assert_eq!(parse_str_color("fuchsia").unwrap(), Rgba { r: 255, g: 0, b: 255, a: 255 });
    assert_eq!(parse_str_color("silver").unwrap(), Rgba { r: 192, g: 192, b: 192, a: 255 });
}

#[test]
fn unknown_keywords_are_rejected() {
    assert!(matches!(parse_str_color("Navy"), Err(Error::InvalidColor(_))));
    assert!(matches!(parse_str_color("dodgerblue"), Err(Error::InvalidColor(_))));
}

#[test]
fn emphasis_selection_fetches_whole_buffer() {
    assert_eq!(fetch_range(true, 7, 9), (1, None));
    assert_eq!(fetch_range(false, 7, 9), (7, Some(9)));
}
