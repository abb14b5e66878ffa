use silicon::color::Rgba;
use silicon::config::{build_visual_spec, Opts};
use silicon::error::Error;
use silicon::font::FontEntry;
use silicon::registry::{SyntaxRegistry, Theme, ThemeRegistry};

fn theme(name: &str) -> Theme {
    Theme {
        name: String::from(name),
        background: Rgba { r: 40, g: 42, b: 54, a: 255 },
        foreground: Rgba { r: 248, g: 248, b: 242, a: 255 },
        highlight: Rgba { r: 68, g: 71, b: 90, a: 255 },
    }
}

fn registry() -> ThemeRegistry {
    ThemeRegistry::new(vec![theme("Dracula"), theme("Nord")])
}

#[test]
fn theme_resolution_finds_present_theme() {
    let reg = registry();
    let name = String::from("Nord");
    let (t, diag) = reg.resolve_theme(Some(&name)).unwrap();
    assert_eq!(t.name, "Nord");
    assert!(diag.is_none());
}

#[test]
fn theme_resolution_defaults_when_absent() {
    let reg = registry();
    let (t, diag) = reg.resolve_theme(None).unwrap();
    assert_eq!(t.name, "Dracula");
    assert!(diag.is_none());
}

#[test]
fn missing_theme_substitutes_default_with_one_diagnostic() {
    let reg = registry();
    let name = String::from("Nonexistent");
    let (t, diag) = reg.resolve_theme(Some(&name)).unwrap();
    assert_eq!(t.name, "Dracula");
    assert_eq!(diag.unwrap(), "Could not load 'Nonexistent' theme.");
}

#[test]
fn registry_without_default_is_corrupt() {
    let reg = ThemeRegistry::new(vec![theme("Nord")]);
    let name = String::from("Missing");
    match reg.resolve_theme(Some(&name)) {
        Err(Error::ThemeRegistryCorrupt) => {}
        other => panic!("expected ThemeRegistryCorrupt, got {:?}", other),
    }
}

#[test]
fn list_themes_keeps_order() {
    let reg = registry();
    assert_eq!(reg.list_themes(), vec!["Dracula", "Nord"]);
}

#[test]
fn syntax_lookup_is_membership() {
    let reg = SyntaxRegistry::new(vec![String::from("rust"), String::from("lua")]);
    assert!(reg.find_syntax_by_token("rust").is_ok());
    match reg.find_syntax_by_token("cobol") {
        Err(Error::SyntaxNotFound(t)) => assert_eq!(t, "cobol"),
        other => panic!("expected SyntaxNotFound, got {:?}", other),
    }
}

#[test]
fn visual_spec_applies_documented_defaults() {
    let opts = Opts::default();
    let vs = build_visual_spec(&opts, None).unwrap();
    assert_eq!(vs.background, Rgba { r: 238, g: 238, b: 255, a: 255 });
    assert_eq!(vs.shadow_color, Rgba { r: 85, g: 85, b: 85, a: 255 });
    assert_eq!(vs.blur_radius, 0);
    assert_eq!(vs.offset_x, 0);
    assert_eq!(vs.offset_y, 0);
    assert_eq!(vs.pad_horiz, 80);
    assert_eq!(vs.pad_vert, 100);
    assert_eq!(vs.tab_width, 4);
    assert!(!vs.line_number);
    assert_eq!(vs.line_pad, 2);
    assert_eq!(vs.line_offset, 1);
    assert!(vs.round_corner);
    assert!(vs.window_controls);
    assert!(vs.window_title.is_none());
    assert!(vs.highlight_lines.is_empty());
    let fonts: Vec<(&str, u32)> =
        vs.fonts.iter().map(|f: &FontEntry| (f.family.as_str(), f.size)).collect();
    assert_eq!(fonts, vec![("Hack", 20)]);
}

#[test]
fn visual_spec_rejects_bad_background_first() {
    let mut opts = Opts::default();
    opts.background = Some(String::from("oops"));
    opts.shadow.color = Some(String::from("also-bad"));
    match build_visual_spec(&opts, None) {
        Err(Error::InvalidColor(s)) => assert_eq!(s, "oops"),
        other => panic!("expected InvalidColor, got {:?}", other),
    }
}

#[test]
fn visual_spec_builds_highlight_range() {
    let mut opts = Opts::default();
    opts.highlight_selection = Some(true);
    opts.start = 3;
    opts.end = 6;
    let vs = build_visual_spec(&opts, None).unwrap();
    assert_eq!(vs.highlight_lines, vec![3, 4, 5, 6]);
}

#[test]
fn inverted_selection_range_highlights_nothing() {
    let mut opts = Opts::default();
    opts.highlight_selection = Some(true);
    opts.start = 5;
    opts.end = 2;
    let vs = build_visual_spec(&opts, None).unwrap();
    assert!(vs.highlight_lines.is_empty());
}
