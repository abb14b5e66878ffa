use silicon::capture::{capture_image, CaptureOutcome};
use silicon::codec::{decode_png, encode_png, png_round_trip};
use silicon::color::Rgba;
use silicon::config::{build_visual_spec, Opts};
use silicon::dispatch::{DispatchPlan, Timestamp};
use silicon::error::Error;
use silicon::raster::RenderedImage;
use silicon::registry::Theme;
use silicon::render::render_image;
use silicon::render::StyledRun;
use silicon::watermark::draw_watermark;

fn run(text: &str, fg: Rgba) -> StyledRun {
    StyledRun { text: String::from(text), fg, bold: false, italic: false, underline: false }
}

fn fg() -> Rgba {
    Rgba { r: 1, g: 2, b: 3, a: 255 }
}

fn theme() -> Theme {
    Theme {
        name: String::from("Dracula"),
        background: Rgba { r: 40, g: 42, b: 54, a: 255 },
        foreground: Rgba { r: 248, g: 248, b: 242, a: 255 },
        highlight: Rgba { r: 68, g: 71, b: 90, a: 255 },
    }
}

fn pixel(img: &RenderedImage, x: u32, y: u32) -> (u8, u8, u8, u8) {
    let i = (4 * (y * img.width + x)) as usize;
    (img.data[i], img.data[i + 1], img.data[i + 2], img.data[i + 3])
}

fn default_render() -> RenderedImage {
    let lines = vec![vec![run("fn main() {}", fg())]];
    let vs = build_visual_spec(&Opts::default(), None).unwrap();
    render_image(&lines, &vs, &theme()).unwrap()
}

#[test]
fn default_options_give_documented_dimensions() {
    // width = pad*2 + 12 columns of 10px + no gutter; height = pad*2 + one
    // 20px line with 2px line padding + 40px chrome.
    let img = default_render();
    assert_eq!(img.width, 280);
    assert_eq!(img.height, 262);
    assert_eq!(img.data.len(), 4 * 280 * 262);
}

#[test]
fn rendering_twice_is_byte_identical() {
    let a = default_render();
    let b = default_render();
    assert_eq!(a.width, b.width);
    assert_eq!(a.height, b.height);
    assert_eq!(a.data, b.data);
}

#[test]
fn canvas_shows_background_panel_glyphs_and_rounded_corner() {
    let img = default_render();
    // Rounded corner: fully transparent at the canvas corner.
    assert_eq!(pixel(&img, 0, 0).3, 0);
    // Padding area keeps the default #eef background.
    assert_eq!(pixel(&img, 40, 131), (238, 238, 255, 255));
    // Window-control dot center is the first (red) dot.
    assert_eq!(pixel(&img, 100, 120), (255, 95, 86, 255));
    // First glyph cell of "fn main() {}" is inked with the run color.
    assert_eq!(pixel(&img, 85, 145), (1, 2, 3, 255));
    // The third column is a space: panel background shows through.
    assert_eq!(pixel(&img, 105, 145), (40, 42, 54, 255));
}

#[test]
fn line_numbers_widen_the_canvas() {
    let lines = vec![vec![run("x", fg())]];
    let mut opts = Opts::default();
    opts.line_number = Some(true);
    let vs = build_visual_spec(&opts, None).unwrap();
    let img = render_image(&lines, &vs, &theme()).unwrap();
    // one digit + one cell of gap = 2 cells of 10px gutter
    assert_eq!(img.width, 160 + 20 + 10);
}

#[test]
fn empty_fallback_list_is_font_resolution_failure() {
    let lines: Vec<Vec<StyledRun>> = Vec::new();
    let vs = build_visual_spec(&Opts::default(), None).unwrap();
    let mut broken = vs;
    broken.fonts = Vec::new();
    match render_image(&lines, &broken, &theme()) {
        Err(Error::FontResolution(_)) => {}
        other => panic!("expected FontResolution, got {:?}", other),
    }
}

#[test]
fn oversized_canvas_is_rejected() {
    let lines = vec![vec![run("x", fg())]];
    let mut opts = Opts::default();
    opts.pad_horiz = Some(500_000);
    let vs = build_visual_spec(&opts, None).unwrap();
    match render_image(&lines, &vs, &theme()) {
        Err(Error::Generic(m)) => assert_eq!(m, "render dimensions out of range"),
        other => panic!("expected Generic, got {:?}", other),
    }
}

#[test]
fn watermark_keeps_dimensions_and_inks_anchor() {
    let mut img = default_render();
    let before_w = img.width;
    let before_h = img.height;
    let len = img.data.len();
    draw_watermark(&mut img, "W", Rgba { r: 34, g: 34, b: 34, a: 255 }, 20);
    assert_eq!(img.width, before_w);
    assert_eq!(img.height, before_h);
    assert_eq!(img.data.len(), len);
    // anchor: x = 280 - (1*10 + 2*10) = 250, y = 262 - 40 = 222
    assert_eq!(pixel(&img, 252, 225), (34, 34, 34, 255));
}

#[test]
fn png_round_trip_reproduces_pixels() {
    let img = RenderedImage {
        width: 2,
        height: 2,
        data: vec![
            255, 0, 0, 255, 0, 255, 0, 128, 0, 0, 255, 0, 10, 20, 30, 40,
        ],
    };
    let back = png_round_trip(&img).unwrap();
    assert_eq!(back.width, 2);
    assert_eq!(back.height, 2);
    assert_eq!(back.data, img.data);
}

#[test]
fn png_encode_decode_through_public_functions() {
    let img = default_render();
    let bytes = encode_png(&img).unwrap();
    assert_eq!(&bytes[1..4], b"PNG");
    let back = decode_png(&bytes).unwrap();
    assert_eq!(back.width, img.width);
    assert_eq!(back.height, img.height);
    assert_eq!(back.data, img.data);
}

#[test]
fn garbage_bytes_do_not_decode() {
    let junk = vec![1u8, 2, 3, 4, 5];
    assert!(matches!(decode_png(&junk), Err(Error::Generic(_))));
}

fn noon() -> Timestamp {
    Timestamp { year: 2024, month: 1, day: 1, hour: 12, minute: 0, second: 0 }
}

#[test]
fn capture_requires_a_span() {
    let opts = Opts::default();
    let lines = vec![vec![run("x", fg())]];
    match capture_image(&opts, None, &lines, &theme(), noon()) {
        Err(e @ Error::Generic(_)) => assert_eq!(
            e.message(),
            "[silicon.nvim]: line1 and line2 are required when calling `capture` directly"
        ),
        other => panic!("expected Generic, got {:?}", other),
    }
}

#[test]
fn capture_produces_image_plan_and_status() {
    let mut opts = Opts::default();
    opts.start = 1;
    opts.end = 1;
    let lines = vec![vec![run("fn main() {}", fg())]];
    let out: CaptureOutcome = capture_image(&opts, None, &lines, &theme(), noon()).unwrap();
    assert_eq!(out.image.width, 280);
    assert_eq!(out.image.height, 262);
    match &out.plan {
        DispatchPlan::WriteTimestamped { path, file } => {
            assert_eq!(file, "silicon_20240101_120000.png");
            assert_eq!(path, "silicon_20240101_120000.png");
        }
        other => panic!("expected WriteTimestamped, got {:?}", other),
    }
    assert_eq!(out.status, "Image saved to silicon_20240101_120000.png");
}

#[test]
fn capture_watermarks_when_asked() {
    let mut opts = Opts::default();
    opts.start = 1;
    opts.end = 1;
    opts.watermark.text = Some(String::from("W"));
    let lines = vec![vec![run("fn main() {}", fg())]];
    let out = capture_image(&opts, None, &lines, &theme(), noon()).unwrap();
    assert_eq!(out.image.width, 280);
    assert_eq!(out.image.height, 262);
    let i = (4 * (225 * out.image.width + 252)) as usize;
    assert_eq!(
        (out.image.data[i], out.image.data[i + 1], out.image.data[i + 2]),
        (34, 34, 34)
    );
}

#[test]
fn capture_routes_to_clipboard_when_requested() {
    let mut opts = Opts::default();
    opts.start = 1;
    opts.end = 1;
    opts.output.clipboard = Some(true);
    let lines = vec![vec![run("x", fg())]];
    let out = capture_image(&opts, None, &lines, &theme(), noon()).unwrap();
    assert!(matches!(out.plan, DispatchPlan::CopyToClipboard));
    assert_eq!(out.status, "Image saved to clipboard");
}

#[test]
fn blur_preserves_uniform_canvas() {
    let mut img = RenderedImage { width: 3, height: 2, data: vec![100u8; 24] };
    silicon::raster::blur_box(&mut img, 2);
    assert_eq!(img.data, vec![100u8; 24]);
}

#[test]
fn blur_averages_neighbours_exactly() {
    // one row, two pixels: each window covers both, so every channel
    // becomes the floor of the mean.
    let mut img = RenderedImage {
        width: 2,
        height: 1,
        data: vec![0, 0, 0, 255, 255, 255, 255, 255],
    };
    silicon::raster::blur_box(&mut img, 1);
    assert_eq!(img.data, vec![127, 127, 127, 255, 127, 127, 127, 255]);
}

#[test]
fn overlong_watermark_clips_without_error() {
    let mut img = default_render();
    let before = (img.width, img.height, img.data.len());
    let text = "w".repeat(1000);
    draw_watermark(&mut img, &text, Rgba { r: 9, g: 9, b: 9, a: 255 }, 20);
    assert_eq!((img.width, img.height, img.data.len()), before);
}
