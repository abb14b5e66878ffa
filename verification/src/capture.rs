//! One invocation's compute core: from options, highlighted runs and a
//! resolved theme to a composited image and the one dispatch action it
//! takes. The host fetches the lines, runs the highlighting engine,
//! resolves the theme through the registry, and performs the chosen action;
//! everything decided in between stands here.

use crate::color::{parse_str_color, spec_parse_color};
use crate::config::{
    build_visual_spec, spec_bg_str, spec_shadow_str, spec_font_str, spec_highlight_range, Opts,
    VisualSpec,
};
use crate::dispatch::{
    destination_of, now_timestamp, plan_message, select_destination, spec_default_template,
    spec_format_template, spec_join_path, ts_wf, DispatchPlan, Timestamp,
};
use crate::error::Error;
use crate::font::{
    lemma_font_fallback_present, spec_to_font, spec_to_style, FontEntry, FontStyle, IntoFontStyle,
};
use crate::raster::RenderedImage;
use crate::registry::Theme;
use crate::render::{
    render_image, spec_canvas_h, spec_canvas_w, spec_chrome_height, spec_glyph_w,
    spec_gutter_cells, spec_max_cols, spec_render, StyledRun, MAX_DIM,
};
use crate::watermark::{draw_watermark, spec_watermark};
use vstd::prelude::*;
use vstd::string::*;

verus! {

/// The watermark color specification in force: the given one or `#222`.
pub open spec fn spec_wm_color_str(opts: Opts) -> Seq<char> {
    match opts.watermark.color {
        Some(s) => s@,
        None => "#222"@,
    }
}

/// The watermark style token in force: the given one or `bold`.
pub open spec fn spec_wm_style_str(opts: Opts) -> Seq<char> {
    match opts.watermark.style {
        Some(s) => s@,
        None => "bold"@,
    }
}

/// The filename template in force: the given one or the default.
pub open spec fn spec_template_str(opts: Opts) -> Seq<char> {
    match opts.output.format {
        Some(s) => s@,
        None => spec_default_template(),
    }
}

/// The output directory in force: the given one or nothing.
pub open spec fn spec_dir_str(opts: Opts) -> Seq<char> {
    match opts.output.path {
        Some(s) => s@,
        None => Seq::<char>::empty(),
    }
}

/// Everything a successful capture guarantees of its outcome, for the
/// given clock reading.
pub open spec fn spec_capture_ok(
    opts: Opts,
    title: Option<String>,
    lines: Seq<Vec<StyledRun>>,
    theme: Theme,
    ts: Timestamp,
    out: CaptureOutcome,
) -> bool {
            &&& !(opts.start == 0 && opts.end == 0)
            &&& Some(out.vs.background) == spec_parse_color(spec_bg_str(opts))
            &&& Some(out.vs.shadow_color) == spec_parse_color(spec_shadow_str(opts))
            &&& out.vs.blur_radius == opts.shadow.blur_radius
            &&& out.vs.offset_x == opts.shadow.offset_x
            &&& out.vs.offset_y == opts.shadow.offset_y
            &&& out.vs.pad_horiz == (match opts.pad_horiz {
                Some(p) => p,
                None => 80u32,
            })
            &&& out.vs.pad_vert == (match opts.pad_vert {
                Some(p) => p,
                None => 100u32,
            })
            &&& out.vs.tab_width == (match opts.tab_width {
                Some(t) => t,
                None => 4u8,
            })
            &&& out.vs.line_number == (match opts.line_number {
                Some(b) => b,
                None => false,
            })
            &&& out.vs.line_pad == (match opts.line_pad {
                Some(p) => p,
                None => 2u32,
            })
            &&& out.vs.line_offset == (match opts.line_offset {
                Some(p) => p,
                None => 1u32,
            })
            &&& out.vs.round_corner == (match opts.round_corner {
                Some(b) => b,
                None => true,
            })
            &&& out.vs.window_controls == (match opts.window_controls {
                Some(b) => b,
                None => true,
            })
            &&& out.vs.window_title == title
            &&& out.vs.highlight_lines@ == spec_highlight_range(
                match opts.highlight_selection {
                    Some(b) => b,
                    None => false,
                },
                opts.start,
                opts.end,
            )
            &&& out.vs.fonts@.map_values(|e: FontEntry| e@) == spec_to_font(
                spec_font_str(opts),
            )
            &&& out.wm_style == spec_to_style(spec_wm_style_str(opts))
            &&& (opts.watermark.text is Some ==> spec_parse_color(
                spec_wm_color_str(opts),
            ) is Some)
            &&& spec_render(lines, out.vs, theme) matches Some(t) && out.image.width == t.0
                && out.image.height == t.1 && out.image.wf() && out.image.data@ == (
            match opts.watermark.text {
                None => t.2,
                Some(ref wt) => spec_watermark(
                    t.2,
                    t.0 as int,
                    t.1 as int,
                    wt@,
                    spec_parse_color(spec_wm_color_str(opts))->0,
                    out.vs.fonts@[0].size as int,
                ),
            })
            &&& (match opts.output.file {
                Some(ref f) => out.plan matches DispatchPlan::WriteFile { path } && path@
                    == f@,
                None => {
                    if (opts.output.clipboard matches Some(true)) {
                        out.plan is CopyToClipboard
                    } else {
                        out.plan matches DispatchPlan::WriteTimestamped { path, file } && (
                        spec_format_template(spec_template_str(opts), ts) matches Some(name)
                            && file@ == name && path@ == spec_join_path(
                            spec_dir_str(opts),
                            name,
                        ))
                    }
                },
            })
            &&& (match out.plan {
                DispatchPlan::WriteFile { ref path } => out.status@ == "Image saved to "@
                    + path@,
                DispatchPlan::CopyToClipboard => out.status@ == "Image saved to clipboard"@,
                DispatchPlan::WriteTimestamped { path: _, ref file } => out.status@
                    == "Image saved to "@ + file@,
            })
}

/// The canvas width the resolved options ask for: the same measure
/// [`spec_canvas_w`] takes from the built `VisualSpec`, stated from the
/// options directly.
pub open spec fn spec_opts_canvas_w(opts: Opts, lines: Seq<Vec<StyledRun>>) -> int {
    let fonts = spec_to_font(spec_font_str(opts));
    let gw = spec_glyph_w(fonts[0].1 as int);
    let tab = (match opts.tab_width {
        Some(t) => t,
        None => 4u8,
    }) as int;
    let n = lines.len() as int;
    spec_gutter_cells(
        match opts.line_number {
            Some(b) => b,
            None => false,
        },
        match opts.line_offset {
            Some(p) => p,
            None => 1u32,
        },
        n,
        gw,
    ) + spec_max_cols(lines, tab) * gw + 2 * ((match opts.pad_horiz {
        Some(p) => p,
        None => 80u32,
    }) as int)
}

/// The canvas height the resolved options ask for, stated from the options
/// directly.
pub open spec fn spec_opts_canvas_h(opts: Opts, title: Option<String>, lines: Seq<Vec<StyledRun>>) -> int {
    let fonts = spec_to_font(spec_font_str(opts));
    let size = fonts[0].1 as int;
    (lines.len() as int) * (size + (match opts.line_pad {
        Some(p) => p,
        None => 2u32,
    }) as int) + spec_chrome_height(
        match opts.window_controls {
            Some(b) => b,
            None => true,
        },
        title is Some,
    ) + 2 * ((match opts.pad_vert {
        Some(p) => p,
        None => 100u32,
    }) as int)
}

/// Whether the resolved options ask for a canvas the pipeline supports.
pub open spec fn spec_opts_dims_ok(opts: Opts, title: Option<String>, lines: Seq<Vec<StyledRun>>) -> bool {
    &&& 1 <= spec_opts_canvas_w(opts, lines) <= MAX_DIM
    &&& 1 <= spec_opts_canvas_h(opts, title, lines) <= MAX_DIM
}

/// The one failure a capture reports, tied to its cause: the causes are
/// checked in the order the invocation meets them, and a capture fails if
/// and only if some cause holds — otherwise it must succeed.
pub open spec fn spec_capture_err(
    opts: Opts,
    title: Option<String>,
    lines: Seq<Vec<StyledRun>>,
    ts: Timestamp,
    e: Error,
) -> bool {
    if opts.start == 0 && opts.end == 0 {
        e matches Error::Generic(m) && m@
            == "line1 and line2 are required when calling `capture` directly"@
    } else if spec_parse_color(spec_bg_str(opts)) is None {
        e matches Error::InvalidColor(t) && t@ == spec_bg_str(opts)
    } else if spec_parse_color(spec_shadow_str(opts)) is None {
        e matches Error::InvalidColor(t) && t@ == spec_shadow_str(opts)
    } else if !spec_opts_dims_ok(opts, title, lines) {
        e matches Error::Generic(m) && m@ == "render dimensions out of range"@
    } else if opts.watermark.text is Some && spec_parse_color(spec_wm_color_str(opts)) is None {
        e matches Error::InvalidColor(t) && t@ == spec_wm_color_str(opts)
    } else if opts.output.file is None && !(opts.output.clipboard matches Some(true))
        && spec_format_template(spec_template_str(opts), ts) is None {
        e matches Error::InvalidTemplate(x) && x@ == spec_template_str(opts)
    } else {
        false
    }
}

/// The canvas measures of a `VisualSpec` resolved from these options are
/// the measures the options themselves ask for.
proof fn lemma_opts_dims(
    opts: Opts,
    title: Option<String>,
    lines: Seq<Vec<StyledRun>>,
    vs: VisualSpec,
)
    requires
        vs.fonts@.map_values(|e: FontEntry| e@) == spec_to_font(spec_font_str(opts)),
        vs.tab_width == (match opts.tab_width {
            Some(t) => t,
            None => 4u8,
        }),
        vs.pad_horiz == (match opts.pad_horiz {
            Some(p) => p,
            None => 80u32,
        }),
        vs.pad_vert == (match opts.pad_vert {
            Some(p) => p,
            None => 100u32,
        }),
        vs.line_pad == (match opts.line_pad {
            Some(p) => p,
            None => 2u32,
        }),
        vs.line_number == (match opts.line_number {
            Some(b) => b,
            None => false,
        }),
        vs.line_offset == (match opts.line_offset {
            Some(p) => p,
            None => 1u32,
        }),
        vs.window_controls == (match opts.window_controls {
            Some(b) => b,
            None => true,
        }),
        vs.window_title == title,
    ensures
        vs.fonts@.len() > 0,
        vs.fonts@[0].size == spec_to_font(spec_font_str(opts))[0].1,
        spec_canvas_w(lines, vs) == spec_opts_canvas_w(opts, lines),
        spec_canvas_h(lines, vs) == spec_opts_canvas_h(opts, title, lines),
{
    lemma_font_fallback_present(spec_font_str(opts));
    let m = vs.fonts@.map_values(|e: FontEntry| e@);
    assert(m.len() == vs.fonts@.len());
    assert(m[0] == vs.fonts@[0]@);
}

/// Everything one invocation produced: the composited (and possibly
/// watermarked) image, the resolved appearance it was rendered under, the
/// one dispatch action to take, and the status line to report once that
/// action succeeds.
#[derive(Debug)]
pub struct CaptureOutcome {
    pub image: RenderedImage,
    pub vs: VisualSpec,
    pub wm_style: FontStyle,
    pub plan: DispatchPlan,
    pub status: String,
}

/// Runs one capture: validates the span, resolves the visual options,
/// composites the image, overlays the watermark when asked, and selects
/// the dispatch action. The host performs the action afterwards.
pub fn capture_image(
    opts: &Opts,
    title: Option<String>,
    lines: &Vec<Vec<StyledRun>>,
    theme: &Theme,
    ts: Timestamp,
) -> (r: Result<CaptureOutcome, Error>)
    requires
        ts_wf(ts),
    ensures
        match r {
            Ok(out) => spec_capture_ok(*opts, title, lines@, *theme, ts, out),
            Err(e) => spec_capture_err(*opts, title, lines@, ts, e),
        },
{
    if opts.start == 0 && opts.end == 0 {
        return Err(
            Error::Generic(
                String::from_str("line1 and line2 are required when calling `capture` directly"),
            ),
        );
    }
    let vs = match build_visual_spec(opts, title) {
        Ok(v) => v,
        Err(e) => {
            return Err(e);
        },
    };
    proof {
        lemma_opts_dims(*opts, title, lines@, vs);
    }
    let mut img = match render_image(lines, &vs, theme) {
        Ok(i) => i,
        Err(e) => {
            proof {
                assert(!(e matches Error::FontResolution(_)));
                assert(!spec_opts_dims_ok(*opts, title, lines@));
            }
            return Err(e);
        },
    };
    proof {
        assert(spec_opts_dims_ok(*opts, title, lines@));
    }
    let wm_style_str: &str = match &opts.watermark.style {
        Some(s) => s.as_str(),
        None => "bold",
    };
    let wm_style = wm_style_str.to_style();
    match &opts.watermark.text {
        Some(wt) => {
            let wc_str: &str = match &opts.watermark.color {
                Some(s) => s.as_str(),
                None => "#222",
            };
            let wc = match parse_str_color(wc_str) {
                Ok(c) => c,
                Err(e) => {
                    return Err(e);
                },
            };
            let size = vs.fonts[0].size;
            draw_watermark(&mut img, wt.as_str(), wc, size);
        },
        None => {},
    }
    let dest = destination_of(&opts.output);
    let plan = match select_destination(&dest, ts) {
        Ok(p) => p,
        Err(e) => {
            return Err(e);
        },
    };
    let status = plan_message(&plan);
    Ok(CaptureOutcome { image: img, vs, wm_style, plan, status })
}


/// Runs one capture against the clock: as [`capture_image`], with the
/// timestamped filename synthesized from the moment of the call. Whatever
/// the clock read, a successful outcome satisfies the capture guarantees
/// for some valid timestamp.
pub fn capture_image_now(
    opts: &Opts,
    title: Option<String>,
    lines: &Vec<Vec<StyledRun>>,
    theme: &Theme,
) -> (r: Result<CaptureOutcome, Error>)
    ensures
        match r {
            Ok(out) => exists|ts: Timestamp|
                ts_wf(ts) && #[trigger] spec_capture_ok(*opts, title, lines@, *theme, ts, out),
            Err(e) => exists|ts: Timestamp|
                ts_wf(ts) && #[trigger] spec_capture_err(*opts, title, lines@, ts, e),
        },
{
    let ts = now_timestamp();
    capture_image(opts, title, lines, theme, ts)
}

} // verus!
