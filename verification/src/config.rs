//! The invocation's options, their documented defaults, and their resolution
//! into the immutable `VisualSpec` one render works from.

use crate::color::{parse_str_color, spec_parse_color, Rgba};
use crate::error::Error;
use crate::font::{spec_to_font, FontEntry, IntoFont};
use vstd::prelude::*;
use vstd::string::*;

verus! {

/// Watermark options: absence of `text` means no watermark pass runs.
#[derive(Debug, Clone, Default)]
pub struct WatermarkOpts {
    pub text: Option<String>,
    pub font: Option<String>,
    pub color: Option<String>,
    pub style: Option<String>,
}

/// Drop-shadow options. The blur radius is a whole number of pixels.
#[derive(Debug, Clone, Default)]
pub struct ShadowOpts {
    pub blur_radius: u32,
    pub offset_x: i32,
    pub offset_y: i32,
    pub color: Option<String>,
}

/// Where the rendered image goes: an explicit file, the clipboard, or a
/// timestamp-named file under a directory.
#[derive(Debug, Clone, Default)]
pub struct OutputOpts {
    pub file: Option<String>,
    pub clipboard: Option<bool>,
    pub path: Option<String>,
    pub format: Option<String>,
}

/// Everything one invocation can ask for. Absent fields take the documented
/// defaults when the `VisualSpec` is built.
#[derive(Debug, Clone)]
pub struct Opts {
    pub font: Option<String>,
    pub theme: Option<String>,
    pub background: Option<String>,
    pub shadow: ShadowOpts,
    pub pad_horiz: Option<u32>,
    pub pad_vert: Option<u32>,
    pub line_number: Option<bool>,
    pub line_pad: Option<u32>,
    pub line_offset: Option<u32>,
    pub tab_width: Option<u8>,
    pub round_corner: Option<bool>,
    pub window_controls: Option<bool>,
    pub window_title: Option<String>,
    pub highlight_selection: Option<bool>,
    pub gobble: Option<bool>,
    pub output: OutputOpts,
    pub watermark: WatermarkOpts,
    pub start: usize,
    pub end: usize,
}

impl Default for Opts {
    /// All options absent: every consumer falls back to its default.
    fn default() -> (r: Opts)
        ensures
            r.font is None,
            r.theme is None,
            r.background is None,
            r.shadow.blur_radius == 0 && r.shadow.offset_x == 0 && r.shadow.offset_y == 0
                && r.shadow.color is None,
            r.pad_horiz is None,
            r.pad_vert is None,
            r.line_number is None,
            r.line_pad is None,
            r.line_offset is None,
            r.tab_width is None,
            r.round_corner is None,
            r.window_controls is None,
            r.window_title is None,
            r.highlight_selection is None,
            r.gobble is None,
            r.output.file is None && r.output.clipboard is None && r.output.path is None
                && r.output.format is None,
            r.watermark.text is None && r.watermark.font is None && r.watermark.color is None
                && r.watermark.style is None,
            r.start == 0,
            r.end == 0,
    {
        Opts {
            font: None,
            theme: None,
            background: None,
            shadow: ShadowOpts { blur_radius: 0, offset_x: 0, offset_y: 0, color: None },
            pad_horiz: None,
            pad_vert: None,
            line_number: None,
            line_pad: None,
            line_offset: None,
            tab_width: None,
            round_corner: None,
            window_controls: None,
            window_title: None,
            highlight_selection: None,
            gobble: None,
            output: OutputOpts { file: None, clipboard: None, path: None, format: None },
            watermark: WatermarkOpts { text: None, font: None, color: None, style: None },
            start: 0,
            end: 0,
        }
    }
}

/// The resolved appearance of one render: every default already applied,
/// every color already parsed, the font fallback list already built.
#[derive(Debug)]
pub struct VisualSpec {
    pub background: Rgba,
    pub shadow_color: Rgba,
    pub blur_radius: u32,
    pub offset_x: i32,
    pub offset_y: i32,
    pub pad_horiz: u32,
    pub pad_vert: u32,
    pub tab_width: u8,
    pub line_number: bool,
    pub line_pad: u32,
    pub line_offset: u32,
    pub round_corner: bool,
    pub window_controls: bool,
    pub window_title: Option<String>,
    pub highlight_lines: Vec<usize>,
    pub fonts: Vec<FontEntry>,
}

/// The background color specification in force: the given one or `#eef`.
pub open spec fn spec_bg_str(opts: Opts) -> Seq<char> {
    match opts.background {
        Some(s) => s@,
        None => "#eef"@,
    }
}

/// The shadow color specification in force: the given one or `#555`.
pub open spec fn spec_shadow_str(opts: Opts) -> Seq<char> {
    match opts.shadow.color {
        Some(s) => s@,
        None => "#555"@,
    }
}

/// The font specification in force: the given one or `Hack=20`.
pub open spec fn spec_font_str(opts: Opts) -> Seq<char> {
    match opts.font {
        Some(s) => s@,
        None => "Hack=20"@,
    }
}

/// The emphasized line numbers: the captured span when emphasis is on,
/// nothing otherwise.
pub open spec fn spec_highlight_range(flag: bool, start: usize, end: usize) -> Seq<usize> {
    if flag && start <= end {
        Seq::new((end - start + 1) as nat, |i: int| (start + i) as usize)
    } else {
        Seq::empty()
    }
}

/// Builds the `VisualSpec` for one render from the options and the already
/// resolved window title. Fails exactly when a color specification in force
/// does not parse — the background one first.
pub fn build_visual_spec(opts: &Opts, title: Option<String>) -> (r: Result<VisualSpec, Error>)
    ensures
        r is Ok <==> spec_parse_color(spec_bg_str(*opts)) is Some && spec_parse_color(
            spec_shadow_str(*opts),
        ) is Some,
        match r {
            Ok(v) => {
                &&& Some(v.background) == spec_parse_color(spec_bg_str(*opts))
                &&& Some(v.shadow_color) == spec_parse_color(spec_shadow_str(*opts))
                &&& v.blur_radius == opts.shadow.blur_radius
                &&& v.offset_x == opts.shadow.offset_x
                &&& v.offset_y == opts.shadow.offset_y
                &&& v.pad_horiz == (match opts.pad_horiz {
                    Some(p) => p,
                    None => 80u32,
                })
                &&& v.pad_vert == (match opts.pad_vert {
                    Some(p) => p,
                    None => 100u32,
                })
                &&& v.tab_width == (match opts.tab_width {
                    Some(t) => t,
                    None => 4u8,
                })
                &&& v.line_number == (match opts.line_number {
                    Some(b) => b,
                    None => false,
                })
                &&& v.line_pad == (match opts.line_pad {
                    Some(p) => p,
                    None => 2u32,
                })
                &&& v.line_offset == (match opts.line_offset {
                    Some(p) => p,
                    None => 1u32,
                })
                &&& v.round_corner == (match opts.round_corner {
                    Some(b) => b,
                    None => true,
                })
                &&& v.window_controls == (match opts.window_controls {
                    Some(b) => b,
                    None => true,
                })
                &&& v.window_title == title
                &&& v.highlight_lines@ == spec_highlight_range(
                    match opts.highlight_selection {
                        Some(b) => b,
                        None => false,
                    },
                    opts.start,
                    opts.end,
                )
                &&& v.fonts@.map_values(|e: FontEntry| e@) == spec_to_font(spec_font_str(*opts))
            },
            Err(e) => {
                if spec_parse_color(spec_bg_str(*opts)) is None {
                    e matches Error::InvalidColor(t) && t@ == spec_bg_str(*opts)
                } else {
                    e matches Error::InvalidColor(t) && t@ == spec_shadow_str(*opts)
                }
            },
        },
{
    let bg_str: &str = match &opts.background {
        Some(s) => s.as_str(),
        None => "#eef",
    };
    let background = match parse_str_color(bg_str) {
        Ok(c) => c,
        Err(e) => {
            return Err(e);
        },
    };
    let shadow_str: &str = match &opts.shadow.color {
        Some(s) => s.as_str(),
        None => "#555",
    };
    let shadow_color = match parse_str_color(shadow_str) {
        Ok(c) => c,
        Err(e) => {
            return Err(e);
        },
    };
    let font_str: &str = match &opts.font {
        Some(s) => s.as_str(),
        None => "Hack=20",
    };
    let fonts = font_str.to_font();
    let hl_flag = match opts.highlight_selection {
        Some(b) => b,
        None => false,
    };
    let mut highlight_lines: Vec<usize> = Vec::new();
    if hl_flag && opts.start <= opts.end {
        let mut x = opts.start;
        while x < opts.end
            invariant
                opts.start <= x <= opts.end,
                highlight_lines@ == Seq::new(
                    (x - opts.start) as nat,
                    |i: int| (opts.start + i) as usize,
                ),
            decreases opts.end - x,
        {
            highlight_lines.push(x);
            proof {
                assert(highlight_lines@ =~= Seq::new(
                    (x + 1 - opts.start) as nat,
                    |i: int| (opts.start + i) as usize,
                ));
            }
            x += 1;
        }
        highlight_lines.push(opts.end);
        proof {
            assert(highlight_lines@ =~= spec_highlight_range(hl_flag, opts.start, opts.end));
        }
    } else {
        proof {
            assert(highlight_lines@ =~= spec_highlight_range(hl_flag, opts.start, opts.end));
        }
    }
    Ok(
        VisualSpec {
            background,
            shadow_color,
            blur_radius: opts.shadow.blur_radius,
            offset_x: opts.shadow.offset_x,
            offset_y: opts.shadow.offset_y,
            pad_horiz: match opts.pad_horiz {
                Some(p) => p,
                None => 80,
            },
            pad_vert: match opts.pad_vert {
                Some(p) => p,
                None => 100,
            },
            tab_width: match opts.tab_width {
                Some(t) => t,
                None => 4,
            },
            line_number: match opts.line_number {
                Some(b) => b,
                None => false,
            },
            line_pad: match opts.line_pad {
                Some(p) => p,
                None => 2,
            },
            line_offset: match opts.line_offset {
                Some(p) => p,
                None => 1,
            },
            round_corner: match opts.round_corner {
                Some(b) => b,
                None => true,
            },
            window_controls: match opts.window_controls {
                Some(b) => b,
                None => true,
            },
            window_title: title,
            highlight_lines,
            fonts,
        },
    )
}

} // verus!
