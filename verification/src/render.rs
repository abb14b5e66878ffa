//! The render pipeline: compositing highlighted text runs, a resolved theme
//! and a `VisualSpec` into a `RenderedImage`.
//!
//! The backend's glyph model is a fixed cell grid: a font of point size `s`
//! renders every character as a cell `(s + 1) / 2` pixels wide and `s`
//! pixels tall; an inked character fills its cell with the run's foreground
//! color, spaces and newlines leave theirs empty, and a tab advances the
//! cursor by the configured tab width in columns. Style flags select fonts
//! in the backend's fallback chain and do not change the cell geometry.

use crate::color::Rgba;
use crate::config::VisualSpec;
use crate::error::Error;
use crate::raster::{
    blur_box, ch_of, channel_of, fill_circle, fill_rect, mask_corner, spec_blur_h, spec_blur_v,
    spec_fill_circle, spec_fill_rect, spec_mask_corner, RenderedImage,
};
use crate::registry::Theme;
use vstd::prelude::*;
use vstd::string::*;

verus! {

/// Height of the window-decoration area when decorations or a title are on.
pub const CHROME_HEIGHT: u32 = 40;

/// Radius of the rounded-corner alpha mask.
pub const CORNER_RADIUS: u32 = 12;

/// Radius of one window-control dot.
pub const CONTROL_RADIUS: u32 = 6;

/// The largest canvas dimension a render may produce.
pub const MAX_DIM: u32 = 16384;

/// One styled run of text, as the external highlighting engine hands it in.
#[derive(Debug, Clone)]
pub struct StyledRun {
    pub text: String,
    pub fg: Rgba,
    pub bold: bool,
    pub italic: bool,
    pub underline: bool,
}

/// Whether a character fills its cell with ink.
pub open spec fn is_ink(c: char) -> bool {
    c != ' ' && c != '\t' && c != '\n'
}

/// The cursor column after `c` is consumed at column `col`.
pub open spec fn spec_advance(col: int, c: char, tab: int) -> int {
    if c == '\t' {
        col + tab
    } else if c == '\n' {
        col
    } else {
        col + 1
    }
}

/// The cursor column after a whole text is consumed.
pub open spec fn spec_cols_text(t: Seq<char>, col: int, tab: int) -> int
    decreases t.len(),
{
    if t.len() == 0 {
        col
    } else {
        spec_cols_text(t.drop_first(), spec_advance(col, t[0], tab), tab)
    }
}

/// The cursor column after a whole line of runs is consumed.
pub open spec fn spec_cols_runs(runs: Seq<StyledRun>, col: int, tab: int) -> int
    decreases runs.len(),
{
    if runs.len() == 0 {
        col
    } else {
        spec_cols_runs(runs.drop_first(), spec_cols_text(runs[0].text@, col, tab), tab)
    }
}

/// The widest line of the capture, in columns.
pub open spec fn spec_max_cols(lines: Seq<Vec<StyledRun>>, tab: int) -> int
    decreases lines.len(),
{
    if lines.len() == 0 {
        0
    } else {
        let rest = spec_max_cols(lines.drop_last(), tab);
        let c = spec_cols_runs(lines.last()@, 0, tab);
        if c > rest {
            c
        } else {
            rest
        }
    }
}

/// How many decimal digits `v` writes with.
pub open spec fn spec_ndigits(v: int) -> int
    decreases v,
{
    if v < 10 {
        1
    } else {
        1 + spec_ndigits(v / 10)
    }
}

pub proof fn lemma_ndigits_pos(v: int)
    ensures
        spec_ndigits(v) >= 1,
    decreases v,
{
    if v < 10 {
    } else {
        lemma_ndigits_pos(v / 10);
    }
}

/// The digit count the gutter is sized with: the decimal digit count,
/// capped at 40 — wider line numbers than that cannot arise from a real
/// buffer and would only widen the gutter.
pub open spec fn spec_ndigits_capped(v: int) -> int {
    if spec_ndigits(v) > 40 {
        40
    } else {
        spec_ndigits(v)
    }
}

pub proof fn lemma_advance_ge(col: int, c: char, tab: int)
    requires
        tab >= 0,
    ensures
        spec_advance(col, c, tab) >= col,
{
}

pub proof fn lemma_cols_text_ge(t: Seq<char>, col: int, tab: int)
    requires
        tab >= 0,
    ensures
        spec_cols_text(t, col, tab) >= col,
    decreases t.len(),
{
    if t.len() == 0 {
    } else {
        lemma_cols_text_ge(t.drop_first(), spec_advance(col, t[0], tab), tab);
    }
}

pub proof fn lemma_cols_runs_ge(runs: Seq<StyledRun>, col: int, tab: int)
    requires
        tab >= 0,
    ensures
        spec_cols_runs(runs, col, tab) >= col,
    decreases runs.len(),
{
    if runs.len() == 0 {
    } else {
        lemma_cols_text_ge(runs[0].text@, col, tab);
        lemma_cols_runs_ge(runs.drop_first(), spec_cols_text(runs[0].text@, col, tab), tab);
    }
}

/// The buffer after one text is drawn cell by cell from column `col`.
/// A cell is drawn only while its column offset stays on the canvas scale;
/// a cursor past `MAX_DIM` columns is beyond every canvas and draws nothing.
pub open spec fn spec_draw_text(
    d: Seq<u8>,
    w: int,
    h: int,
    t: Seq<char>,
    col: int,
    x0: int,
    y: int,
    gw: int,
    gh: int,
    tab: int,
    color: Rgba,
) -> Seq<u8>
    decreases t.len(),
{
    if t.len() == 0 {
        d
    } else {
        let c = t[0];
        let d2 = if is_ink(c) && col <= MAX_DIM && col * gw <= MAX_DIM {
            spec_fill_rect(d, w, h, x0 + col * gw, y, gw, gh, color)
        } else {
            d
        };
        spec_draw_text(d2, w, h, t.drop_first(), spec_advance(col, c, tab), x0, y, gw, gh, tab,
        color)
    }
}

/// A cursor past the canvas scale draws nothing more.
pub proof fn lemma_draw_text_beyond(
    d: Seq<u8>,
    w: int,
    h: int,
    t: Seq<char>,
    col: int,
    x0: int,
    y: int,
    gw: int,
    gh: int,
    tab: int,
    color: Rgba,
)
    requires
        tab >= 0,
        col > MAX_DIM,
    ensures
        spec_draw_text(d, w, h, t, col, x0, y, gw, gh, tab, color) == d,
    decreases t.len(),
{
    if t.len() == 0 {
    } else {
        lemma_advance_ge(col, t[0], tab);
        lemma_draw_text_beyond(
            d,
            w,
            h,
            t.drop_first(),
            spec_advance(col, t[0], tab),
            x0,
            y,
            gw,
            gh,
            tab,
            color,
        );
    }
}

/// Draws one text as [`spec_draw_text`] describes and returns the cursor
/// column after it — exact while it is on the canvas scale, and otherwise
/// some value beyond it, as the advance itself then is.
#[verifier::loop_isolation(false)]
fn draw_text(
    img: &mut RenderedImage,
    text: &str,
    col0: u64,
    x0: i64,
    y: i64,
    gw: i64,
    gh: i64,
    tab: u8,
    color: Rgba,
) -> (col: u64)
    requires
        old(img).wf(),
        col0 <= MAX_DIM,
        -0x1_0000_0000 <= x0 <= 0x1_0000_0000,
        -0x1_0000_0000 <= y <= 0x1_0000_0000,
        0 <= gw <= 0x1_0000_0000,
        0 <= gh <= 0x1_0000_0000,
    ensures
        final(img).wf(),
        final(img).width == old(img).width,
        final(img).height == old(img).height,
        final(img).data@ == spec_draw_text(
            old(img).data@,
            old(img).width as int,
            old(img).height as int,
            text@,
            col0 as int,
            x0 as int,
            y as int,
            gw as int,
            gh as int,
            tab as int,
            color,
        ),
        col <= MAX_DIM ==> col == spec_cols_text(text@, col0 as int, tab as int),
        col > MAX_DIM ==> spec_cols_text(text@, col0 as int, tab as int) > MAX_DIM,
{
    let ghost wi = old(img).width as int;
    let ghost hi = old(img).height as int;
    let ghost d_enter = old(img).data@;
    let ghost whole = spec_draw_text(
        d_enter,
        wi,
        hi,
        text@,
        col0 as int,
        x0 as int,
        y as int,
        gw as int,
        gh as int,
        tab as int,
        color,
    );
    let n = text.unicode_len();
    let mut col: u64 = col0;
    let mut i: usize = 0;
    proof {
        assert(text@.skip(0) =~= text@);
        assert(text@.take(0) =~= Seq::<char>::empty());
    }
    while i < n
        invariant
            img.wf(),
            img.width == old(img).width,
            img.height == old(img).height,
            i <= n,
            n == text@.len(),
            col <= MAX_DIM,
            col == spec_cols_text(text@.take(i as int), col0 as int, tab as int),
            whole == spec_draw_text(
                img.data@,
                wi,
                hi,
                text@.skip(i as int),
                col as int,
                x0 as int,
                y as int,
                gw as int,
                gh as int,
                tab as int,
                color,
            ),
        decreases n - i,
    {
        let c = text.get_char(i);
        let ghost rest = text@.skip(i as int);
        proof {
            assert(rest[0] == text@[i as int]);
            assert(rest.drop_first() =~= text@.skip(i as int + 1));
        }
        let ink = c != ' ' && c != '\t' && c != '\n';
        proof {
            assert((col as int) * (gw as int) <= 0x4000_0000_0000) by (nonlinear_arith)
                requires
                    0 <= col as int <= 0x4000,
                    0 <= gw as int <= 0x1_0000_0000,
            ;
        }
        if ink && col * (gw as u64) <= MAX_DIM as u64 {
            fill_rect(img, x0 + (col as i64) * gw, y, gw, gh, color);
        }
        let next: u64 = if c == '\t' {
            col + (tab as u64)
        } else if c == '\n' {
            col
        } else {
            col + 1
        };
        proof {
            assert(next == spec_advance(col as int, c, tab as int));
            let tk = text@.take(i as int + 1);
            assert(tk.drop_last() =~= text@.take(i as int));
            assert(tk.last() == text@[i as int]);
            lemma_cols_prefix(text@, i as int + 1, col0 as int, tab as int);
        }
        if next > MAX_DIM as u64 {
            proof {
                lemma_draw_text_beyond(
                    img.data@,
                    wi,
                    hi,
                    text@.skip(i as int + 1),
                    next as int,
                    x0 as int,
                    y as int,
                    gw as int,
                    gh as int,
                    tab as int,
                    color,
                );
                lemma_cols_text_ge(text@.skip(i as int + 1), next as int, tab as int);
                lemma_cols_suffix(text@, i as int + 1, col0 as int, tab as int);
            }
            return next;
        }
        col = next;
        i += 1;
    }
    proof {
        assert(text@.skip(n as int) =~= Seq::<char>::empty());
        assert(text@.take(n as int) =~= text@);
    }
    col
}

/// The column after a prefix, stated through the recursion on the suffix.
proof fn lemma_cols_suffix(t: Seq<char>, i: int, col0: int, tab: int)
    requires
        0 <= i <= t.len(),
    ensures
        spec_cols_text(t, col0, tab) == spec_cols_text(
            t.skip(i),
            spec_cols_text(t.take(i), col0, tab),
            tab,
        ),
    decreases i,
{
    if i == 0 {
        assert(t.skip(0) =~= t);
        assert(t.take(0) =~= Seq::<char>::empty());
    } else {
        lemma_cols_suffix(t, i - 1, col0, tab);
        let x = spec_cols_text(t.take(i - 1), col0, tab);
        let s1 = t.skip(i - 1);
        assert(s1.len() > 0);
        assert(s1[0] == t[i - 1]);
        assert(s1.drop_first() =~= t.skip(i));
        assert(spec_cols_text(s1, x, tab) == spec_cols_text(
            t.skip(i),
            spec_advance(x, t[i - 1], tab),
            tab,
        ));
        lemma_cols_prefix(t, i, col0, tab);
    }
}

/// Appending one character advances the prefix column once.
proof fn lemma_cols_prefix(t: Seq<char>, i: int, col0: int, tab: int)
    requires
        1 <= i <= t.len(),
    ensures
        spec_cols_text(t.take(i), col0, tab) == spec_advance(
            spec_cols_text(t.take(i - 1), col0, tab),
            t[i - 1],
            tab,
        ),
    decreases i,
{
    lemma_cols_snoc(t.take(i - 1), t[i - 1], col0, tab, t.take(i));
}

proof fn lemma_cols_snoc(pre: Seq<char>, c: char, col0: int, tab: int, whole: Seq<char>)
    requires
        whole =~= pre.push(c),
    ensures
        spec_cols_text(whole, col0, tab) == spec_advance(spec_cols_text(pre, col0, tab), c, tab),
    decreases pre.len(),
{
    if pre.len() == 0 {
        assert(whole.len() == 1);
        assert(whole[0] == c);
        assert(whole.drop_first() =~= Seq::<char>::empty());
        assert(spec_cols_text(whole, col0, tab) == spec_cols_text(
            whole.drop_first(),
            spec_advance(col0, c, tab),
            tab,
        ));
        assert(spec_cols_text(pre, col0, tab) == col0);
    } else {
        assert(whole.len() == pre.len() + 1);
        assert(whole[0] == pre[0]);
        assert(whole.drop_first() =~= pre.drop_first().push(c));
        lemma_cols_snoc(
            pre.drop_first(),
            c,
            spec_advance(col0, pre[0], tab),
            tab,
            whole.drop_first(),
        );
        assert(spec_cols_text(whole, col0, tab) == spec_cols_text(
            whole.drop_first(),
            spec_advance(col0, whole[0], tab),
            tab,
        ));
        assert(spec_cols_text(pre, col0, tab) == spec_cols_text(
            pre.drop_first(),
            spec_advance(col0, pre[0], tab),
            tab,
        ));
    }
}


/// The buffer after one line's runs are drawn left to right.
pub open spec fn spec_draw_runs(
    d: Seq<u8>,
    w: int,
    h: int,
    runs: Seq<StyledRun>,
    col: int,
    x0: int,
    y: int,
    gw: int,
    gh: int,
    tab: int,
) -> Seq<u8>
    decreases runs.len(),
{
    if runs.len() == 0 {
        d
    } else {
        spec_draw_runs(
            spec_draw_text(d, w, h, runs[0].text@, col, x0, y, gw, gh, tab, runs[0].fg),
            w,
            h,
            runs.drop_first(),
            spec_cols_text(runs[0].text@, col, tab),
            x0,
            y,
            gw,
            gh,
            tab,
        )
    }
}

/// The buffer after every line is drawn, one stride apart.
pub open spec fn spec_draw_lines(
    d: Seq<u8>,
    w: int,
    h: int,
    lines: Seq<Vec<StyledRun>>,
    x0: int,
    y: int,
    stride: int,
    gw: int,
    gh: int,
    tab: int,
) -> Seq<u8>
    decreases lines.len(),
{
    if lines.len() == 0 {
        d
    } else {
        spec_draw_lines(
            spec_draw_runs(d, w, h, lines[0]@, 0, x0, y, gw, gh, tab),
            w,
            h,
            lines.drop_first(),
            x0,
            y + stride,
            stride,
            gw,
            gh,
            tab,
        )
    }
}

/// Draws one line of runs, as [`spec_draw_runs`] describes.
#[verifier::loop_isolation(false)]
fn draw_line(
    img: &mut RenderedImage,
    runs: &Vec<StyledRun>,
    x0: i64,
    y: i64,
    gw: i64,
    gh: i64,
    tab: u8,
)
    requires
        old(img).wf(),
        0 <= x0 <= 0x1_0000_0000,
        -0x1_0000_0000 <= y <= 0x1_0000_0000,
        0 <= gw <= 0x1_0000_0000,
        0 <= gh <= 0x1_0000_0000,
    ensures
        final(img).wf(),
        final(img).width == old(img).width,
        final(img).height == old(img).height,
        final(img).data@ == spec_draw_runs(
            old(img).data@,
            old(img).width as int,
            old(img).height as int,
            runs@,
            0,
            x0 as int,
            y as int,
            gw as int,
            gh as int,
            tab as int,
        ),
{
    let ghost wi = old(img).width as int;
    let ghost hi = old(img).height as int;
    let ghost whole = spec_draw_runs(
        old(img).data@,
        wi,
        hi,
        runs@,
        0,
        x0 as int,
        y as int,
        gw as int,
        gh as int,
        tab as int,
    );
    let mut col: u64 = 0;
    let ghost mut gcol: int = 0int;
    let mut j: usize = 0;
    proof {
        assert(runs@.skip(0) =~= runs@);
    }
    while j < runs.len()
        invariant
            img.wf(),
            img.width == old(img).width,
            img.height == old(img).height,
            j <= runs@.len(),
            col <= MAX_DIM ==> col == gcol,
            col > MAX_DIM ==> gcol > MAX_DIM,
            whole == spec_draw_runs(
                img.data@,
                wi,
                hi,
                runs@.skip(j as int),
                gcol,
                x0 as int,
                y as int,
                gw as int,
                gh as int,
                tab as int,
            ),
        decreases runs@.len() - j,
    {
        let ghost rest = runs@.skip(j as int);
        proof {
            assert(rest[0] == runs@[j as int]);
            assert(rest.drop_first() =~= runs@.skip(j as int + 1));
        }
        if col <= MAX_DIM as u64 {
            col = draw_text(img, runs[j].text.as_str(), col, x0, y, gw, gh, tab, runs[j].fg);
            proof {
                gcol = spec_cols_text(runs@[j as int].text@, gcol, tab as int);
            }
        } else {
            proof {
                lemma_draw_text_beyond(
                    img.data@,
                    wi,
                    hi,
                    runs@[j as int].text@,
                    gcol,
                    x0 as int,
                    y as int,
                    gw as int,
                    gh as int,
                    tab as int,
                    runs@[j as int].fg,
                );
                lemma_cols_text_ge(runs@[j as int].text@, gcol, tab as int);
                gcol = spec_cols_text(runs@[j as int].text@, gcol, tab as int);
            }
        }
        j += 1;
    }
    proof {
        assert(runs@.skip(runs@.len() as int) =~= Seq::<StyledRun>::empty());
    }
}

/// Draws every line, as [`spec_draw_lines`] describes.
#[verifier::loop_isolation(false)]
fn draw_lines(
    img: &mut RenderedImage,
    lines: &Vec<Vec<StyledRun>>,
    x0: i64,
    y0: i64,
    stride: i64,
    gw: i64,
    gh: i64,
    tab: u8,
)
    requires
        old(img).wf(),
        0 <= x0 <= 0x1_0000_0000,
        0 <= y0 <= 0x1_0000_0000,
        0 <= stride,
        y0 + (lines@.len() as int) * stride <= 0x1_0000_0000,
        0 <= gw <= 0x1_0000_0000,
        0 <= gh <= 0x1_0000_0000,
    ensures
        final(img).wf(),
        final(img).width == old(img).width,
        final(img).height == old(img).height,
        final(img).data@ == spec_draw_lines(
            old(img).data@,
            old(img).width as int,
            old(img).height as int,
            lines@,
            x0 as int,
            y0 as int,
            stride as int,
            gw as int,
            gh as int,
            tab as int,
        ),
{
    let ghost wi = old(img).width as int;
    let ghost hi = old(img).height as int;
    let ghost n = lines@.len() as int;
    let ghost whole = spec_draw_lines(
        old(img).data@,
        wi,
        hi,
        lines@,
        x0 as int,
        y0 as int,
        stride as int,
        gw as int,
        gh as int,
        tab as int,
    );
    let mut y: i64 = y0;
    let mut l: usize = 0;
    proof {
        assert(lines@.skip(0) =~= lines@);
    }
    while l < lines.len()
        invariant
            img.wf(),
            img.width == old(img).width,
            img.height == old(img).height,
            l <= n,
            n == lines@.len(),
            y0 <= y,
            y as int == y0 + (l as int) * stride,
            y as int + (n - l) * stride == y0 + n * stride,
            whole == spec_draw_lines(
                img.data@,
                wi,
                hi,
                lines@.skip(l as int),
                x0 as int,
                y as int,
                stride as int,
                gw as int,
                gh as int,
                tab as int,
            ),
        decreases n - l,
    {
        let ghost rest = lines@.skip(l as int);
        proof {
            assert(rest[0] == lines@[l as int]);
            assert(rest.drop_first() =~= lines@.skip(l as int + 1));
            assert((n - l) * stride == (n - l - 1) * stride + stride) by (nonlinear_arith);
            assert((n - l - 1) * stride >= 0) by (nonlinear_arith)
                requires
                    n - l - 1 >= 0,
                    stride >= 0,
            ;
            assert((l as int + 1) * stride == (l as int) * stride + stride) by (nonlinear_arith);
        }
        draw_line(img, &lines[l], x0, y, gw, gh, tab);
        y = y + stride;
        l += 1;
    }
    proof {
        assert(lines@.skip(n) =~= Seq::<Vec<StyledRun>>::empty());
    }
}

/// A fresh canvas: every pixel the background color.
pub open spec fn spec_canvas(w: int, h: int, c: Rgba) -> Seq<u8> {
    Seq::new((4 * w * h) as nat, |i: int| channel_of(c, ch_of(i)))
}

/// Allocates the canvas filled with `c`, as [`spec_canvas`] describes.
#[verifier::loop_isolation(false)]
fn alloc_canvas(w: u32, h: u32, c: Rgba) -> (img: RenderedImage)
    requires
        1 <= w <= MAX_DIM,
        1 <= h <= MAX_DIM,
    ensures
        img.wf(),
        img.width == w,
        img.height == h,
        img.data@ == spec_canvas(w as int, h as int, c),
{
    let ghost wi = w as int;
    let ghost hi = h as int;
    let ghost target = spec_canvas(wi, hi, c);
    let mut data: Vec<u8> = Vec::new();
    proof {
        assert(target.len() == 4 * wi * hi);
        assert(0 <= 4 * wi * hi <= 4 * 0x4000 * 0x4000) by (nonlinear_arith)
            requires
                1 <= wi <= 0x4000,
                1 <= hi <= 0x4000,
        ;
    }
    let total: usize = 4 * (w as usize) * (h as usize);
    let mut i: usize = 0;
    while i < total
        invariant
            i <= total,
            total as int == 4 * wi * hi,
            data@.len() == i,
            forall|j: int| #![all_triggers] 0 <= j < i ==> data@[j] == target[j],
        decreases total - i,
    {
        let ghost j0 = data@.len() as int;
        let r: usize = i % 4;
        let v: u8 = if r == 0 {
            c.r
        } else if r == 1 {
            c.g
        } else if r == 2 {
            c.b
        } else {
            c.a
        };
        data.push(v);
        proof {
            assert(ch_of(j0) == r as int);
            assert(target[j0] == channel_of(c, ch_of(j0)));
        }
        i += 1;
    }
    proof {
        assert(data@ =~= target);
    }
    RenderedImage { width: w, height: h, data }
}


/// Whether the emphasis set names line number `v`.
pub open spec fn spec_hl_contains(hl: Seq<usize>, v: int) -> bool {
    exists|k: int| 0 <= k < hl.len() && #[trigger] hl[k] as int == v
}

/// Whether the emphasis set names line number `v`, as
/// [`spec_hl_contains`] describes.
#[verifier::loop_isolation(false)]
fn hl_contains(hl: &Vec<usize>, v: u128) -> (r: bool)
    ensures
        r == spec_hl_contains(hl@, v as int),
{
    let mut k: usize = 0;
    while k < hl.len()
        invariant
            k <= hl@.len(),
            forall|j: int| 0 <= j < k ==> #[trigger] hl@[j] as int != v as int,
        decreases hl@.len() - k,
    {
        if hl[k] as u128 == v {
            return true;
        }
        k += 1;
    }
    false
}

/// The buffer after the emphasis bands are laid behind their lines.
pub open spec fn spec_draw_bands(
    d: Seq<u8>,
    w: int,
    h: int,
    hl: Seq<usize>,
    base: int,
    l: int,
    n: int,
    x0: int,
    y: int,
    stride: int,
    bw: int,
    color: Rgba,
) -> Seq<u8>
    decreases n - l,
{
    if l >= n {
        d
    } else {
        let d2 = if spec_hl_contains(hl, base + l) {
            spec_fill_rect(d, w, h, x0, y, bw, stride, color)
        } else {
            d
        };
        spec_draw_bands(d2, w, h, hl, base, l + 1, n, x0, y + stride, stride, bw, color)
    }
}

/// Draws the emphasis bands, as [`spec_draw_bands`] describes.
#[verifier::loop_isolation(false)]
fn draw_bands(
    img: &mut RenderedImage,
    hl: &Vec<usize>,
    base: u32,
    n: usize,
    x0: i64,
    y0: i64,
    stride: i64,
    bw: i64,
    color: Rgba,
)
    requires
        old(img).wf(),
        0 <= x0 <= 0x1_0000_0000,
        0 <= y0 <= 0x1_0000_0000,
        0 <= stride,
        0 <= bw <= 0x1_0000_0000,
        y0 + (n as int) * stride <= 0x1_0000_0000,
    ensures
        final(img).wf(),
        final(img).width == old(img).width,
        final(img).height == old(img).height,
        final(img).data@ == spec_draw_bands(
            old(img).data@,
            old(img).width as int,
            old(img).height as int,
            hl@,
            base as int,
            0,
            n as int,
            x0 as int,
            y0 as int,
            stride as int,
            bw as int,
            color,
        ),
{
    let ghost wi = old(img).width as int;
    let ghost hi = old(img).height as int;
    let ghost ni = n as int;
    let ghost whole = spec_draw_bands(
        old(img).data@,
        wi,
        hi,
        hl@,
        base as int,
        0,
        ni,
        x0 as int,
        y0 as int,
        stride as int,
        bw as int,
        color,
    );
    let mut y: i64 = y0;
    let mut l: usize = 0;
    while l < n
        invariant
            img.wf(),
            img.width == old(img).width,
            img.height == old(img).height,
            l <= n,
            y0 <= y,
            y as int == y0 + (l as int) * stride,
            y as int + (ni - l) * stride == y0 + ni * stride,
            whole == spec_draw_bands(
                img.data@,
                wi,
                hi,
                hl@,
                base as int,
                l as int,
                ni,
                x0 as int,
                y as int,
                stride as int,
                bw as int,
                color,
            ),
        decreases n - l,
    {
        proof {
            assert((ni - l) * stride == (ni - l - 1) * stride + stride) by (nonlinear_arith);
            assert((ni - l - 1) * stride >= 0) by (nonlinear_arith)
                requires
                    ni - l - 1 >= 0,
                    stride >= 0,
            ;
            assert((l as int + 1) * stride == (l as int) * stride + stride) by (nonlinear_arith);
        }
        let lineno: u128 = base as u128 + l as u128;
        if hl_contains(hl, lineno) {
            fill_rect(img, x0, y, bw, stride, color);
        }
        y = y + stride;
        l += 1;
    }
}

/// The buffer after `k` digit cells are drawn leftwards from `x`.
pub open spec fn spec_draw_digits(
    d: Seq<u8>,
    w: int,
    h: int,
    k: int,
    x: int,
    y: int,
    gw: int,
    gh: int,
    color: Rgba,
) -> Seq<u8>
    decreases k,
{
    if k <= 0 {
        d
    } else {
        spec_draw_digits(
            spec_fill_rect(d, w, h, x - gw, y, gw, gh, color),
            w,
            h,
            k - 1,
            x - gw,
            y,
            gw,
            gh,
            color,
        )
    }
}

/// Draws `k` digit cells leftwards, as [`spec_draw_digits`] describes.
#[verifier::loop_isolation(false)]
fn draw_digits(img: &mut RenderedImage, k: u32, x: i64, y: i64, gw: i64, gh: i64, color: Rgba)
    requires
        old(img).wf(),
        k <= 64,
        -0x1_0000_0000 <= x <= 0x1_0000_0000,
        -0x1_0000_0000 <= y <= 0x1_0000_0000,
        0 <= gw <= 0x1_0000_0000,
        0 <= gh <= 0x1_0000_0000,
    ensures
        final(img).wf(),
        final(img).width == old(img).width,
        final(img).height == old(img).height,
        final(img).data@ == spec_draw_digits(
            old(img).data@,
            old(img).width as int,
            old(img).height as int,
            k as int,
            x as int,
            y as int,
            gw as int,
            gh as int,
            color,
        ),
{
    let ghost wi = old(img).width as int;
    let ghost hi = old(img).height as int;
    let ghost whole = spec_draw_digits(
        old(img).data@,
        wi,
        hi,
        k as int,
        x as int,
        y as int,
        gw as int,
        gh as int,
        color,
    );
    let mut x_cur: i64 = x;
    let mut rem: u32 = k;
    while rem > 0
        invariant
            img.wf(),
            img.width == old(img).width,
            img.height == old(img).height,
            rem <= k,
            x_cur as int == x as int - ((k - rem) as int) * (gw as int),
            whole == spec_draw_digits(
                img.data@,
                wi,
                hi,
                rem as int,
                x_cur as int,
                y as int,
                gw as int,
                gh as int,
                color,
            ),
        decreases rem,
    {
        proof {
            assert(((k - rem) as int) * (gw as int) + (gw as int) == ((k - rem + 1) as int) * (
            gw as int)) by (nonlinear_arith);
            assert(0 <= ((k - rem) as int) * (gw as int) <= 64 * 0x1_0000_0000) by (
            nonlinear_arith)
                requires
                    0 <= (k - rem) as int <= 64,
                    0 <= gw as int <= 0x1_0000_0000,
            ;
            assert(0 <= ((k - rem + 1) as int) * (gw as int) <= 64 * 0x1_0000_0000) by (
            nonlinear_arith)
                requires
                    0 <= (k - rem + 1) as int <= 64,
                    0 <= gw as int <= 0x1_0000_0000,
            ;
        }
        fill_rect(img, x_cur - gw, y, gw, gh, color);
        x_cur = x_cur - gw;
        rem -= 1;
    }
}

/// The buffer after every line number is drawn, right-aligned at `xr`.
pub open spec fn spec_draw_linenos(
    d: Seq<u8>,
    w: int,
    h: int,
    l: int,
    n: int,
    base: int,
    xr: int,
    y: int,
    stride: int,
    gw: int,
    gh: int,
    color: Rgba,
) -> Seq<u8>
    decreases n - l,
{
    if l >= n {
        d
    } else {
        spec_draw_linenos(
            spec_draw_digits(d, w, h, spec_ndigits_capped(base + l), xr, y, gw, gh, color),
            w,
            h,
            l + 1,
            n,
            base,
            xr,
            y + stride,
            stride,
            gw,
            gh,
            color,
        )
    }
}

/// Counts decimal digits, as [`spec_ndigits_capped`] describes.
fn ndigits(v: u128) -> (r: u32)
    ensures
        r == spec_ndigits_capped(v as int),
        1 <= r <= 40,
{
    let mut d: u32 = 0;
    let mut x: u128 = v;
    while x >= 10 && d < 40
        invariant
            spec_ndigits(v as int) == d + spec_ndigits(x as int),
            d <= 40,
        decreases x,
    {
        proof {
            assert(spec_ndigits(x as int) == 1 + spec_ndigits((x as int) / 10));
            assert((x as int) / 10 == (x / 10) as int);
        }
        x = x / 10;
        d += 1;
    }
    proof {
        if x >= 10 {
            assert(spec_ndigits(x as int) == 1 + spec_ndigits((x as int) / 10));
            lemma_ndigits_pos((x as int) / 10);
        } else {
            lemma_ndigits_pos(x as int);
        }
    }
    if x >= 10 {
        40
    } else if d >= 40 {
        40
    } else {
        d + 1
    }
}

/// Draws the line numbers, as [`spec_draw_linenos`] describes.
#[verifier::loop_isolation(false)]
fn draw_linenos(
    img: &mut RenderedImage,
    n: usize,
    base: u32,
    xr: i64,
    y0: i64,
    stride: i64,
    gw: i64,
    gh: i64,
    color: Rgba,
)
    requires
        old(img).wf(),
        0 <= xr <= 0x1_0000_0000,
        0 <= y0 <= 0x1_0000_0000,
        0 <= stride,
        0 <= gw <= 0x1_0000_0000,
        0 <= gh <= 0x1_0000_0000,
        y0 + (n as int) * stride <= 0x1_0000_0000,
    ensures
        final(img).wf(),
        final(img).width == old(img).width,
        final(img).height == old(img).height,
        final(img).data@ == spec_draw_linenos(
            old(img).data@,
            old(img).width as int,
            old(img).height as int,
            0,
            n as int,
            base as int,
            xr as int,
            y0 as int,
            stride as int,
            gw as int,
            gh as int,
            color,
        ),
{
    let ghost wi = old(img).width as int;
    let ghost hi = old(img).height as int;
    let ghost ni = n as int;
    let ghost whole = spec_draw_linenos(
        old(img).data@,
        wi,
        hi,
        0,
        ni,
        base as int,
        xr as int,
        y0 as int,
        stride as int,
        gw as int,
        gh as int,
        color,
    );
    let mut y: i64 = y0;
    let mut l: usize = 0;
    while l < n
        invariant
            img.wf(),
            img.width == old(img).width,
            img.height == old(img).height,
            l <= n,
            y0 <= y,
            y as int == y0 + (l as int) * stride,
            y as int + (ni - l) * stride == y0 + ni * stride,
            whole == spec_draw_linenos(
                img.data@,
                wi,
                hi,
                l as int,
                ni,
                base as int,
                xr as int,
                y as int,
                stride as int,
                gw as int,
                gh as int,
                color,
            ),
        decreases n - l,
    {
        proof {
            assert((ni - l) * stride == (ni - l - 1) * stride + stride) by (nonlinear_arith);
            assert((ni - l - 1) * stride >= 0) by (nonlinear_arith)
                requires
                    ni - l - 1 >= 0,
                    stride >= 0,
            ;
            assert((l as int + 1) * stride == (l as int) * stride + stride) by (nonlinear_arith);
        }
        let lineno: u128 = base as u128 + l as u128;
        let nd = ndigits(lineno);
        draw_digits(img, nd, xr, y, gw, gh, color);
        y = y + stride;
        l += 1;
    }
}

/// The buffer after the three window-control dots are drawn in the chrome.
pub open spec fn spec_controls(d: Seq<u8>, w: int, h: int, px: int, py: int) -> Seq<u8> {
    let c1 = spec_fill_circle(
        d,
        w,
        h,
        px + 20,
        py + 20,
        CONTROL_RADIUS as int,
        (Rgba { r: 255, g: 95, b: 86, a: 255 }),
    );
    let c2 = spec_fill_circle(
        c1,
        w,
        h,
        px + 46,
        py + 20,
        CONTROL_RADIUS as int,
        (Rgba { r: 255, g: 189, b: 46, a: 255 }),
    );
    spec_fill_circle(
        c2,
        w,
        h,
        px + 72,
        py + 20,
        CONTROL_RADIUS as int,
        (Rgba { r: 39, g: 201, b: 63, a: 255 }),
    )
}

/// Draws the window-control dots, as [`spec_controls`] describes.
fn draw_controls(img: &mut RenderedImage, px: i64, py: i64)
    requires
        old(img).wf(),
        0 <= px <= 0x100_0000,
        0 <= py <= 0x100_0000,
    ensures
        final(img).wf(),
        final(img).width == old(img).width,
        final(img).height == old(img).height,
        final(img).data@ == spec_controls(
            old(img).data@,
            old(img).width as int,
            old(img).height as int,
            px as int,
            py as int,
        ),
{
    fill_circle(img, px + 20, py + 20, CONTROL_RADIUS as i64, Rgba { r: 255, g: 95, b: 86, a: 255 });
    fill_circle(
        img,
        px + 46,
        py + 20,
        CONTROL_RADIUS as i64,
        Rgba { r: 255, g: 189, b: 46, a: 255 },
    );
    fill_circle(img, px + 72, py + 20, CONTROL_RADIUS as i64, Rgba { r: 39, g: 201, b: 63, a: 255 });
}

/// The buffer after all four corners are rounded off.
pub open spec fn spec_corners(d: Seq<u8>, w: int, h: int) -> Seq<u8> {
    let r = CORNER_RADIUS as int;
    let c1 = spec_mask_corner(d, w, h, 0, 0, r, r, r, r);
    let c2 = spec_mask_corner(c1, w, h, w - r, 0, r, w - 1 - r, r, r);
    let c3 = spec_mask_corner(c2, w, h, 0, h - r, r, r, h - 1 - r, r);
    spec_mask_corner(c3, w, h, w - r, h - r, r, w - 1 - r, h - 1 - r, r)
}

/// Rounds the four canvas corners, as [`spec_corners`] describes.
fn round_corners(img: &mut RenderedImage)
    requires
        old(img).wf(),
        1 <= old(img).width <= MAX_DIM,
        1 <= old(img).height <= MAX_DIM,
    ensures
        final(img).wf(),
        final(img).width == old(img).width,
        final(img).height == old(img).height,
        final(img).data@ == spec_corners(
            old(img).data@,
            old(img).width as int,
            old(img).height as int,
        ),
{
    let w = img.width as i64;
    let h = img.height as i64;
    let r = CORNER_RADIUS as i64;
    mask_corner(img, 0, 0, r, r, r, r);
    mask_corner(img, w - r, 0, r, w - 1 - r, r, r);
    mask_corner(img, 0, h - r, r, r, h - 1 - r, r);
    mask_corner(img, w - r, h - r, r, w - 1 - r, h - 1 - r, r);
}


/// Measures the cursor column after one text, without drawing. The result
/// is exact while it is on the canvas scale; any value beyond `MAX_DIM`
/// means the exact column is beyond it too.
#[verifier::loop_isolation(false)]
fn cols_text(text: &str, col0: u64, tab: u8) -> (col: u64)
    requires
        col0 <= MAX_DIM,
    ensures
        col <= MAX_DIM ==> col == spec_cols_text(text@, col0 as int, tab as int),
        col > MAX_DIM ==> spec_cols_text(text@, col0 as int, tab as int) > MAX_DIM,
{
    let n = text.unicode_len();
    let mut col: u64 = col0;
    let mut i: usize = 0;
    proof {
        assert(text@.take(0) =~= Seq::<char>::empty());
    }
    while i < n
        invariant
            i <= n,
            n == text@.len(),
            col <= MAX_DIM,
            col == spec_cols_text(text@.take(i as int), col0 as int, tab as int),
        decreases n - i,
    {
        let c = text.get_char(i);
        let next: u64 = if c == '\t' {
            col + (tab as u64)
        } else if c == '\n' {
            col
        } else {
            col + 1
        };
        proof {
            let tk = text@.take(i as int + 1);
            assert(tk.drop_last() =~= text@.take(i as int));
            assert(tk.last() == text@[i as int]);
            lemma_cols_prefix(text@, i as int + 1, col0 as int, tab as int);
            assert(next == spec_cols_text(text@.take(i as int + 1), col0 as int, tab as int));
        }
        if next > MAX_DIM as u64 {
            proof {
                lemma_cols_suffix(text@, i as int + 1, col0 as int, tab as int);
                lemma_cols_text_ge(text@.skip(i as int + 1), next as int, tab as int);
            }
            return next;
        }
        col = next;
        i += 1;
    }
    proof {
        assert(text@.take(n as int) =~= text@);
    }
    col
}

/// Measures the cursor column after one line of runs, without drawing,
/// under the same convention as [`cols_text`].
#[verifier::loop_isolation(false)]
fn cols_line(runs: &Vec<StyledRun>, tab: u8) -> (col: u64)
    ensures
        col <= MAX_DIM ==> col == spec_cols_runs(runs@, 0, tab as int),
        col > MAX_DIM ==> spec_cols_runs(runs@, 0, tab as int) > MAX_DIM,
{
    let ghost whole = spec_cols_runs(runs@, 0, tab as int);
    let mut col: u64 = 0;
    let ghost mut gcol: int = 0int;
    let mut j: usize = 0;
    proof {
        assert(runs@.skip(0) =~= runs@);
    }
    while j < runs.len()
        invariant
            j <= runs@.len(),
            col <= MAX_DIM ==> col == gcol,
            col > MAX_DIM ==> gcol > MAX_DIM,
            whole == spec_cols_runs(runs@.skip(j as int), gcol, tab as int),
        decreases runs@.len() - j,
    {
        let ghost rest = runs@.skip(j as int);
        proof {
            assert(rest[0] == runs@[j as int]);
            assert(rest.drop_first() =~= runs@.skip(j as int + 1));
        }
        if col <= MAX_DIM as u64 {
            col = cols_text(runs[j].text.as_str(), col, tab);
            proof {
                gcol = spec_cols_text(runs@[j as int].text@, gcol, tab as int);
            }
        } else {
            proof {
                lemma_cols_text_ge(runs@[j as int].text@, gcol, tab as int);
                gcol = spec_cols_text(runs@[j as int].text@, gcol, tab as int);
            }
        }
        j += 1;
    }
    proof {
        assert(runs@.skip(runs@.len() as int) =~= Seq::<StyledRun>::empty());
        lemma_cols_runs_ge(runs@.skip(runs@.len() as int), gcol, tab as int);
    }
    col
}

/// Measures the widest line, without drawing, under the same convention as
/// [`cols_text`].
#[verifier::loop_isolation(false)]
fn max_cols(lines: &Vec<Vec<StyledRun>>, tab: u8) -> (cols: u64)
    ensures
        cols <= MAX_DIM ==> cols == spec_max_cols(lines@, tab as int),
        cols > MAX_DIM ==> spec_max_cols(lines@, tab as int) > MAX_DIM,
{
    let mut cur: u64 = 0;
    let mut i: usize = 0;
    proof {
        assert(lines@.take(0) =~= Seq::<Vec<StyledRun>>::empty());
    }
    while i < lines.len()
        invariant
            i <= lines@.len(),
            cur <= MAX_DIM ==> cur == spec_max_cols(lines@.take(i as int), tab as int),
            cur > MAX_DIM ==> spec_max_cols(lines@.take(i as int), tab as int) > MAX_DIM,
        decreases lines@.len() - i,
    {
        let c = cols_line(&lines[i], tab);
        proof {
            let tk = lines@.take(i as int + 1);
            assert(tk.drop_last() =~= lines@.take(i as int));
            assert(tk.last() == lines@[i as int]);
        }
        if c > cur {
            cur = c;
        }
        i += 1;
    }
    proof {
        assert(lines@.take(lines@.len() as int) =~= lines@);
    }
    cur
}

/// Glyph cell width of a font of point size `size`.
pub open spec fn spec_glyph_w(size: int) -> int {
    (size + 1) / 2
}

/// Height of the window-decoration area: present when the controls are on
/// or a title is set.
pub open spec fn spec_chrome_height(window_controls: bool, has_title: bool) -> int {
    if window_controls || has_title {
        CHROME_HEIGHT as int
    } else {
        0
    }
}

/// Height of the window-decoration area of one render.
pub open spec fn spec_chrome(vs: VisualSpec) -> int {
    spec_chrome_height(vs.window_controls, vs.window_title is Some)
}

/// Width of the line-number gutter: digit cells for the last line number
/// plus one cell of gap, or nothing when numbers are off or no line exists.
pub open spec fn spec_gutter_cells(line_number: bool, line_offset: u32, n: int, gw: int) -> int {
    if line_number && n > 0 {
        (spec_ndigits_capped(line_offset as int + n - 1) + 1) * gw
    } else {
        0
    }
}

/// Width of the line-number gutter of one render.
pub open spec fn spec_gutter(vs: VisualSpec, n: int, gw: int) -> int {
    spec_gutter_cells(vs.line_number, vs.line_offset, n, gw)
}

/// Horizontal inset of the window title within the chrome.
pub open spec fn spec_title_inset(vs: VisualSpec) -> int {
    if vs.window_controls {
        98
    } else {
        16
    }
}

/// The canvas width one render asks for: gutter, text columns and twice the
/// horizontal padding.
pub open spec fn spec_canvas_w(lines: Seq<Vec<StyledRun>>, vs: VisualSpec) -> int {
    if vs.fonts@.len() == 0 {
        0
    } else {
        let gw = spec_glyph_w(vs.fonts@[0].size as int);
        spec_gutter(vs, lines.len() as int, gw) + spec_max_cols(lines, vs.tab_width as int) * gw + 2
            * (vs.pad_horiz as int)
    }
}

/// The canvas height one render asks for: one stride per line, the chrome,
/// and twice the vertical padding.
pub open spec fn spec_canvas_h(lines: Seq<Vec<StyledRun>>, vs: VisualSpec) -> int {
    if vs.fonts@.len() == 0 {
        0
    } else {
        (lines.len() as int) * (vs.fonts@[0].size as int + vs.line_pad as int) + spec_chrome(vs) + 2
            * (vs.pad_vert as int)
    }
}

/// Every pass of one render, in order: background, shadow, blur, panel,
/// emphasis bands, window controls, title, line numbers, glyph cells,
/// rounded corners.
pub open spec fn spec_render_pixels(
    lines: Seq<Vec<StyledRun>>,
    vs: VisualSpec,
    theme: Theme,
    w: int,
    h: int,
) -> Seq<u8> {
    let size = vs.fonts@[0].size as int;
    let gw = spec_glyph_w(size);
    let gh = size;
    let tab = vs.tab_width as int;
    let n = lines.len() as int;
    let chrome = spec_chrome(vs);
    let gutter = spec_gutter(vs, n, gw);
    let px = vs.pad_horiz as int;
    let py = vs.pad_vert as int;
    let pw = gutter + spec_max_cols(lines, tab) * gw;
    let stride = gh + vs.line_pad as int;
    let ph = n * stride + chrome;
    let d0 = spec_canvas(w, h, vs.background);
    let d1 = spec_fill_rect(
        d0,
        w,
        h,
        px + vs.offset_x as int,
        py + vs.offset_y as int,
        pw,
        ph,
        vs.shadow_color,
    );
    let d2 = spec_blur_v(
        spec_blur_h(d1, w, h, vs.blur_radius as int),
        w,
        h,
        vs.blur_radius as int,
    );
    let d3 = spec_fill_rect(d2, w, h, px, py, pw, ph, theme.background);
    let d4 = spec_draw_bands(
        d3,
        w,
        h,
        vs.highlight_lines@,
        vs.line_offset as int,
        0,
        n,
        px,
        py + chrome,
        stride,
        pw,
        theme.highlight,
    );
    let d5 = if vs.window_controls {
        spec_controls(d4, w, h, px, py)
    } else {
        d4
    };
    let d6 = match vs.window_title {
        Some(t) => spec_draw_text(
            d5,
            w,
            h,
            t@,
            0,
            px + spec_title_inset(vs),
            py + (if chrome >= gh {
                (chrome - gh) / 2
            } else {
                0
            }),
            gw,
            gh,
            tab,
            theme.foreground,
        ),
        None => d5,
    };
    let d7 = if vs.line_number && n > 0 {
        spec_draw_linenos(
            d6,
            w,
            h,
            0,
            n,
            vs.line_offset as int,
            px + gutter - gw,
            py + chrome,
            stride,
            gw,
            gh,
            theme.foreground,
        )
    } else {
        d6
    };
    let d8 = spec_draw_lines(d7, w, h, lines, px + gutter, py + chrome, stride, gw, gh, tab);
    if vs.round_corner {
        spec_corners(d8, w, h)
    } else {
        d8
    }
}

/// What one render produces: the canvas dimensions and pixels, or nothing
/// when no font is available or the dimensions leave the supported range.
pub open spec fn spec_render(
    lines: Seq<Vec<StyledRun>>,
    vs: VisualSpec,
    theme: Theme,
) -> Option<(u32, u32, Seq<u8>)> {
    if vs.fonts@.len() == 0 {
        None
    } else {
        let w = spec_canvas_w(lines, vs);
        let h = spec_canvas_h(lines, vs);
        if 1 <= w <= MAX_DIM && 1 <= h <= MAX_DIM {
            Some((w as u32, h as u32, spec_render_pixels(lines, vs, theme, w, h)))
        } else {
            None
        }
    }
}


/// Renders the capture: composites every pass onto a fresh canvas, exactly
/// as [`spec_render`] describes. Succeeds if and only if the fallback list
/// holds a font and the canvas dimensions stay within `1..=MAX_DIM`; an
/// empty fallback list is the font resolution failure, impossible
/// dimensions are reported as a generic failure.
#[verifier::loop_isolation(false)]
pub fn render_image(lines: &Vec<Vec<StyledRun>>, vs: &VisualSpec, theme: &Theme) -> (r: Result<
    RenderedImage,
    Error,
>)
    ensures
        match r {
            Ok(img) => {
                &&& spec_render(lines@, *vs, *theme) == Some(
                    (img.width, img.height, img.data@),
                )
                &&& img.wf()
                &&& img.width as int == spec_canvas_w(lines@, *vs)
                &&& img.height as int == spec_canvas_h(lines@, *vs)
            },
            Err(e) => {
                &&& spec_render(lines@, *vs, *theme) is None
                &&& (if vs.fonts@.len() == 0 {
                    e matches Error::FontResolution(_)
                } else {
                    e matches Error::Generic(m) && m@ == "render dimensions out of range"@
                })
            },
        },
{
    let n = lines.len();
    let ghost ni = n as int;
    if vs.fonts.len() == 0 {
        return Err(Error::FontResolution(String::from_str("empty fallback list")));
    }
    let size: u32 = vs.fonts[0].size;
    let gw64: u64 = (size as u64 + 1) / 2;
    let gh64: u64 = size as u64;
    let tab: u8 = vs.tab_width;
    let ghost gwi = spec_glyph_w(size as int);
    proof {
        assert(gw64 as int == gwi);
        assert(gw64 <= 0x8000_0000);
    }
    let cols: u64 = max_cols(lines, tab);
    let has_title = match &vs.window_title {
        Some(_) => true,
        None => false,
    };
    let chrome64: u64 = if vs.window_controls || has_title {
        CHROME_HEIGHT as u64
    } else {
        0
    };
    let gutter64: u64 = if vs.line_number && n > 0 {
        let nd = ndigits(vs.line_offset as u128 + (n - 1) as u128);
        proof {
            assert((nd as int + 1) * (gw64 as int) <= 41 * 0x8000_0000) by (nonlinear_arith)
                requires
                    1 <= nd as int + 1 <= 41,
                    0 <= gw64 as int <= 0x8000_0000,
            ;
            assert((nd as int + 1) * (gw64 as int) >= 0) by (nonlinear_arith)
                requires
                    1 <= nd as int + 1,
                    0 <= gw64 as int,
            ;
        }
        (nd as u64 + 1) * gw64
    } else {
        0
    };
    proof {
        assert(gutter64 as int == spec_gutter(*vs, ni, gwi));
    }
    let colspx: u64 = if gw64 == 0 {
        proof {
            assert(spec_max_cols(lines@, tab as int) * 0 == 0) by (nonlinear_arith);
        }
        0
    } else {
        if cols > MAX_DIM as u64 {
            proof {
                let sc = spec_max_cols(lines@, tab as int);
                assert(sc * (gw64 as int) >= sc) by (nonlinear_arith)
                    requires
                        gw64 as int >= 1,
                        sc > 0,
                ;
            }
            return Err(Error::Generic(String::from_str("render dimensions out of range")));
        }
        proof {
            assert(0 <= (cols as int) * (gw64 as int) <= 0x4000 * 0x8000_0000) by (
            nonlinear_arith)
                requires
                    0 <= cols as int <= 0x4000,
                    0 <= gw64 as int <= 0x8000_0000,
            ;
        }
        cols * gw64
    };
    proof {
        assert(colspx as int == spec_max_cols(lines@, tab as int) * gwi);
    }
    let pw64: u64 = gutter64 + colspx;
    let w64: u64 = pw64 + 2 * (vs.pad_horiz as u64);
    let stride64: u64 = gh64 + (vs.line_pad as u64);
    proof {
        assert(0 <= (n as int) * (stride64 as int) <= 0x1_0000_0000_0000_0000
            * 0x3_0000_0000) by (nonlinear_arith)
            requires
                0 <= n as int <= 0x1_0000_0000_0000_0000,
                0 <= stride64 as int <= 0x3_0000_0000,
        ;
    }
    let ph128: u128 = (n as u128) * (stride64 as u128) + (chrome64 as u128);
    let h128: u128 = ph128 + 2 * (vs.pad_vert as u128);
    proof {
        assert((n as int) * (stride64 as int) == (n as u128 as int) * (stride64 as u128 as int));
        assert(w64 as int == spec_canvas_w(lines@, *vs));
        assert(h128 as int == spec_canvas_h(lines@, *vs));
    }
    if w64 < 1 || w64 > MAX_DIM as u64 || h128 < 1 || h128 > MAX_DIM as u128 {
        return Err(Error::Generic(String::from_str("render dimensions out of range")));
    }
    let w: u32 = w64 as u32;
    let h: u32 = h128 as u32;
    let ghost wi = w as int;
    let ghost hi = h as int;
    let mut img = alloc_canvas(w, h, vs.background);
    let px: i64 = vs.pad_horiz as i64;
    let py: i64 = vs.pad_vert as i64;
    let pw: i64 = pw64 as i64;
    let ph: i64 = ph128 as i64;
    let stride: i64 = stride64 as i64;
    let gw: i64 = gw64 as i64;
    let gh: i64 = gh64 as i64;
    let gutter: i64 = gutter64 as i64;
    let chrome: i64 = chrome64 as i64;
    proof {
        assert(2 * (vs.pad_horiz as int) <= w64 as int);
        assert(2 * (vs.pad_vert as int) <= h128 as int);
        assert(ni * (stride as int) + (chrome as int) == ph as int);
        assert(ni * (stride as int) >= 0) by (nonlinear_arith)
            requires
                ni >= 0,
                stride as int >= 0,
        ;
    }
    fill_rect(
        &mut img,
        px + (vs.offset_x as i64),
        py + (vs.offset_y as i64),
        pw,
        ph,
        vs.shadow_color,
    );
    blur_box(&mut img, vs.blur_radius);
    fill_rect(&mut img, px, py, pw, ph, theme.background);
    draw_bands(
        &mut img,
        &vs.highlight_lines,
        vs.line_offset,
        n,
        px,
        py + chrome,
        stride,
        pw,
        theme.highlight,
    );
    if vs.window_controls {
        draw_controls(&mut img, px, py);
    }
    match &vs.window_title {
        Some(t) => {
            let inset: i64 = if vs.window_controls {
                98
            } else {
                16
            };
            let ty: i64 = py + (if chrome >= gh {
                (chrome - gh) / 2
            } else {
                0
            });
            draw_text(&mut img, t.as_str(), 0, px + inset, ty, gw, gh, tab, theme.foreground);
        },
        None => {},
    }
    if vs.line_number && n > 0 {
        proof {
            let nd = spec_ndigits_capped(vs.line_offset as int + ni - 1);
            assert((nd + 1) * (gw as int) >= gw as int) by (nonlinear_arith)
                requires
                    nd >= 0,
                    gw as int >= 0,
            ;
        }
        draw_linenos(
            &mut img,
            n,
            vs.line_offset,
            px + gutter - gw,
            py + chrome,
            stride,
            gw,
            gh,
            theme.foreground,
        );
    }
    draw_lines(&mut img, lines, px + gutter, py + chrome, stride, gw, gh, tab);
    if vs.round_corner {
        round_corners(&mut img);
    }
    proof {
        assert(img.data@ == spec_render_pixels(lines@, *vs, *theme, wi, hi));
    }
    Ok(img)
}


/// Measures a text from column zero with single-column tabs, under the
/// convention of [`cols_text`]. The watermark compositor measures with it.
pub fn cols_text_width(text: &str) -> (m: u64)
    ensures
        m <= MAX_DIM ==> m == spec_cols_text(text@, 0, 1),
        m > MAX_DIM ==> spec_cols_text(text@, 0, 1) > MAX_DIM,
{
    cols_text(text, 0, 1)
}

/// Draws a text from column zero with single-column tabs, as
/// [`spec_draw_text`] describes. The watermark compositor draws with it.
pub fn draw_text_at(img: &mut RenderedImage, text: &str, x0: i64, y: i64, gw: i64, gh: i64, color: Rgba)
    requires
        old(img).wf(),
        -0x1_0000_0000 <= x0 <= 0x1_0000_0000,
        -0x1_0000_0000 <= y <= 0x1_0000_0000,
        0 <= gw <= 0x1_0000_0000,
        0 <= gh <= 0x1_0000_0000,
    ensures
        final(img).wf(),
        final(img).width == old(img).width,
        final(img).height == old(img).height,
        final(img).data@.len() == old(img).data@.len(),
        final(img).data@ == spec_draw_text(
            old(img).data@,
            old(img).width as int,
            old(img).height as int,
            text@,
            0,
            x0 as int,
            y as int,
            gw as int,
            gh as int,
            1,
            color,
        ),
{
    proof {
        lemma_draw_text_len(
            old(img).data@,
            old(img).width as int,
            old(img).height as int,
            text@,
            0,
            x0 as int,
            y as int,
            gw as int,
            gh as int,
            1,
            color,
        );
    }
    draw_text(img, text, 0, x0, y, gw, gh, 1, color);
}

/// Drawing a text never changes the buffer's length.
pub proof fn lemma_draw_text_len(
    d: Seq<u8>,
    w: int,
    h: int,
    t: Seq<char>,
    col: int,
    x0: int,
    y: int,
    gw: int,
    gh: int,
    tab: int,
    color: Rgba,
)
    ensures
        spec_draw_text(d, w, h, t, col, x0, y, gw, gh, tab, color).len() == d.len(),
    decreases t.len(),
{
    if t.len() == 0 {
    } else {
        let c = t[0];
        let d2 = if is_ink(c) && col <= MAX_DIM && col * gw <= MAX_DIM {
            spec_fill_rect(d, w, h, x0 + col * gw, y, gw, gh, color)
        } else {
            d
        };
        lemma_draw_text_len(
            d2,
            w,
            h,
            t.drop_first(),
            spec_advance(col, c, tab),
            x0,
            y,
            gw,
            gh,
            tab,
            color,
        );
    }
}


/// Law: rendering is deterministic. Any two images that one render's
/// contract admits for the same lines, visual options and theme are
/// identical in dimensions and in every pixel byte — nothing hidden leaks
/// into the canvas.
pub proof fn lemma_render_deterministic(
    lines: Seq<Vec<StyledRun>>,
    vs: VisualSpec,
    theme: Theme,
    a: RenderedImage,
    b: RenderedImage,
)
    requires
        spec_render(lines, vs, theme) == Some((a.width, a.height, a.data@)),
        spec_render(lines, vs, theme) == Some((b.width, b.height, b.data@)),
    ensures
        a.width == b.width,
        a.height == b.height,
        a.data@ == b.data@,
{
}

} // verus!
