//! The owned pixel buffer and the compositing primitives every render pass
//! is built from.
//!
//! An image is a `width × height` RGBA8 buffer in row-major order: the four
//! bytes of the pixel at column `x` of row `y` start at `4 * (y * width + x)`.
//! Every primitive clips to the canvas and states the whole resulting buffer.

use crate::color::Rgba;
use vstd::arithmetic::div_mod::{
    lemma_fundamental_div_mod, lemma_fundamental_div_mod_converse, lemma_mod_bound,
};
use vstd::prelude::*;

verus! {

/// An owned raster image: RGBA8 pixels, row-major.
#[derive(Debug)]
pub struct RenderedImage {
    pub width: u32,
    pub height: u32,
    pub data: Vec<u8>,
}

impl RenderedImage {
    /// The buffer holds exactly four bytes per pixel.
    pub open spec fn wf(self) -> bool {
        self.data@.len() == 4 * (self.width as int) * (self.height as int)
    }
}

/// Channel `ch` of `c`, in buffer order r, g, b, a.
pub open spec fn channel_of(c: Rgba, ch: int) -> u8 {
    if ch == 0 {
        c.r
    } else if ch == 1 {
        c.g
    } else if ch == 2 {
        c.b
    } else {
        c.a
    }
}

/// The column of the pixel that byte `i` of a `w`-wide buffer belongs to.
pub open spec fn px_of(i: int, w: int) -> int {
    (i / 4) % w
}

/// The row of the pixel that byte `i` of a `w`-wide buffer belongs to.
pub open spec fn py_of(i: int, w: int) -> int {
    (i / 4) / w
}

/// The channel that byte `i` addresses within its pixel.
pub open spec fn ch_of(i: int) -> int {
    i % 4
}

/// Whether the canvas pixel `(x, y)` lies inside the rectangle of size
/// `rw × rh` anchored at `(x0, y0)` — and inside the canvas itself.
pub open spec fn in_rect(
    w: int,
    h: int,
    x0: int,
    y0: int,
    rw: int,
    rh: int,
    x: int,
    y: int,
) -> bool {
    &&& 0 <= x < w
    &&& 0 <= y < h
    &&& x0 <= x < x0 + rw
    &&& y0 <= y < y0 + rh
}

/// The buffer after the rectangle is filled with `c`, clipped to the canvas.
pub open spec fn spec_fill_rect(
    d: Seq<u8>,
    w: int,
    h: int,
    x0: int,
    y0: int,
    rw: int,
    rh: int,
    c: Rgba,
) -> Seq<u8> {
    Seq::new(
        d.len(),
        |i: int|
            if in_rect(w, h, x0, y0, rw, rh, px_of(i, w), py_of(i, w)) {
                channel_of(c, ch_of(i))
            } else {
                d[i]
            },
    )
}

/// The buffer after the four bytes of pixel `(x, y)` are set to `c`.
pub open spec fn spec_set_pix(d: Seq<u8>, w: int, x: int, y: int, c: Rgba) -> Seq<u8> {
    let base = 4 * (y * w + x);
    d.update(base, c.r).update(base + 1, c.g).update(base + 2, c.b).update(base + 3, c.a)
}

/// Byte index `4*(y*w+x)+ch` addresses column `x`, row `y`, channel `ch`.
proof fn lemma_decompose(w: int, x: int, y: int, ch: int)
    requires
        w >= 1,
        0 <= x < w,
        0 <= y,
        0 <= ch < 4,
    ensures
        px_of(4 * (y * w + x) + ch, w) == x,
        py_of(4 * (y * w + x) + ch, w) == y,
        ch_of(4 * (y * w + x) + ch) == ch,
{
    let p = y * w + x;
    assert(y * w + x >= 0) by (nonlinear_arith)
        requires
            w >= 1,
            0 <= x,
            0 <= y,
    ;
    lemma_fundamental_div_mod_converse(4 * p + ch, 4, p, ch);
    lemma_fundamental_div_mod_converse(p, w, y, x);
}

/// Every byte index is the one of its own column, row and channel.
proof fn lemma_recompose(i: int, w: int)
    requires
        w >= 1,
        0 <= i,
    ensures
        i == 4 * (py_of(i, w) * w + px_of(i, w)) + ch_of(i),
        0 <= ch_of(i) < 4,
        0 <= px_of(i, w) < w,
        0 <= py_of(i, w),
{
    lemma_fundamental_div_mod(i, 4);
    lemma_mod_bound(i, 4);
    lemma_fundamental_div_mod(i / 4, w);
    lemma_mod_bound(i / 4, w);
    assert(i / 4 >= 0);
    assert(py_of(i, w) >= 0) by (nonlinear_arith)
        requires
            w >= 1,
            i / 4 >= 0,
            i / 4 == w * py_of(i, w) + px_of(i, w),
            0 <= px_of(i, w) < w,
    ;
    assert(w * py_of(i, w) == py_of(i, w) * w) by (nonlinear_arith);
}

/// Whether the pixel `(x, y)` lies in the disc of radius `r` around
/// `(cx, cy)`.
pub open spec fn in_circle(cx: int, cy: int, r: int, x: int, y: int) -> bool {
    (x - cx) * (x - cx) + (y - cy) * (y - cy) <= r * r
}

/// A pixel beyond the disc's bounding box lies outside the disc.
proof fn lemma_outside_circle(cx: int, cy: int, r: int, x: int, y: int)
    requires
        r >= 0,
        x < cx - r || x > cx + r || y < cy - r || y > cy + r,
    ensures
        !in_circle(cx, cy, r, x, y),
{
    let dx = x - cx;
    let dy = y - cy;
    assert(dx * dx >= 0 && dy * dy >= 0) by (nonlinear_arith);
    if dx < -r || dx > r {
        assert(dx * dx > r * r) by (nonlinear_arith)
            requires
                r >= 0,
                dx < -r || dx > r,
        ;
    } else {
        assert(dy * dy > r * r) by (nonlinear_arith)
            requires
                r >= 0,
                dy < -r || dy > r,
        ;
    }
}

/// The buffer after the disc of radius `r` around `(cx, cy)` is filled with
/// `c`, clipped to the canvas.
pub open spec fn spec_fill_circle(
    d: Seq<u8>,
    w: int,
    h: int,
    cx: int,
    cy: int,
    r: int,
    c: Rgba,
) -> Seq<u8> {
    Seq::new(
        d.len(),
        |i: int|
            if 0 <= py_of(i, w) < h && in_circle(cx, cy, r, px_of(i, w), py_of(i, w)) {
                channel_of(c, ch_of(i))
            } else {
                d[i]
            },
    )
}

/// The buffer after the alpha of pixel `(x, y)` is cleared.
pub open spec fn spec_clear_alpha(d: Seq<u8>, w: int, x: int, y: int) -> Seq<u8> {
    d.update(4 * (y * w + x) + 3, 0u8)
}

/// The buffer after every pixel of the `size × size` square at `(x0, y0)`
/// that lies outside the disc of radius `r` around `(cx, cy)` is made
/// transparent. This is the quarter-disc alpha mask one rounded corner uses.
pub open spec fn spec_mask_corner(
    d: Seq<u8>,
    w: int,
    h: int,
    x0: int,
    y0: int,
    size: int,
    cx: int,
    cy: int,
    r: int,
) -> Seq<u8> {
    Seq::new(
        d.len(),
        |i: int|
            if in_rect(w, h, x0, y0, size, size, px_of(i, w), py_of(i, w)) && !in_circle(
                cx,
                cy,
                r,
                px_of(i, w),
                py_of(i, w),
            ) && ch_of(i) == 3 {
                0u8
            } else {
                d[i]
            },
    )
}

/// Sets the four bytes of pixel `(x, y)` to `c`.
fn set_pix(img: &mut RenderedImage, x: u32, y: u32, c: Rgba)
    requires
        old(img).wf(),
        x < old(img).width,
        y < old(img).height,
    ensures
        final(img).wf(),
        final(img).width == old(img).width,
        final(img).height == old(img).height,
        final(img).data@ == spec_set_pix(
            old(img).data@,
            old(img).width as int,
            x as int,
            y as int,
            c,
        ),
{
    let w = img.width;
    let h = img.height;
    let n = img.data.len();
    proof {
        assert(4 * ((y as int) * (w as int) + (x as int)) + 3 < 4 * (w as int) * (
        h as int)) by (nonlinear_arith)
            requires
                0 <= (x as int) < (w as int),
                0 <= (y as int) < (h as int),
        ;
        assert(n as int == 4 * (w as int) * (h as int));
    }
    let base: usize = 4 * ((y as usize) * (w as usize) + (x as usize));
    img.data[base] = c.r;
    img.data[base + 1] = c.g;
    img.data[base + 2] = c.b;
    img.data[base + 3] = c.a;
}

/// Fills the rectangle of size `rw × rh` anchored at `(x0, y0)` with `c`,
/// clipped to the canvas; everything outside it keeps its bytes.
pub fn fill_rect(img: &mut RenderedImage, x0: i64, y0: i64, rw: i64, rh: i64, c: Rgba)
    requires
        old(img).wf(),
        -0x1000_0000_0000 <= x0 <= 0x1000_0000_0000,
        -0x1000_0000_0000 <= y0 <= 0x1000_0000_0000,
        0 <= rw <= 0x1000_0000_0000,
        0 <= rh <= 0x1000_0000_0000,
    ensures
        final(img).wf(),
        final(img).width == old(img).width,
        final(img).height == old(img).height,
        final(img).data@ == spec_fill_rect(
            old(img).data@,
            old(img).width as int,
            old(img).height as int,
            x0 as int,
            y0 as int,
            rw as int,
            rh as int,
            c,
        ),
{
    let w = img.width as i64;
    let h = img.height as i64;
    let ghost d0 = img.data@;
    let ghost wi = w as int;
    let ghost hi = h as int;
    let xs = if x0 > 0 {
        x0
    } else {
        0
    };
    let xe = if x0 + rw < w {
        x0 + rw
    } else {
        w
    };
    let ys = if y0 > 0 {
        y0
    } else {
        0
    };
    let ye = if y0 + rh < h {
        y0 + rh
    } else {
        h
    };
    if xs >= xe || ys >= ye {
        proof {
            assert forall|i: int| 0 <= i < d0.len() implies spec_fill_rect(
                d0,
                wi,
                hi,
                x0 as int,
                y0 as int,
                rw as int,
                rh as int,
                c,
            )[i] == d0[i] by {
                if wi >= 1 {
                    lemma_recompose(i, wi);
                }
            }
            assert(spec_fill_rect(d0, wi, hi, x0 as int, y0 as int, rw as int, rh as int, c) =~= d0);
        }
        return ;
    }
    let mut y = ys;
    while y < ye
        invariant
            img.wf(),
            img.width == old(img).width,
            img.height == old(img).height,
            w == img.width as i64,
            h == img.height as i64,
            wi == w as int,
            hi == h as int,
            d0 == old(img).data@,
            d0.len() == img.data@.len(),
            0 <= xs < xe <= w,
            0 <= ys <= y <= ye <= h,
            xs as int == (if (x0 as int) > 0 {
                x0 as int
            } else {
                0int
            }),
            xe as int == (if (x0 as int) + (rw as int) < wi {
                (x0 as int) + (rw as int)
            } else {
                wi
            }),
            ys as int == (if (y0 as int) > 0 {
                y0 as int
            } else {
                0int
            }),
            ye as int == (if (y0 as int) + (rh as int) < hi {
                (y0 as int) + (rh as int)
            } else {
                hi
            }),
            forall|i: int|
                0 <= i < d0.len() ==> img.data@[i] == (if in_rect(
                    wi,
                    hi,
                    x0 as int,
                    y0 as int,
                    rw as int,
                    rh as int,
                    px_of(i, wi),
                    py_of(i, wi),
                ) && ys <= py_of(i, wi) < y {
                    channel_of(c, ch_of(i))
                } else {
                    d0[i]
                }),
        decreases ye - y,
    {
        let mut x = xs;
        while x < xe
            invariant
                img.wf(),
                img.width == old(img).width,
                img.height == old(img).height,
                w == img.width as i64,
                h == img.height as i64,
                wi == w as int,
                hi == h as int,
                d0 == old(img).data@,
                d0.len() == img.data@.len(),
                0 <= xs <= x <= xe <= w,
                0 <= ys <= y < ye <= h,
                xs as int == (if (x0 as int) > 0 {
                    x0 as int
                } else {
                    0int
                }),
                xe as int == (if (x0 as int) + (rw as int) < wi {
                    (x0 as int) + (rw as int)
                } else {
                    wi
                }),
                ys as int == (if (y0 as int) > 0 {
                    y0 as int
                } else {
                    0int
                }),
                ye as int == (if (y0 as int) + (rh as int) < hi {
                    (y0 as int) + (rh as int)
                } else {
                    hi
                }),
                forall|i: int|
                    0 <= i < d0.len() ==> img.data@[i] == (if in_rect(
                        wi,
                        hi,
                        x0 as int,
                        y0 as int,
                        rw as int,
                        rh as int,
                        px_of(i, wi),
                        py_of(i, wi),
                    ) && (ys <= py_of(i, wi) < y || (py_of(i, wi) == y && xs <= px_of(i, wi)
                        < x)) {
                        channel_of(c, ch_of(i))
                    } else {
                        d0[i]
                    }),
            decreases xe - x,
        {
            let ghost before = img.data@;
            set_pix(img, x as u32, y as u32, c);
            proof {
                let xi = x as int;
                let yi = y as int;
                let base = 4 * (yi * wi + xi);
                assert(0 <= base && base + 3 < d0.len()) by (nonlinear_arith)
                    requires
                        0 <= xi < wi,
                        0 <= yi < hi,
                        base == 4 * (yi * wi + xi),
                        d0.len() == 4 * wi * hi,
                ;
                assert(d0.len() == 4 * wi * hi);
                lemma_decompose(wi, xi, yi, 0);
                lemma_decompose(wi, xi, yi, 1);
                lemma_decompose(wi, xi, yi, 2);
                lemma_decompose(wi, xi, yi, 3);
                assert forall|i: int| 0 <= i < d0.len() implies img.data@[i] == (if in_rect(
                    wi,
                    hi,
                    x0 as int,
                    y0 as int,
                    rw as int,
                    rh as int,
                    px_of(i, wi),
                    py_of(i, wi),
                ) && (py_of(i, wi) < yi || (py_of(i, wi) == yi && px_of(i, wi) < xi + 1)) {
                    channel_of(c, ch_of(i))
                } else {
                    d0[i]
                }) by {
                    lemma_recompose(i, wi);
                    if px_of(i, wi) == xi && py_of(i, wi) == yi {
                        assert(i == base + ch_of(i));
                    } else {
                        assert(i != base && i != base + 1 && i != base + 2 && i != base + 3);
                        assert(img.data@[i] == before[i]);
                    }
                }
            }
            x += 1;
        }
        y += 1;
    }
    proof {
        assert forall|i: int| 0 <= i < d0.len() implies img.data@[i] == spec_fill_rect(
            d0,
            wi,
            hi,
            x0 as int,
            y0 as int,
            rw as int,
            rh as int,
            c,
        )[i] by {
            lemma_recompose(i, wi);
        }
        assert(img.data@ =~= spec_fill_rect(
            d0,
            wi,
            hi,
            x0 as int,
            y0 as int,
            rw as int,
            rh as int,
            c,
        ));
    }
}


/// Clears the alpha byte of pixel `(x, y)`.
fn clear_alpha(img: &mut RenderedImage, x: u32, y: u32)
    requires
        old(img).wf(),
        x < old(img).width,
        y < old(img).height,
    ensures
        final(img).wf(),
        final(img).width == old(img).width,
        final(img).height == old(img).height,
        final(img).data@ == spec_clear_alpha(
            old(img).data@,
            old(img).width as int,
            x as int,
            y as int,
        ),
{
    let w = img.width;
    let h = img.height;
    let n = img.data.len();
    proof {
        assert(4 * ((y as int) * (w as int) + (x as int)) + 3 < 4 * (w as int) * (
        h as int)) by (nonlinear_arith)
            requires
                0 <= (x as int) < (w as int),
                0 <= (y as int) < (h as int),
        ;
        assert(n as int == 4 * (w as int) * (h as int));
    }
    let base: usize = 4 * ((y as usize) * (w as usize) + (x as usize));
    img.data[base + 3] = 0;
}

/// Fills the disc of radius `r` around `(cx, cy)` with `c`, clipped to the
/// canvas; everything outside it keeps its bytes.
#[verifier::loop_isolation(false)]
pub fn fill_circle(img: &mut RenderedImage, cx: i64, cy: i64, r: i64, c: Rgba)
    requires
        old(img).wf(),
        0 <= r <= 0x8000,
        -0x1000_0000 <= cx <= 0x1000_0000,
        -0x1000_0000 <= cy <= 0x1000_0000,
    ensures
        final(img).wf(),
        final(img).width == old(img).width,
        final(img).height == old(img).height,
        final(img).data@ == spec_fill_circle(
            old(img).data@,
            old(img).width as int,
            old(img).height as int,
            cx as int,
            cy as int,
            r as int,
            c,
        ),
{
    let w = img.width as i64;
    let h = img.height as i64;
    let ghost d0 = img.data@;
    let ghost wi = w as int;
    let ghost hi = h as int;
    let xs = if cx - r > 0 {
        cx - r
    } else {
        0
    };
    let xe = if cx + r + 1 < w {
        cx + r + 1
    } else {
        w
    };
    let ys = if cy - r > 0 {
        cy - r
    } else {
        0
    };
    let ye = if cy + r + 1 < h {
        cy + r + 1
    } else {
        h
    };
    if xs >= xe || ys >= ye {
        proof {
            assert forall|i: int| 0 <= i < d0.len() implies spec_fill_circle(
                d0,
                wi,
                hi,
                cx as int,
                cy as int,
                r as int,
                c,
            )[i] == d0[i] by {
                if wi >= 1 {
                    lemma_recompose(i, wi);
                    let px = px_of(i, wi);
                    let py = py_of(i, wi);
                    if px < cx - r || px > cx + r || py < cy - r || py > cy + r {
                        lemma_outside_circle(cx as int, cy as int, r as int, px, py);
                        assert(!in_circle(cx as int, cy as int, r as int, px, py));
                    } else {
                        if 0 <= py < hi {
                            assert(xs <= px);
                            assert(px < xe);
                            assert(ys <= py);
                            assert(py < ye);
                            assert(false);
                        }
                    }
                } else {
                    assert(d0.len() == 4 * wi * hi);
                    assert(4 * wi * hi == 0) by (nonlinear_arith)
                        requires
                            wi == 0,
                    ;
                }
            }
            assert(spec_fill_circle(d0, wi, hi, cx as int, cy as int, r as int, c) =~= d0);
        }
        return ;
    }
    let mut y = ys;
    while y < ye
        invariant
            img.wf(),
            img.width == old(img).width,
            img.height == old(img).height,
            w == img.width as i64,
            h == img.height as i64,
            wi == w as int,
            hi == h as int,
            d0 == old(img).data@,
            d0.len() == img.data@.len(),
            0 <= xs < xe <= w,
            0 <= ys <= y <= ye <= h,
            cx - r <= xs && xs <= cx + r + 1 && xe <= cx + r + 1,
            cy - r <= ys && ys <= cy + r + 1 && ye <= cy + r + 1,
            xs as int == (if (cx as int) - (r as int) > 0 {
                (cx as int) - (r as int)
            } else {
                0int
            }),
            xe as int == (if (cx as int) + (r as int) + 1 < wi {
                (cx as int) + (r as int) + 1
            } else {
                wi
            }),
            ys as int == (if (cy as int) - (r as int) > 0 {
                (cy as int) - (r as int)
            } else {
                0int
            }),
            ye as int == (if (cy as int) + (r as int) + 1 < hi {
                (cy as int) + (r as int) + 1
            } else {
                hi
            }),
            forall|i: int|
                0 <= i < d0.len() ==> img.data@[i] == (if 0 <= py_of(i, wi) < hi && in_circle(
                    cx as int,
                    cy as int,
                    r as int,
                    px_of(i, wi),
                    py_of(i, wi),
                ) && ys <= py_of(i, wi) < y {
                    channel_of(c, ch_of(i))
                } else {
                    d0[i]
                }),
        decreases ye - y,
    {
        let mut x = xs;
        while x < xe
            invariant
                img.wf(),
                img.width == old(img).width,
                img.height == old(img).height,
                w == img.width as i64,
                h == img.height as i64,
                wi == w as int,
                hi == h as int,
                d0 == old(img).data@,
                d0.len() == img.data@.len(),
                0 <= xs <= x <= xe <= w,
                0 <= ys <= y < ye <= h,
                cx - r <= xs && xs <= cx + r + 1 && xe <= cx + r + 1,
                cy - r <= ys && ys <= cy + r + 1 && ye <= cy + r + 1,
                xs as int == (if (cx as int) - (r as int) > 0 {
                    (cx as int) - (r as int)
                } else {
                    0int
                }),
                xe as int == (if (cx as int) + (r as int) + 1 < wi {
                    (cx as int) + (r as int) + 1
                } else {
                    wi
                }),
                ys as int == (if (cy as int) - (r as int) > 0 {
                    (cy as int) - (r as int)
                } else {
                    0int
                }),
                ye as int == (if (cy as int) + (r as int) + 1 < hi {
                    (cy as int) + (r as int) + 1
                } else {
                    hi
                }),
                forall|i: int|
                    0 <= i < d0.len() ==> img.data@[i] == (if 0 <= py_of(i, wi) < hi && in_circle(
                        cx as int,
                        cy as int,
                        r as int,
                        px_of(i, wi),
                        py_of(i, wi),
                    ) && (ys <= py_of(i, wi) < y || (py_of(i, wi) == y && xs <= px_of(i, wi)
                        < x)) {
                        channel_of(c, ch_of(i))
                    } else {
                        d0[i]
                    }),
            decreases xe - x,
        {
            let dx = x - cx;
            let dy = y - cy;
            proof {
                assert(-0x8000 <= dx <= 0x8000);
                assert(-0x8000 <= dy <= 0x8000);
                assert(dx * dx + dy * dy <= 0x8000_0000 && 0 <= dx * dx && 0 <= dy * dy && 0 <= r
                    * r <= 0x4000_0000) by (nonlinear_arith)
                    requires
                        -0x8000 <= dx <= 0x8000,
                        -0x8000 <= dy <= 0x8000,
                        0 <= r <= 0x8000,
                ;
            }
            let ghost before = img.data@;
            let hit = dx * dx + dy * dy <= r * r;
            if hit {
                set_pix(img, x as u32, y as u32, c);
            }
            proof {
                let xi = x as int;
                let yi = y as int;
                let base = 4 * (yi * wi + xi);
                assert(0 <= base && base + 3 < d0.len()) by (nonlinear_arith)
                    requires
                        0 <= xi < wi,
                        0 <= yi < hi,
                        base == 4 * (yi * wi + xi),
                        d0.len() == 4 * wi * hi,
                ;
                assert(d0.len() == 4 * wi * hi);
                lemma_decompose(wi, xi, yi, 0);
                lemma_decompose(wi, xi, yi, 1);
                lemma_decompose(wi, xi, yi, 2);
                lemma_decompose(wi, xi, yi, 3);
                assert forall|i: int| 0 <= i < d0.len() implies img.data@[i] == (if 0 <= py_of(
                    i,
                    wi,
                ) < hi && in_circle(cx as int, cy as int, r as int, px_of(i, wi), py_of(i, wi)) && (
                ys <= py_of(i, wi) < yi || (py_of(i, wi) == yi && xs <= px_of(i, wi) < xi + 1)) {
                    channel_of(c, ch_of(i))
                } else {
                    d0[i]
                }) by {
                    lemma_recompose(i, wi);
                    let px = px_of(i, wi);
                    let py = py_of(i, wi);
                    if px < cx - r || px > cx + r || py < cy - r || py > cy + r {
                        lemma_outside_circle(cx as int, cy as int, r as int, px, py);
                    }
                    if px == xi && py == yi {
                        assert(i == base + ch_of(i));
                        if hit {
                        } else {
                            assert(!in_circle(cx as int, cy as int, r as int, px, py));
                        }
                    } else {
                        assert(i != base && i != base + 1 && i != base + 2 && i != base + 3);
                        assert(img.data@[i] == before[i]);
                    }
                }
            }
            x += 1;
        }
        proof {
            assert forall|i: int| 0 <= i < d0.len() implies img.data@[i] == (if 0 <= py_of(i, wi)
                < hi && in_circle(cx as int, cy as int, r as int, px_of(i, wi), py_of(i, wi)) && ys
                <= py_of(i, wi) < y + 1 {
                channel_of(c, ch_of(i))
            } else {
                d0[i]
            }) by {
                lemma_recompose(i, wi);
                let px = px_of(i, wi);
                let py = py_of(i, wi);
                if px < cx - r || px > cx + r || py < cy - r || py > cy + r {
                    lemma_outside_circle(cx as int, cy as int, r as int, px, py);
                }
            }
        }
        y += 1;
    }
    proof {
        assert forall|i: int| 0 <= i < d0.len() implies img.data@[i] == spec_fill_circle(
            d0,
            wi,
            hi,
            cx as int,
            cy as int,
            r as int,
            c,
        )[i] by {
            lemma_recompose(i, wi);
            let px = px_of(i, wi);
            let py = py_of(i, wi);
            if px < cx - r || px > cx + r || py < cy - r || py > cy + r {
                lemma_outside_circle(cx as int, cy as int, r as int, px, py);
            }
        }
        assert(img.data@ =~= spec_fill_circle(d0, wi, hi, cx as int, cy as int, r as int, c));
    }
}

/// Makes every pixel of the `size × size` square at `(x0, y0)` transparent
/// unless it lies in the disc of radius `r` around `(cx, cy)`: one rounded
/// The partially applied corner mask: rows `ys..y` are fully masked, row `y`
/// is masked for columns `xs..x`, everything else keeps its bytes.
pub open spec fn mask_partial(
    d0: Seq<u8>,
    d: Seq<u8>,
    w: int,
    h: int,
    x0: int,
    y0: int,
    size: int,
    cx: int,
    cy: int,
    r: int,
    ys: int,
    y: int,
    xs: int,
    x: int,
) -> bool {
    forall|i: int| #![all_triggers]
        0 <= i < d0.len() ==> d[i] == (if in_rect(w, h, x0, y0, size, size, px_of(i, w), py_of(i, w))
            && !in_circle(cx, cy, r, px_of(i, w), py_of(i, w)) && ch_of(i) == 3 && (ys <= py_of(
            i,
            w,
        ) < y || (py_of(i, w) == y && xs <= px_of(i, w) < x)) {
            0u8
        } else {
            d0[i]
        })
}

/// Makes every pixel of the `size × size` square at `(x0, y0)` transparent
/// unless it lies in the disc of radius `r` around `(cx, cy)`: one rounded
/// corner's alpha mask.
#[verifier::loop_isolation(false)]
pub fn mask_corner(img: &mut RenderedImage, x0: i64, y0: i64, size: i64, cx: i64, cy: i64, r: i64)
    requires
        old(img).wf(),
        0 <= size <= 0x8000,
        0 <= r <= 0x8000,
        -0x1000_0000 <= x0 <= 0x1000_0000,
        -0x1000_0000 <= y0 <= 0x1000_0000,
        x0 - 2 * size <= cx <= x0 + 2 * size,
        y0 - 2 * size <= cy <= y0 + 2 * size,
    ensures
        final(img).wf(),
        final(img).width == old(img).width,
        final(img).height == old(img).height,
        final(img).data@ == spec_mask_corner(
            old(img).data@,
            old(img).width as int,
            old(img).height as int,
            x0 as int,
            y0 as int,
            size as int,
            cx as int,
            cy as int,
            r as int,
        ),
{
    let w = img.width as i64;
    let h = img.height as i64;
    let ghost d0 = img.data@;
    let ghost wi = w as int;
    let ghost hi = h as int;
    let xs = if x0 > 0 {
        x0
    } else {
        0
    };
    let xe = if x0 + size < w {
        x0 + size
    } else {
        w
    };
    let ys = if y0 > 0 {
        y0
    } else {
        0
    };
    let ye = if y0 + size < h {
        y0 + size
    } else {
        h
    };
    if xs >= xe || ys >= ye {
        proof {
            assert forall|i: int| 0 <= i < d0.len() implies spec_mask_corner(
                d0,
                wi,
                hi,
                x0 as int,
                y0 as int,
                size as int,
                cx as int,
                cy as int,
                r as int,
            )[i] == d0[i] by {
                if wi >= 1 {
                    lemma_recompose(i, wi);
                }
            }
            assert(spec_mask_corner(
                d0,
                wi,
                hi,
                x0 as int,
                y0 as int,
                size as int,
                cx as int,
                cy as int,
                r as int,
            ) =~= d0);
        }
        return ;
    }
    let mut y = ys;
    proof {
        assert(mask_partial(
            d0,
            img.data@,
            wi,
            hi,
            x0 as int,
            y0 as int,
            size as int,
            cx as int,
            cy as int,
            r as int,
            ys as int,
            y as int,
            xs as int,
            xs as int,
        ));
    }
    while y < ye
        invariant
            img.wf(),
            img.width == old(img).width,
            img.height == old(img).height,
            d0.len() == img.data@.len(),
            0 <= xs < xe <= w,
            0 <= ys <= y <= ye <= h,
            mask_partial(
                d0,
                img.data@,
                wi,
                hi,
                x0 as int,
                y0 as int,
                size as int,
                cx as int,
                cy as int,
                r as int,
                ys as int,
                y as int,
                xs as int,
                xs as int,
            ),
        decreases ye - y,
    {
        let mut x = xs;
        while x < xe
            invariant
                img.wf(),
                img.width == old(img).width,
                img.height == old(img).height,
                d0.len() == img.data@.len(),
                0 <= xs <= x <= xe <= w,
                0 <= ys <= y < ye <= h,
                mask_partial(
                    d0,
                    img.data@,
                    wi,
                    hi,
                    x0 as int,
                    y0 as int,
                    size as int,
                    cx as int,
                    cy as int,
                    r as int,
                    ys as int,
                    y as int,
                    xs as int,
                    x as int,
                ),
            decreases xe - x,
        {
            proof {
                assert(x0 <= x < x0 + size);
                assert(y0 <= y < y0 + size);
            }
            let dx = x - cx;
            let dy = y - cy;
            proof {
                assert(-0x20000 <= dx <= 0x20000);
                assert(-0x20000 <= dy <= 0x20000);
                assert(dx * dx + dy * dy <= 0x10_0000_0000 && 0 <= dx * dx && 0 <= dy * dy && 0
                    <= r * r <= 0x4000_0000) by (nonlinear_arith)
                    requires
                        -0x20000 <= dx <= 0x20000,
                        -0x20000 <= dy <= 0x20000,
                        0 <= r <= 0x8000,
                ;
            }
            let ghost before = img.data@;
            let outside = dx * dx + dy * dy > r * r;
            if outside {
                clear_alpha(img, x as u32, y as u32);
            }
            proof {
                let xi = x as int;
                let yi = y as int;
                let base = 4 * (yi * wi + xi);
                assert(0 <= base && base + 3 < d0.len()) by (nonlinear_arith)
                    requires
                        0 <= xi < wi,
                        0 <= yi < hi,
                        base == 4 * (yi * wi + xi),
                        d0.len() == 4 * wi * hi,
                ;
                assert(d0.len() == 4 * wi * hi);
                lemma_decompose(wi, xi, yi, 0);
                lemma_decompose(wi, xi, yi, 1);
                lemma_decompose(wi, xi, yi, 2);
                lemma_decompose(wi, xi, yi, 3);
                assert forall|i: int| 0 <= i < d0.len() implies img.data@[i] == (if in_rect(
                    wi,
                    hi,
                    x0 as int,
                    y0 as int,
                    size as int,
                    size as int,
                    px_of(i, wi),
                    py_of(i, wi),
                ) && !in_circle(cx as int, cy as int, r as int, px_of(i, wi), py_of(i, wi)) && ch_of(
                    i,
                ) == 3 && (ys as int <= py_of(i, wi) < yi || (py_of(i, wi) == yi && xs as int
                    <= px_of(i, wi) < xi + 1)) {
                    0u8
                } else {
                    d0[i]
                }) by {
                    lemma_recompose(i, wi);
                    let px = px_of(i, wi);
                    let py = py_of(i, wi);
                    if px == xi && py == yi {
                        assert(i == base + ch_of(i));
                        if ch_of(i) == 3 {
                            assert(i == base + 3);
                        } else {
                            assert(i != base + 3);
                            assert(img.data@[i] == before[i]);
                        }
                    } else {
                        assert(i != base + 3);
                        assert(img.data@[i] == before[i]);
                    }
                }
                assert(mask_partial(
                    d0,
                    img.data@,
                    wi,
                    hi,
                    x0 as int,
                    y0 as int,
                    size as int,
                    cx as int,
                    cy as int,
                    r as int,
                    ys as int,
                    y as int,
                    xs as int,
                    x as int + 1,
                ));
            }
            x += 1;
        }
        proof {
            assert forall|i: int| 0 <= i < d0.len() implies img.data@[i] == (if in_rect(
                wi,
                hi,
                x0 as int,
                y0 as int,
                size as int,
                size as int,
                px_of(i, wi),
                py_of(i, wi),
            ) && !in_circle(cx as int, cy as int, r as int, px_of(i, wi), py_of(i, wi)) && ch_of(
                i,
            ) == 3 && (ys as int <= py_of(i, wi) < y as int + 1 || (py_of(i, wi) == y as int + 1
                && xs as int <= px_of(i, wi) < xs as int)) {
                0u8
            } else {
                d0[i]
            }) by {
                lemma_recompose(i, wi);
            }
            assert(mask_partial(
                d0,
                img.data@,
                wi,
                hi,
                x0 as int,
                y0 as int,
                size as int,
                cx as int,
                cy as int,
                r as int,
                ys as int,
                y as int + 1,
                xs as int,
                xs as int,
            ));
        }
        y += 1;
    }
    proof {
        assert forall|i: int| 0 <= i < d0.len() implies img.data@[i] == spec_mask_corner(
            d0,
            wi,
            hi,
            x0 as int,
            y0 as int,
            size as int,
            cx as int,
            cy as int,
            r as int,
        )[i] by {
            lemma_recompose(i, wi);
        }
        assert(img.data@ =~= spec_mask_corner(
            d0,
            wi,
            hi,
            x0 as int,
            y0 as int,
            size as int,
            cx as int,
            cy as int,
            r as int,
        ));
    }
}


/// The left edge of a blur window centred at `x`.
pub open spec fn win_lo(x: int, r: int) -> int {
    if x - r > 0 {
        x - r
    } else {
        0
    }
}

/// One past the right edge of a blur window centred at `x`, clipped to `n`.
pub open spec fn win_hi(x: int, r: int, n: int) -> int {
    if x + r + 1 < n {
        x + r + 1
    } else {
        n
    }
}

/// The sum of channel `ch` over columns `lo..hi` of row `y`.
pub open spec fn row_sum(d: Seq<u8>, w: int, y: int, ch: int, lo: int, hi: int) -> int
    decreases hi - lo,
{
    if lo >= hi {
        0
    } else {
        row_sum(d, w, y, ch, lo, hi - 1) + d[4 * (y * w + (hi - 1)) + ch]
    }
}

/// The sum of channel `ch` over rows `lo..hi` of column `x`.
pub open spec fn col_sum(d: Seq<u8>, w: int, x: int, ch: int, lo: int, hi: int) -> int
    decreases hi - lo,
{
    if lo >= hi {
        0
    } else {
        col_sum(d, w, x, ch, lo, hi - 1) + d[4 * ((hi - 1) * w + x) + ch]
    }
}

proof fn lemma_row_sum_bound(d: Seq<u8>, w: int, y: int, ch: int, lo: int, hi: int)
    requires
        lo <= hi,
    ensures
        0 <= row_sum(d, w, y, ch, lo, hi) <= 255 * (hi - lo),
    decreases hi - lo,
{
    if lo >= hi {
    } else {
        lemma_row_sum_bound(d, w, y, ch, lo, hi - 1);
    }
}

proof fn lemma_col_sum_bound(d: Seq<u8>, w: int, x: int, ch: int, lo: int, hi: int)
    requires
        lo <= hi,
    ensures
        0 <= col_sum(d, w, x, ch, lo, hi) <= 255 * (hi - lo),
    decreases hi - lo,
{
    if lo >= hi {
    } else {
        lemma_col_sum_bound(d, w, x, ch, lo, hi - 1);
    }
}

/// The buffer after one horizontal box-blur pass of radius `r`: every
/// channel becomes the average of its row window.
pub open spec fn spec_blur_h(d: Seq<u8>, w: int, h: int, r: int) -> Seq<u8> {
    Seq::new(
        d.len(),
        |i: int|
            (row_sum(d, w, py_of(i, w), ch_of(i), win_lo(px_of(i, w), r), win_hi(px_of(i, w), r, w))
                / (win_hi(px_of(i, w), r, w) - win_lo(px_of(i, w), r))) as u8,
    )
}

/// The buffer after one vertical box-blur pass of radius `r`.
pub open spec fn spec_blur_v(d: Seq<u8>, w: int, h: int, r: int) -> Seq<u8> {
    Seq::new(
        d.len(),
        |i: int|
            (col_sum(d, w, px_of(i, w), ch_of(i), win_lo(py_of(i, w), r), win_hi(py_of(i, w), r, h))
                / (win_hi(py_of(i, w), r, h) - win_lo(py_of(i, w), r))) as u8,
    )
}

/// One horizontal box-blur pass over `src`, as [`spec_blur_h`] describes.
#[verifier::loop_isolation(false)]
fn blur_pass_h(src: &Vec<u8>, w: u32, h: u32, radius: u32) -> (out: Vec<u8>)
    requires
        src@.len() == 4 * (w as int) * (h as int),
    ensures
        out@ == spec_blur_h(src@, w as int, h as int, radius as int),
    decreases 0int,
{
    let ghost wi = w as int;
    let ghost hi2 = h as int;
    let ghost ri = radius as int;
    let ghost bl = spec_blur_h(src@, wi, hi2, ri);
    let n = src.len();
    let mut out: Vec<u8> = Vec::new();
    let mut y: u32 = 0;
    while y < h
        invariant
            y <= h,
            out@.len() == 4 * ((y as int) * wi),
            forall|j: int| #![all_triggers] 0 <= j < out@.len() ==> out@[j] == bl[j],
        decreases h - y,
    {
        let mut x: u32 = 0;
        proof {
            assert(4 * ((y as int) * wi + 0) == 4 * ((y as int) * wi));
        }
        while x < w
            invariant
                y < h,
                x <= w,
                out@.len() == 4 * ((y as int) * wi + (x as int)),
                forall|j: int| #![all_triggers] 0 <= j < out@.len() ==> out@[j] == bl[j],
            decreases w - x,
        {
            let lo: u32 = if x > radius {
                x - radius
            } else {
                0
            };
            let hi_t: u64 = x as u64 + radius as u64 + 1;
            let hi_: u32 = if hi_t < w as u64 {
                hi_t as u32
            } else {
                w
            };
            proof {
                assert(lo as int == win_lo(x as int, ri));
                assert(hi_ as int == win_hi(x as int, ri, wi));
                assert(lo <= x < hi_);
            }
            let count: u64 = (hi_ - lo) as u64;
            let mut ch: u32 = 0;
            while ch < 4
                invariant
                    y < h,
                    x < w,
                    ch <= 4,
                    lo as int == win_lo(x as int, ri),
                    hi_ as int == win_hi(x as int, ri, wi),
                    lo <= x < hi_ <= w,
                    count == hi_ - lo,
                    out@.len() == 4 * ((y as int) * wi + (x as int)) + ch,
                    forall|j: int| #![all_triggers] 0 <= j < out@.len() ==> out@[j] == bl[j],
                decreases 4 - ch,
            {
                let mut sum: u64 = 0;
                let mut xx: u32 = lo;
                proof {
                    assert(4 * ((y as int) * wi + (wi - 1)) + 3 < 4 * wi * hi2) by (nonlinear_arith)
                        requires
                            0 <= (y as int) < hi2,
                            wi >= 1,
                    ;
                    lemma_row_sum_bound(src@, wi, y as int, ch as int, lo as int, hi_ as int);
                }
                while xx < hi_
                    invariant
                        y < h,
                        lo <= xx <= hi_ <= w,
                        ch < 4,
                        sum == row_sum(src@, wi, y as int, ch as int, lo as int, xx as int),
                        sum <= 255 * ((xx as int) - (lo as int)),
                    decreases hi_ - xx,
                {
                    proof {
                        assert(4 * ((y as int) * wi + (xx as int)) + (ch as int) < 4 * wi
                            * hi2) by (nonlinear_arith)
                            requires
                                0 <= (y as int) < hi2,
                                0 <= (xx as int) < wi,
                                0 <= (ch as int) < 4,
                        ;
                        lemma_row_sum_bound(src@, wi, y as int, ch as int, lo as int, xx as int);
                    }
                    let idx: usize = 4 * ((y as usize) * (w as usize) + (xx as usize)) + (
                    ch as usize);
                    sum = sum + (src[idx] as u64);
                    xx += 1;
                }
                let avg: u64 = sum / count;
                proof {
                    lemma_row_sum_bound(src@, wi, y as int, ch as int, lo as int, hi_ as int);
                    assert((count as int) * 255 == 255 * (count as int)) by (nonlinear_arith);
                    vstd::arithmetic::div_mod::lemma_div_is_ordered(
                        sum as int,
                        255 * (count as int),
                        count as int,
                    );
                    vstd::arithmetic::div_mod::lemma_div_multiples_vanish(255, count as int);
                    assert(avg <= 255);
                }
                let ghost j0 = out@.len() as int;
                out.push(avg as u8);
                proof {
                    lemma_decompose(wi, x as int, y as int, ch as int);
                    assert(j0 == 4 * ((y as int) * wi + (x as int)) + (ch as int));
                    assert(j0 < src@.len()) by (nonlinear_arith)
                        requires
                            0 <= (y as int) < hi2,
                            0 <= (x as int) < wi,
                            0 <= (ch as int) < 4,
                            j0 == 4 * ((y as int) * wi + (x as int)) + (ch as int),
                            src@.len() == 4 * wi * hi2,
                    ;
                    assert(bl[j0] == (row_sum(
                        src@,
                        wi,
                        py_of(j0, wi),
                        ch_of(j0),
                        win_lo(px_of(j0, wi), ri),
                        win_hi(px_of(j0, wi), ri, wi),
                    ) / (win_hi(px_of(j0, wi), ri, wi) - win_lo(px_of(j0, wi), ri))) as u8);
                    assert(out@[j0] == bl[j0]);
                }
                ch += 1;
            }
            proof {
                assert(4 * ((y as int) * wi + (x as int)) + 4 == 4 * ((y as int) * wi + ((
                x as int) + 1)));
            }
            x += 1;
        }
        proof {
            assert(4 * ((y as int) * wi + wi) == 4 * (((y as int) + 1) * wi)) by (nonlinear_arith);
        }
        y += 1;
    }
    proof {
        assert(out@.len() == 4 * (hi2 * wi));
        assert(4 * (hi2 * wi) == 4 * wi * hi2) by (nonlinear_arith);
        assert(out@ =~= bl);
    }
    out
}

/// One vertical box-blur pass over `src`, as [`spec_blur_v`] describes.
#[verifier::loop_isolation(false)]
fn blur_pass_v(src: &Vec<u8>, w: u32, h: u32, radius: u32) -> (out: Vec<u8>)
    requires
        src@.len() == 4 * (w as int) * (h as int),
    ensures
        out@ == spec_blur_v(src@, w as int, h as int, radius as int),
    decreases 0int,
{
    let ghost wi = w as int;
    let ghost hi2 = h as int;
    let ghost ri = radius as int;
    let ghost bl = spec_blur_v(src@, wi, hi2, ri);
    let n = src.len();
    let mut out: Vec<u8> = Vec::new();
    let mut y: u32 = 0;
    while y < h
        invariant
            y <= h,
            out@.len() == 4 * ((y as int) * wi),
            forall|j: int| #![all_triggers] 0 <= j < out@.len() ==> out@[j] == bl[j],
        decreases h - y,
    {
        let mut x: u32 = 0;
        proof {
            assert(4 * ((y as int) * wi + 0) == 4 * ((y as int) * wi));
        }
        while x < w
            invariant
                y < h,
                x <= w,
                out@.len() == 4 * ((y as int) * wi + (x as int)),
                forall|j: int| #![all_triggers] 0 <= j < out@.len() ==> out@[j] == bl[j],
            decreases w - x,
        {
            let lo: u32 = if y > radius {
                y - radius
            } else {
                0
            };
            let hi_t: u64 = y as u64 + radius as u64 + 1;
            let hi_: u32 = if hi_t < h as u64 {
                hi_t as u32
            } else {
                h
            };
            proof {
                assert(lo as int == win_lo(y as int, ri));
                assert(hi_ as int == win_hi(y as int, ri, hi2));
                assert(lo <= y < hi_);
            }
            let count: u64 = (hi_ - lo) as u64;
            let mut ch: u32 = 0;
            while ch < 4
                invariant
                    y < h,
                    x < w,
                    ch <= 4,
                    lo as int == win_lo(y as int, ri),
                    hi_ as int == win_hi(y as int, ri, hi2),
                    lo <= y < hi_ <= h,
                    count == hi_ - lo,
                    out@.len() == 4 * ((y as int) * wi + (x as int)) + ch,
                    forall|j: int| #![all_triggers] 0 <= j < out@.len() ==> out@[j] == bl[j],
                decreases 4 - ch,
            {
                let mut sum: u64 = 0;
                let mut yy: u32 = lo;
                proof {
                    lemma_col_sum_bound(src@, wi, x as int, ch as int, lo as int, hi_ as int);
                }
                while yy < hi_
                    invariant
                        x < w,
                        lo <= yy <= hi_ <= h,
                        ch < 4,
                        sum == col_sum(src@, wi, x as int, ch as int, lo as int, yy as int),
                        sum <= 255 * ((yy as int) - (lo as int)),
                    decreases hi_ - yy,
                {
                    proof {
                        assert(4 * ((yy as int) * wi + (x as int)) + (ch as int) < 4 * wi
                            * hi2) by (nonlinear_arith)
                            requires
                                0 <= (yy as int) < hi2,
                                0 <= (x as int) < wi,
                                0 <= (ch as int) < 4,
                        ;
                        lemma_col_sum_bound(src@, wi, x as int, ch as int, lo as int, yy as int);
                    }
                    let idx: usize = 4 * ((yy as usize) * (w as usize) + (x as usize)) + (
                    ch as usize);
                    sum = sum + (src[idx] as u64);
                    yy += 1;
                }
                let avg: u64 = sum / count;
                proof {
                    lemma_col_sum_bound(src@, wi, x as int, ch as int, lo as int, hi_ as int);
                    assert((count as int) * 255 == 255 * (count as int)) by (nonlinear_arith);
                    vstd::arithmetic::div_mod::lemma_div_is_ordered(
                        sum as int,
                        255 * (count as int),
                        count as int,
                    );
                    vstd::arithmetic::div_mod::lemma_div_multiples_vanish(255, count as int);
                    assert(avg <= 255);
                }
                let ghost j0 = out@.len() as int;
                out.push(avg as u8);
                proof {
                    lemma_decompose(wi, x as int, y as int, ch as int);
                    assert(j0 == 4 * ((y as int) * wi + (x as int)) + (ch as int));
                    assert(j0 < src@.len()) by (nonlinear_arith)
                        requires
                            0 <= (y as int) < hi2,
                            0 <= (x as int) < wi,
                            0 <= (ch as int) < 4,
                            j0 == 4 * ((y as int) * wi + (x as int)) + (ch as int),
                            src@.len() == 4 * wi * hi2,
                    ;
                    assert(bl[j0] == (col_sum(
                        src@,
                        wi,
                        px_of(j0, wi),
                        ch_of(j0),
                        win_lo(py_of(j0, wi), ri),
                        win_hi(py_of(j0, wi), ri, hi2),
                    ) / (win_hi(py_of(j0, wi), ri, hi2) - win_lo(py_of(j0, wi), ri))) as u8);
                    assert(out@[j0] == bl[j0]);
                }
                ch += 1;
            }
            proof {
                assert(4 * ((y as int) * wi + (x as int)) + 4 == 4 * ((y as int) * wi + ((
                x as int) + 1)));
            }
            x += 1;
        }
        proof {
            assert(4 * ((y as int) * wi + wi) == 4 * (((y as int) + 1) * wi)) by (nonlinear_arith);
        }
        y += 1;
    }
    proof {
        assert(out@.len() == 4 * (hi2 * wi));
        assert(4 * (hi2 * wi) == 4 * wi * hi2) by (nonlinear_arith);
        assert(out@ =~= bl);
    }
    out
}

/// Blurs the whole canvas with a box blur of the given radius, one
/// horizontal then one vertical pass — the backend's approximation of the
/// classic soft drop shadow. A radius of zero leaves every pixel unchanged
/// in value.
pub fn blur_box(img: &mut RenderedImage, radius: u32)
    requires
        old(img).wf(),
    ensures
        final(img).wf(),
        final(img).width == old(img).width,
        final(img).height == old(img).height,
        final(img).data@ == spec_blur_v(
            spec_blur_h(
                old(img).data@,
                old(img).width as int,
                old(img).height as int,
                radius as int,
            ),
            old(img).width as int,
            old(img).height as int,
            radius as int,
        ),
{
    let d1 = blur_pass_h(&img.data, img.width, img.height, radius);
    img.data = d1;
    let d2 = blur_pass_v(&img.data, img.width, img.height, radius);
    img.data = d2;
}

} // verus!
