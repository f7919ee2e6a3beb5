//! The plain-text PPM (`P3`) image encoding: the renderer's output format,
//! and the format texture assets are decoded from. Encoding never fails;
//! decoding accepts any whitespace-separated `P3` document with a 255
//! channel maximum. Reading and writing the bytes is the caller's business.

use vstd::prelude::*;

use crate::assets::Image;
use crate::codec::{BLANK, NEWLINE};
use crate::engine::{lemma_mul_le, PixelBuffer};
use crate::scene::Color;
use crate::text::{dec_spec, push_dec, read_u64, sp_read_u64};

verus! {

/// One pixel's line: the three channels, blank-separated.
pub open spec fn pixel_line(c: Color) -> Seq<u8> {
    dec_spec(c.r as nat) + seq![BLANK] + dec_spec(c.g as nat) + seq![BLANK] + dec_spec(c.b as nat)
        + seq![NEWLINE]
}

/// The pixel lines of the first `k` cells.
pub open spec fn pixel_lines(data: Seq<Option<Color>>, k: int) -> Seq<u8>
    decreases k,
{
    if k <= 0 {
        Seq::empty()
    } else {
        pixel_lines(data, k - 1) + pixel_line(data[k - 1]->Some_0)
    }
}

/// The `P3` header: magic, dimensions, and the maximum channel value.
pub open spec fn ppm_header(w: int, h: int) -> Seq<u8> {
    seq![80u8, 51u8, NEWLINE] + dec_spec(w as nat) + seq![BLANK] + dec_spec(h as nat) + seq![
        NEWLINE,
    ] + dec_spec(255) + seq![NEWLINE]
}

/// The whole document for a fully written buffer.
pub open spec fn spec_ppm(buf: PixelBuffer) -> Seq<u8> {
    ppm_header(buf.width as int, buf.height as int) + pixel_lines(buf.data@, buf.data@.len() as int)
}

/// Encodes a fully written pixel buffer as a PPM document.
pub fn encode_ppm(buf: &PixelBuffer) -> (out: Vec<u8>)
    requires
        buf.wf(),
        forall|q: int| 0 <= q < buf.data@.len() ==> (#[trigger] buf.data@[q]) is Some,
    ensures
        out@ == spec_ppm(*buf),
{
    let mut out: Vec<u8> = Vec::new();
    out.push(80);
    out.push(51);
    out.push(NEWLINE);
    push_dec(&mut out, buf.width);
    out.push(BLANK);
    push_dec(&mut out, buf.height);
    out.push(NEWLINE);
    push_dec(&mut out, 255);
    out.push(NEWLINE);
    proof {
        assert(out@ =~= ppm_header(buf.width as int, buf.height as int));
    }
    let mut i: usize = 0;
    while i < buf.data.len()
        invariant
            i <= buf.data@.len(),
            forall|q: int| 0 <= q < buf.data@.len() ==> (#[trigger] buf.data@[q]) is Some,
            out@ == ppm_header(buf.width as int, buf.height as int) + pixel_lines(
                buf.data@,
                i as int,
            ),
        decreases buf.data@.len() - i,
    {
        match &buf.data[i] {
            Option::Some(c) => {
                push_dec(&mut out, c.r as u64);
                out.push(BLANK);
                push_dec(&mut out, c.g as u64);
                out.push(BLANK);
                push_dec(&mut out, c.b as u64);
                out.push(NEWLINE);
                proof {
                    assert(out@ =~= ppm_header(buf.width as int, buf.height as int) + pixel_lines(
                        buf.data@,
                        i as int + 1,
                    ));
                }
            },
            Option::None => {
                proof {
                    assert(false);
                }
            },
        }
        i = i + 1;
    }
    out
}

// ---------------------------------------------------------------------------
// Decoding, for texture assets.
// ---------------------------------------------------------------------------
/// A structurally invalid `P3` document.
#[derive(Clone, Copy, Debug)]
pub struct PpmError {}

/// Whitespace accepted between the tokens of a `P3` document.
pub open spec fn is_ws(b: u8) -> bool {
    b == 32 || b == 10 || b == 9 || b == 13
}

/// First index at or after `pos` whose byte is not whitespace (or the end).
pub open spec fn ws_end(s: Seq<u8>, pos: int) -> int
    decreases s.len() - pos,
{
    if pos < 0 || pos >= s.len() {
        pos
    } else if is_ws(s[pos]) {
        ws_end(s, pos + 1)
    } else {
        pos
    }
}

proof fn lemma_ws_end_shape(s: Seq<u8>, pos: int)
    requires
        0 <= pos <= s.len(),
    ensures
        pos <= ws_end(s, pos) <= s.len(),
        forall|i: int| pos <= i < ws_end(s, pos) ==> is_ws(#[trigger] s[i]),
        ws_end(s, pos) < s.len() ==> !is_ws(s[ws_end(s, pos)]),
    decreases s.len() - pos,
{
    if pos < s.len() && is_ws(s[pos]) {
        lemma_ws_end_shape(s, pos + 1);
    }
}

/// A run of whitespace bounded by another byte (or the end) is exactly what
/// `ws_end` delimits.
proof fn lemma_ws_end_of_run(s: Seq<u8>, pos: int, e: int)
    requires
        0 <= pos <= e <= s.len(),
        forall|i: int| pos <= i < e ==> is_ws(#[trigger] s[i]),
        e < s.len() ==> !is_ws(s[e]),
    ensures
        ws_end(s, pos) == e,
    decreases e - pos,
{
    if pos < e {
        lemma_ws_end_of_run(s, pos + 1, e);
    }
}

/// At least one whitespace byte, then a number no greater than `max`.
pub open spec fn sp_ws_num(s: Seq<u8>, pos: int, max: u64) -> Option<(u64, int)> {
    let e = ws_end(s, pos);
    if e == pos {
        Option::None
    } else {
        match sp_read_u64(s, e) {
            Option::None => Option::None,
            Option::Some((v, e2)) => if v <= max {
                Option::Some((v, e2))
            } else {
                Option::None
            },
        }
    }
}

/// `k` pixels: three whitespace-led channels each.
pub open spec fn sp_pixels(s: Seq<u8>, pos: int, k: nat) -> Option<(Seq<Color>, int)>
    decreases k,
{
    if k == 0 {
        Option::Some((Seq::empty(), pos))
    } else {
        match sp_ws_num(s, pos, 255) {
            Option::None => Option::None,
            Option::Some((r, p1)) => match sp_ws_num(s, p1, 255) {
                Option::None => Option::None,
                Option::Some((g, p2)) => match sp_ws_num(s, p2, 255) {
                    Option::None => Option::None,
                    Option::Some((b, p3)) => match sp_pixels(s, p3, (k - 1) as nat) {
                        Option::None => Option::None,
                        Option::Some((rest, e)) => Option::Some(
                            (seq![Color { r: r as u8, g: g as u8, b: b as u8 }] + rest, e),
                        ),
                    },
                },
            },
        }
    }
}

/// The image read back from a whole `P3` document: the magic, the two
/// dimensions (both at least one), the 255 channel maximum, then exactly
/// `width * height` pixels, with nothing but whitespace after.
pub open spec fn spec_parse_ppm(s: Seq<u8>) -> Option<(u32, u32, Seq<Color>)> {
    if !(s.len() >= 2 && s[0] == 80 && s[1] == 51) {
        Option::None
    } else {
        match sp_ws_num(s, 2, u32::MAX as u64) {
            Option::None => Option::None,
            Option::Some((w, p1)) => match sp_ws_num(s, p1, u32::MAX as u64) {
                Option::None => Option::None,
                Option::Some((h, p2)) => match sp_ws_num(s, p2, u64::MAX) {
                    Option::None => Option::None,
                    Option::Some((mx, p3)) => if mx == 255 && w >= 1 && h >= 1 {
                        match sp_pixels(s, p3, (w * h) as nat) {
                            Option::None => Option::None,
                            Option::Some((px, e)) => if ws_end(s, e) == s.len() {
                                Option::Some((w as u32, h as u32, px))
                            } else {
                                Option::None
                            },
                        }
                    } else {
                        Option::None
                    },
                },
            },
        }
    }
}

/// At least one whitespace byte, then a number no greater than `max`.
fn read_ws_num(s: &[u8], pos: usize, max: u64) -> (r: Option<(u64, usize)>)
    requires
        pos <= s@.len(),
    ensures
        match r {
            Option::Some((v, e)) => sp_ws_num(s@, pos as int, max) == Option::Some((v, e as int))
                && pos < e <= s@.len() && v <= max,
            Option::None => sp_ws_num(s@, pos as int, max) is None,
        },
{
    proof {
        lemma_ws_end_shape(s@, pos as int);
    }
    let ghost we = ws_end(s@, pos as int);
    let len = s.len();
    let mut i: usize = pos;
    while i < len && (s[i] == 32 || s[i] == 10 || s[i] == 9 || s[i] == 13)
        invariant
            pos <= i <= we <= len == s@.len(),
            we == ws_end(s@, pos as int),
            forall|j: int| pos <= j < we ==> is_ws(#[trigger] s@[j]),
            we < s@.len() ==> !is_ws(s@[we]),
        decreases len - i,
    {
        proof {
            assert(i < we) by {
                if i >= we {
                    assert(!is_ws(s@[i as int]));
                }
            }
        }
        i = i + 1;
    }
    proof {
        assert(i == we) by {
            if i < we {
                assert(is_ws(s@[i as int]));
            }
        }
    }
    if i == pos {
        return Option::None;
    }
    match read_u64(s, i) {
        Option::None => Option::None,
        Option::Some((v, e)) => {
            if v <= max {
                Option::Some((v, e))
            } else {
                Option::None
            }
        },
    }
}

/// Prepends already-read pixels to a later read-back's outcome.
pub open spec fn px_prepend(pre: Seq<Color>, r: Option<(Seq<Color>, int)>) -> Option<
    (Seq<Color>, int),
> {
    match r {
        Option::None => Option::None,
        Option::Some((rest, e)) => Option::Some((pre + rest, e)),
    }
}

/// Decodes a `P3` texture asset: succeeds on exactly the documents that
/// `spec_parse_ppm` accepts, returning exactly the image it names, which is
/// always usable.
pub fn parse_ppm(s: &[u8]) -> (r: Result<Image, PpmError>)
    ensures
        match r {
            Result::Ok(img) => spec_parse_ppm(s@) == Option::Some(
                (img.width, img.height, img.pixels@),
            ) && img.wf(),
            Result::Err(_) => spec_parse_ppm(s@) is None,
        },
{
    if s.len() < 2 || s[0] != 80 || s[1] != 51 {
        return Result::Err(PpmError {});
    }
    let (w, p1) = match read_ws_num(s, 2, u32::MAX as u64) {
        Option::None => {
            return Result::Err(PpmError {});
        },
        Option::Some(v) => v,
    };
    let (h, p2) = match read_ws_num(s, p1, u32::MAX as u64) {
        Option::None => {
            return Result::Err(PpmError {});
        },
        Option::Some(v) => v,
    };
    let (mx, p3) = match read_ws_num(s, p2, u64::MAX) {
        Option::None => {
            return Result::Err(PpmError {});
        },
        Option::Some(v) => v,
    };
    if !(mx == 255 && w >= 1 && h >= 1) {
        return Result::Err(PpmError {});
    }
    proof {
        lemma_mul_le(w as int, h as int, u32::MAX as int, u32::MAX as int);
    }
    let cnt: u64 = w * h;
    let mut pixels: Vec<Color> = Vec::new();
    let mut pos: usize = p3;
    let mut i: u64 = 0;
    while i < cnt
        invariant
            i <= cnt,
            pos <= s@.len(),
            pixels@.len() == i,
            cnt as int == (w as int) * (h as int),
            1 <= w <= u32::MAX && 1 <= h <= u32::MAX,
            s@.len() >= 2 && s@[0] == 80 && s@[1] == 51,
            sp_ws_num(s@, 2, u32::MAX as u64) == Option::Some((w, p1 as int)),
            sp_ws_num(s@, p1 as int, u32::MAX as u64) == Option::Some((h, p2 as int)),
            sp_ws_num(s@, p2 as int, u64::MAX) == Option::Some((255u64, p3 as int)),
            sp_pixels(s@, p3 as int, cnt as nat) == px_prepend(
                pixels@,
                sp_pixels(s@, pos as int, (cnt - i) as nat),
            ),
        decreases cnt - i,
    {
        let (r0, q1) = match read_ws_num(s, pos, 255) {
            Option::None => {
                return Result::Err(PpmError {});
            },
            Option::Some(v) => v,
        };
        let (g0, q2) = match read_ws_num(s, q1, 255) {
            Option::None => {
                return Result::Err(PpmError {});
            },
            Option::Some(v) => v,
        };
        let (b0, q3) = match read_ws_num(s, q2, 255) {
            Option::None => {
                return Result::Err(PpmError {});
            },
            Option::Some(v) => v,
        };
        let c = Color { r: r0 as u8, g: g0 as u8, b: b0 as u8 };
        proof {
            let rest = sp_pixels(s@, q3 as int, (cnt - i - 1) as nat);
            assert(sp_pixels(s@, pos as int, (cnt - i) as nat) == px_prepend(seq![c], rest));
            if rest is Some {
                assert(pixels@ + (seq![c] + rest->Some_0.0) =~= pixels@.push(c)
                    + rest->Some_0.0);
            }
            assert(px_prepend(pixels@, px_prepend(seq![c], rest)) == px_prepend(
                pixels@.push(c),
                rest,
            ));
        }
        pixels.push(c);
        pos = q3;
        i = i + 1;
    }
    proof {
        assert(sp_pixels(s@, pos as int, 0) == Option::Some(
            (Seq::<Color>::empty(), pos as int),
        ));
        assert(pixels@ + Seq::<Color>::empty() =~= pixels@);
        assert(sp_pixels(s@, p3 as int, cnt as nat) == Option::Some((pixels@, pos as int)));
    }
    let len = s.len();
    let mut t: usize = pos;
    while t < len && (s[t] == 32 || s[t] == 10 || s[t] == 9 || s[t] == 13)
        invariant
            pos <= t <= len == s@.len(),
            forall|j: int| pos <= j < t ==> is_ws(#[trigger] s@[j]),
        decreases len - t,
    {
        t = t + 1;
    }
    proof {
        lemma_ws_end_of_run(s@, pos as int, t as int);
    }
    if t != len {
        return Result::Err(PpmError {});
    }
    let img = Image { width: w as u32, height: h as u32, pixels };
    proof {
        assert(spec_parse_ppm(s@) == Option::Some((img.width, img.height, img.pixels@)));
    }
    Result::Ok(img)
}

} // verus!
