//! The scene store's textual form and its codec.
//!
//! A scene is persisted as a small line-based ASCII document:
//!
//! ```text
//! c <aspect_w> <aspect_h>
//! k <r> <g> <b>
//! n <surface count>
//! p <r> <g> <b> <texture>          (a plane)
//! r <u0> <v0> <u1> <v1> <r> <g> <b> <texture>   (a rectangle)
//! ```
//!
//! where `<texture>` is `-` for none, or `t` followed directly by the asset
//! name. `spec_encode` defines the document laid down for a scene and
//! `spec_parse` the scene read back from a document; `lemma_scene_roundtrip`
//! proves that every well-formed scene survives the round trip unchanged.

use vstd::prelude::*;

use crate::scene::{
    is_name_byte, wf_name, wf_scene, wf_surface, Camera, Color, PersistedScene, Radiance, SceneV,
    Shape, Surface, SurfaceV, SURFACE_LIMIT,
};
use crate::text::{dec_spec, is_digit, lemma_read_dec, push_dec, read_u64, sp_read_u64};

verus! {

/// The bytes of the textual form, named: a blank, a line end, the two
/// texture markers and the five line tags.
pub const BLANK: u8 = 32;

pub const NEWLINE: u8 = 10;

pub const TEX_NONE: u8 = 45;

pub const TEX_SOME: u8 = 116;

pub const TAG_CAMERA: u8 = 99;

pub const TAG_BACKGROUND: u8 = 107;

pub const TAG_COUNT: u8 = 110;

pub const TAG_PLANE: u8 = 112;

pub const TAG_RECT: u8 = 114;

/// A structurally invalid scene document.
#[derive(Clone, Copy, Debug)]
pub struct LoadError {}

// ---------------------------------------------------------------------------
// The encoded form.
// ---------------------------------------------------------------------------
/// The texture token: `-` for none, `t` followed by the asset name.
pub open spec fn enc_tex(t: Option<Seq<u8>>) -> Seq<u8> {
    match t {
        Option::None => seq![TEX_NONE],
        Option::Some(name) => seq![TEX_SOME] + name,
    }
}

/// Three radiance channels, each followed by a blank.
pub open spec fn enc_rad(rad: Radiance) -> Seq<u8> {
    dec_spec(rad.r as nat) + seq![BLANK] + dec_spec(rad.g as nat) + seq![BLANK] + dec_spec(
        rad.b as nat,
    ) + seq![BLANK]
}

/// One surface line.
pub open spec fn enc_surface(s: SurfaceV) -> Seq<u8> {
    match s.shape {
        Shape::Plane => seq![TAG_PLANE, BLANK] + enc_rad(s.radiance) + enc_tex(s.texture) + seq![NEWLINE],
        Shape::Rect { u0, v0, u1, v1 } => seq![TAG_RECT, BLANK] + dec_spec(u0 as nat) + seq![BLANK]
            + dec_spec(v0 as nat) + seq![BLANK] + dec_spec(u1 as nat) + seq![BLANK] + dec_spec(
            v1 as nat,
        ) + seq![BLANK] + enc_rad(s.radiance) + enc_tex(s.texture) + seq![NEWLINE],
    }
}

/// The surface lines, in scene order.
pub open spec fn enc_surfaces(l: Seq<SurfaceV>) -> Seq<u8>
    decreases l.len(),
{
    if l.len() == 0 {
        Seq::empty()
    } else {
        enc_surface(l[0]) + enc_surfaces(l.drop_first())
    }
}

/// The camera, background and count lines.
pub open spec fn enc_header(sv: SceneV) -> Seq<u8> {
    seq![TAG_CAMERA, BLANK] + dec_spec(sv.camera.aspect_w as nat) + seq![BLANK] + dec_spec(
        sv.camera.aspect_h as nat,
    ) + seq![NEWLINE] + seq![TAG_BACKGROUND, BLANK] + dec_spec(sv.background.r as nat) + seq![BLANK] + dec_spec(
        sv.background.g as nat,
    ) + seq![BLANK] + dec_spec(sv.background.b as nat) + seq![NEWLINE] + seq![TAG_COUNT, BLANK] + dec_spec(
        sv.surfaces.len(),
    ) + seq![NEWLINE]
}

/// The whole document laid down for a scene.
pub open spec fn spec_encode(sv: SceneV) -> Seq<u8> {
    enc_header(sv) + enc_surfaces(sv.surfaces)
}

// ---------------------------------------------------------------------------
// The read-back, token by token.
// ---------------------------------------------------------------------------
/// One expected byte.
pub open spec fn sp_byte(s: Seq<u8>, pos: int, b: u8) -> Option<int> {
    if 0 <= pos < s.len() && s[pos] == b {
        Option::Some(pos + 1)
    } else {
        Option::None
    }
}

/// A line tag: the tag byte and the blank after it.
pub open spec fn sp_tag(s: Seq<u8>, pos: int, t: u8) -> Option<int> {
    match sp_byte(s, pos, t) {
        Option::None => Option::None,
        Option::Some(p1) => sp_byte(s, p1, BLANK),
    }
}

/// A decimal number no greater than `max`, followed by the byte `follow`.
pub open spec fn sp_num(s: Seq<u8>, pos: int, follow: u8, max: u64) -> Option<(u64, int)> {
    match sp_read_u64(s, pos) {
        Option::None => Option::None,
        Option::Some((v, e)) => if v <= max {
            match sp_byte(s, e, follow) {
                Option::None => Option::None,
                Option::Some(e2) => Option::Some((v, e2)),
            }
        } else {
            Option::None
        },
    }
}

/// First index at or after `pos` whose byte is not an asset-name byte.
pub open spec fn word_end(s: Seq<u8>, pos: int) -> int
    decreases s.len() - pos,
{
    if pos < 0 || pos >= s.len() {
        pos
    } else if is_name_byte(s[pos]) {
        word_end(s, pos + 1)
    } else {
        pos
    }
}

/// The texture token.
pub open spec fn sp_tex(s: Seq<u8>, pos: int) -> Option<(Option<Seq<u8>>, int)> {
    if !(0 <= pos < s.len()) {
        Option::None
    } else if s[pos] == TEX_NONE {
        Option::Some((Option::None, pos + 1))
    } else if s[pos] == TEX_SOME {
        let e = word_end(s, pos + 1);
        if e > pos + 1 {
            Option::Some((Option::Some(s.subrange(pos + 1, e)), e))
        } else {
            Option::None
        }
    } else {
        Option::None
    }
}

/// Three radiance channels, each followed by a blank.
pub open spec fn sp_rad(s: Seq<u8>, pos: int) -> Option<(Radiance, int)> {
    match sp_num(s, pos, BLANK, u32::MAX as u64) {
        Option::None => Option::None,
        Option::Some((r, p1)) => match sp_num(s, p1, BLANK, u32::MAX as u64) {
            Option::None => Option::None,
            Option::Some((g, p2)) => match sp_num(s, p2, BLANK, u32::MAX as u64) {
                Option::None => Option::None,
                Option::Some((b, p3)) => Option::Some(
                    (Radiance { r: r as u32, g: g as u32, b: b as u32 }, p3),
                ),
            },
        },
    }
}

/// One surface line.
pub open spec fn sp_surface(s: Seq<u8>, pos: int) -> Option<(SurfaceV, int)> {
    if !(0 <= pos < s.len()) {
        Option::None
    } else if s[pos] == TAG_PLANE {
        match sp_byte(s, pos + 1, BLANK) {
            Option::None => Option::None,
            Option::Some(p1) => match sp_rad(s, p1) {
                Option::None => Option::None,
                Option::Some((rad, p2)) => match sp_tex(s, p2) {
                    Option::None => Option::None,
                    Option::Some((tex, p3)) => match sp_byte(s, p3, NEWLINE) {
                        Option::None => Option::None,
                        Option::Some(p4) => Option::Some(
                            (SurfaceV { shape: Shape::Plane, radiance: rad, texture: tex }, p4),
                        ),
                    },
                },
            },
        }
    } else if s[pos] == TAG_RECT {
        match sp_byte(s, pos + 1, BLANK) {
            Option::None => Option::None,
            Option::Some(p1) => match sp_num(s, p1, BLANK, u32::MAX as u64) {
                Option::None => Option::None,
                Option::Some((u0, p2)) => match sp_num(s, p2, BLANK, u32::MAX as u64) {
                    Option::None => Option::None,
                    Option::Some((v0, p3)) => match sp_num(s, p3, BLANK, u32::MAX as u64) {
                        Option::None => Option::None,
                        Option::Some((u1, p4)) => match sp_num(s, p4, BLANK, u32::MAX as u64) {
                            Option::None => Option::None,
                            Option::Some((v1, p5)) => match sp_rad(s, p5) {
                                Option::None => Option::None,
                                Option::Some((rad, p6)) => match sp_tex(s, p6) {
                                    Option::None => Option::None,
                                    Option::Some((tex, p7)) => match sp_byte(s, p7, NEWLINE) {
                                        Option::None => Option::None,
                                        Option::Some(p8) => Option::Some(
                                            (
                                                SurfaceV {
                                                    shape: Shape::Rect {
                                                        u0: u0 as u32,
                                                        v0: v0 as u32,
                                                        u1: u1 as u32,
                                                        v1: v1 as u32,
                                                    },
                                                    radiance: rad,
                                                    texture: tex,
                                                },
                                                p8,
                                            ),
                                        ),
                                    },
                                },
                            },
                        },
                    },
                },
            },
        }
    } else {
        Option::None
    }
}

/// `k` surface lines in a row.
pub open spec fn sp_surfaces(s: Seq<u8>, pos: int, k: nat) -> Option<(Seq<SurfaceV>, int)>
    decreases k,
{
    if k == 0 {
        Option::Some((Seq::empty(), pos))
    } else {
        match sp_surface(s, pos) {
            Option::None => Option::None,
            Option::Some((sv, e)) => match sp_surfaces(s, e, (k - 1) as nat) {
                Option::None => Option::None,
                Option::Some((rest, e2)) => Option::Some((seq![sv] + rest, e2)),
            },
        }
    }
}

/// The camera, background and count lines read back: the six header numbers
/// and the position after them.
pub open spec fn sp_header(s: Seq<u8>) -> Option<((u64, u64, u64, u64, u64, u64), int)> {
    match sp_tag(s, 0, TAG_CAMERA) {
        Option::None => Option::None,
        Option::Some(p1) => match sp_num(s, p1, BLANK, u32::MAX as u64) {
            Option::None => Option::None,
            Option::Some((aw, p2)) => match sp_num(s, p2, NEWLINE, u32::MAX as u64) {
                Option::None => Option::None,
                Option::Some((ah, p3)) => match sp_tag(s, p3, TAG_BACKGROUND) {
                    Option::None => Option::None,
                    Option::Some(p4) => match sp_num(s, p4, BLANK, 255) {
                        Option::None => Option::None,
                        Option::Some((r, p5)) => match sp_num(s, p5, BLANK, 255) {
                            Option::None => Option::None,
                            Option::Some((g, p6)) => match sp_num(s, p6, NEWLINE, 255) {
                                Option::None => Option::None,
                                Option::Some((b, p7)) => match sp_tag(s, p7, TAG_COUNT) {
                                    Option::None => Option::None,
                                    Option::Some(p8) => match sp_num(s, p8, NEWLINE, SURFACE_LIMIT) {
                                        Option::None => Option::None,
                                        Option::Some((cnt, p9)) => Option::Some(
                                            ((aw, ah, r, g, b, cnt), p9),
                                        ),
                                    },
                                },
                            },
                        },
                    },
                },
            },
        },
    }
}

/// The scene read back from a whole document, if it is well formed; the
/// document must be consumed exactly.
pub open spec fn spec_parse(s: Seq<u8>) -> Option<SceneV> {
    match sp_header(s) {
        Option::None => Option::None,
        Option::Some(((aw, ah, r, g, b, cnt), p9)) => match sp_surfaces(s, p9, cnt as nat) {
            Option::None => Option::None,
            Option::Some((l, pend)) => if pend == s.len() && aw >= 1 && ah >= 1 {
                Option::Some(
                    SceneV {
                        camera: Camera { aspect_w: aw as u32, aspect_h: ah as u32 },
                        background: Color { r: r as u8, g: g as u8, b: b as u8 },
                        surfaces: l,
                    },
                )
            } else {
                Option::None
            },
        },
    }
}

// ---------------------------------------------------------------------------
// Reading back what was laid down.
// ---------------------------------------------------------------------------
/// Splits knowledge of a stretch of `s` made of two pieces into knowledge of
/// each piece.
proof fn lemma_peel(s: Seq<u8>, pos: int, a: Seq<u8>, b: Seq<u8>)
    requires
        0 <= pos,
        pos + a.len() + b.len() <= s.len(),
        s.subrange(pos, pos + a.len() + b.len()) == a + b,
    ensures
        s.subrange(pos, pos + a.len()) == a,
        s.subrange(pos + a.len(), pos + a.len() + b.len()) == b,
{
    let t = s.subrange(pos, pos + a.len() + b.len());
    assert forall|i: int| 0 <= i < a.len() implies s.subrange(pos, pos + a.len())[i] == a[i] by {
        assert(t[i] == (a + b)[i]);
    }
    assert(s.subrange(pos, pos + a.len()) =~= a);
    assert forall|i: int|
        0 <= i < b.len() implies s.subrange(pos + a.len(), pos + a.len() + b.len())[i] == b[i] by {
        assert(t[a.len() + i] == (a + b)[a.len() + i]);
    }
    assert(s.subrange(pos + a.len(), pos + a.len() + b.len()) =~= b);
}

/// A known byte of a one-byte stretch.
proof fn lemma_byte_at(s: Seq<u8>, pos: int, b: u8)
    requires
        0 <= pos,
        pos + 1 <= s.len(),
        s.subrange(pos, pos + 1) == seq![b],
    ensures
        s[pos] == b,
        sp_byte(s, pos, b) == Option::Some(pos + 1),
{
    assert(s.subrange(pos, pos + 1)[0] == s[pos]);
}

/// Reading a number token right after it was laid down yields it back.
proof fn lemma_sp_num_enc(s: Seq<u8>, pos: int, n: u64, follow: u8, max: u64)
    requires
        0 <= pos,
        n <= max,
        !is_digit(follow),
        pos + dec_spec(n as nat).len() + 1 <= s.len(),
        s.subrange(pos, pos + dec_spec(n as nat).len() + 1) == dec_spec(n as nat) + seq![follow],
    ensures
        sp_num(s, pos, follow, max) == Option::Some((n, pos + dec_spec(n as nat).len() + 1)),
{
    let d = dec_spec(n as nat);
    lemma_peel(s, pos, d, seq![follow]);
    lemma_byte_at(s, pos + d.len(), follow);
    lemma_read_dec(s, pos, n);
}

/// A run of asset-name bytes bounded by another byte (or the end) is
/// exactly what `word_end` delimits.
proof fn lemma_word_end_of_run(s: Seq<u8>, pos: int, e: int)
    requires
        0 <= pos <= e <= s.len(),
        forall|i: int| pos <= i < e ==> is_name_byte(#[trigger] s[i]),
        e < s.len() ==> !is_name_byte(s[e]),
    ensures
        word_end(s, pos) == e,
    decreases e - pos,
{
    if pos < e {
        lemma_word_end_of_run(s, pos + 1, e);
    }
}

/// Reading a texture token right after it was laid down yields it back; the
/// newline after it bounds the name.
proof fn lemma_sp_tex_enc(s: Seq<u8>, pos: int, t: Option<Seq<u8>>)
    requires
        0 <= pos,
        match t {
            Option::None => true,
            Option::Some(name) => wf_name(name),
        },
        pos + enc_tex(t).len() + 1 <= s.len(),
        s.subrange(pos, pos + enc_tex(t).len() + 1) == enc_tex(t) + seq![NEWLINE],
    ensures
        sp_tex(s, pos) == Option::Some((t, pos + enc_tex(t).len())),
{
    lemma_peel(s, pos, enc_tex(t), seq![NEWLINE]);
    let e = pos + enc_tex(t).len();
    lemma_byte_at(s, e, NEWLINE);
    match t {
        Option::None => {
            lemma_byte_at(s, pos, TEX_NONE);
        },
        Option::Some(name) => {
            lemma_peel(s, pos, seq![TEX_SOME], name);
            lemma_byte_at(s, pos, TEX_SOME);
            assert forall|i: int| pos + 1 <= i < e implies is_name_byte(#[trigger] s[i]) by {
                assert(s.subrange(pos + 1, pos + 1 + name.len())[i - pos - 1] == s[i]);
                assert(name[i - pos - 1] == s[i]);
            }
            lemma_word_end_of_run(s, pos + 1, e);
            assert(s.subrange(pos + 1, e) == name);
        },
    }
}

/// Reading the radiance triple right after it was laid down yields it back.
proof fn lemma_sp_rad_enc(s: Seq<u8>, pos: int, rad: Radiance)
    requires
        0 <= pos,
        pos + enc_rad(rad).len() <= s.len(),
        s.subrange(pos, pos + enc_rad(rad).len()) == enc_rad(rad),
    ensures
        sp_rad(s, pos) == Option::Some((rad, pos + enc_rad(rad).len())),
{
    let dr = dec_spec(rad.r as nat) + seq![BLANK];
    let dg = dec_spec(rad.g as nat) + seq![BLANK];
    let db = dec_spec(rad.b as nat) + seq![BLANK];
    assert(enc_rad(rad) =~= dr + (dg + db));
    lemma_peel(s, pos, dr, dg + db);
    lemma_peel(s, pos + dr.len(), dg, db);
    lemma_sp_num_enc(s, pos, rad.r as u64, BLANK, u32::MAX as u64);
    lemma_sp_num_enc(s, pos + dr.len(), rad.g as u64, BLANK, u32::MAX as u64);
    lemma_sp_num_enc(s, pos + dr.len() + dg.len(), rad.b as u64, BLANK, u32::MAX as u64);
}

/// Reading one surface line right after it was laid down yields it back:
/// the plane form.
#[verifier::rlimit(100)]
proof fn lemma_sp_surface_enc_plane(s: Seq<u8>, pos: int, sv: SurfaceV)
    requires
        0 <= pos,
        wf_surface(sv),
        sv.shape is Plane,
        pos + enc_surface(sv).len() <= s.len(),
        s.subrange(pos, pos + enc_surface(sv).len()) == enc_surface(sv),
    ensures
        sp_surface(s, pos) == Option::Some((sv, pos + enc_surface(sv).len())),
{
    let texnl = enc_tex(sv.texture) + seq![NEWLINE];
    let texlen = enc_tex(sv.texture).len() as int;

        let tag = seq![TAG_PLANE, BLANK];
        let rad = enc_rad(sv.radiance);
        assert(enc_surface(sv) =~= tag + (rad + texnl));
        lemma_peel(s, pos, tag, rad + texnl);
        let p1 = pos + 2;
        lemma_peel(s, p1, rad, texnl);
        let p2 = p1 + rad.len();
        lemma_peel(s, p2, enc_tex(sv.texture), seq![NEWLINE]);
        let p3 = p2 + texlen;
        assert(s.subrange(pos, pos + 2)[0] == s[pos]);
        assert(s.subrange(pos, pos + 2)[1] == s[pos + 1]);
        assert(sp_byte(s, pos + 1, BLANK) == Option::Some(p1));
        lemma_sp_rad_enc(s, p1, sv.radiance);
        assert(sp_rad(s, p1) == Option::Some((sv.radiance, p2)));
        lemma_sp_tex_enc(s, p2, sv.texture);
        assert(sp_tex(s, p2) == Option::Some((sv.texture, p3)));
        lemma_byte_at(s, p3, NEWLINE);
        assert(sp_byte(s, p3, NEWLINE) == Option::Some(p3 + 1));
        let got = SurfaceV { shape: Shape::Plane, radiance: sv.radiance, texture: sv.texture };
        assert(sp_surface(s, pos) == Option::Some((got, p3 + 1)));
        assert(got =~~= sv);
        assert(p3 + 1 == pos + enc_surface(sv).len());
}

/// Reading one surface line right after it was laid down yields it back:
/// the rectangle form.
#[verifier::rlimit(100)]
proof fn lemma_sp_surface_enc_rect(s: Seq<u8>, pos: int, sv: SurfaceV)
    requires
        0 <= pos,
        wf_surface(sv),
        sv.shape is Rect,
        pos + enc_surface(sv).len() <= s.len(),
        s.subrange(pos, pos + enc_surface(sv).len()) == enc_surface(sv),
    ensures
        sp_surface(s, pos) == Option::Some((sv, pos + enc_surface(sv).len())),
{
    let texnl = enc_tex(sv.texture) + seq![NEWLINE];
    let texlen = enc_tex(sv.texture).len() as int;
    let u0 = sv.shape->Rect_u0;
    let v0 = sv.shape->Rect_v0;
    let u1 = sv.shape->Rect_u1;
    let v1 = sv.shape->Rect_v1;

        let tag = seq![TAG_RECT, BLANK];
        let d0 = dec_spec(u0 as nat) + seq![BLANK];
        let d1 = dec_spec(v0 as nat) + seq![BLANK];
        let d2 = dec_spec(u1 as nat) + seq![BLANK];
        let d3 = dec_spec(v1 as nat) + seq![BLANK];
        let rad = enc_rad(sv.radiance);
        assert(enc_surface(sv) =~= tag + (d0 + (d1 + (d2 + (d3 + (rad + texnl))))));
        lemma_peel(s, pos, tag, d0 + (d1 + (d2 + (d3 + (rad + texnl)))));
        let q0 = pos + 2;
        lemma_peel(s, q0, d0, d1 + (d2 + (d3 + (rad + texnl))));
        let q1 = q0 + d0.len();
        lemma_peel(s, q1, d1, d2 + (d3 + (rad + texnl)));
        let q2 = q1 + d1.len();
        lemma_peel(s, q2, d2, d3 + (rad + texnl));
        let q3 = q2 + d2.len();
        lemma_peel(s, q3, d3, rad + texnl);
        let q4 = q3 + d3.len();
        lemma_peel(s, q4, rad, texnl);
        let q5 = q4 + rad.len();
        lemma_peel(s, q5, enc_tex(sv.texture), seq![NEWLINE]);
        let q6 = q5 + texlen;
        assert(s.subrange(pos, pos + 2)[0] == s[pos]);
        assert(s.subrange(pos, pos + 2)[1] == s[pos + 1]);
        assert(sp_byte(s, pos + 1, BLANK) == Option::Some(q0));
        lemma_sp_num_enc(s, q0, u0 as u64, BLANK, u32::MAX as u64);
        assert(sp_num(s, q0, BLANK, u32::MAX as u64) == Option::Some((u0 as u64, q1)));
        lemma_sp_num_enc(s, q1, v0 as u64, BLANK, u32::MAX as u64);
        assert(sp_num(s, q1, BLANK, u32::MAX as u64) == Option::Some((v0 as u64, q2)));
        lemma_sp_num_enc(s, q2, u1 as u64, BLANK, u32::MAX as u64);
        assert(sp_num(s, q2, BLANK, u32::MAX as u64) == Option::Some((u1 as u64, q3)));
        lemma_sp_num_enc(s, q3, v1 as u64, BLANK, u32::MAX as u64);
        assert(sp_num(s, q3, BLANK, u32::MAX as u64) == Option::Some((v1 as u64, q4)));
        lemma_sp_rad_enc(s, q4, sv.radiance);
        assert(sp_rad(s, q4) == Option::Some((sv.radiance, q5)));
        lemma_sp_tex_enc(s, q5, sv.texture);
        assert(sp_tex(s, q5) == Option::Some((sv.texture, q6)));
        lemma_byte_at(s, q6, NEWLINE);
        assert(sp_byte(s, q6, NEWLINE) == Option::Some(q6 + 1));
        let got = SurfaceV {
            shape: Shape::Rect { u0, v0, u1, v1 },
            radiance: sv.radiance,
            texture: sv.texture,
        };
        assert(sp_surface(s, pos) == Option::Some((got, q6 + 1)));
        assert(got =~~= sv);
        assert(q6 + 1 == pos + enc_surface(sv).len());
}

/// Reading one surface line right after it was laid down yields it back.
proof fn lemma_sp_surface_enc(s: Seq<u8>, pos: int, sv: SurfaceV)
    requires
        0 <= pos,
        wf_surface(sv),
        pos + enc_surface(sv).len() <= s.len(),
        s.subrange(pos, pos + enc_surface(sv).len()) == enc_surface(sv),
    ensures
        sp_surface(s, pos) == Option::Some((sv, pos + enc_surface(sv).len())),
{
    match sv.shape {
        Shape::Plane => lemma_sp_surface_enc_plane(s, pos, sv),
        Shape::Rect { .. } => lemma_sp_surface_enc_rect(s, pos, sv),
    }
}

/// Reading `k` surface lines right after they were laid down, with nothing
/// after them, yields them back and consumes the document.
proof fn lemma_sp_surfaces_enc(s: Seq<u8>, pos: int, l: Seq<SurfaceV>)
    requires
        0 <= pos,
        forall|i: int| 0 <= i < l.len() ==> wf_surface(#[trigger] l[i]),
        pos + enc_surfaces(l).len() == s.len(),
        s.subrange(pos, pos + enc_surfaces(l).len()) == enc_surfaces(l),
    ensures
        sp_surfaces(s, pos, l.len()) == Option::Some((l, s.len() as int)),
    decreases l.len(),
{
    if l.len() == 0 {
        assert(sp_surfaces(s, pos, 0) == Option::Some((Seq::<SurfaceV>::empty(), pos)));
        assert(Seq::<SurfaceV>::empty() =~= l);
    } else {
        let head = enc_surface(l[0]);
        let tail = enc_surfaces(l.drop_first());
        assert(enc_surfaces(l) == head + tail);
        lemma_peel(s, pos, head, tail);
        lemma_sp_surface_enc(s, pos, l[0]);
        assert(forall|i: int|
            0 <= i < l.drop_first().len() ==> wf_surface(#[trigger] l.drop_first()[i]));
        lemma_sp_surfaces_enc(s, pos + head.len(), l.drop_first());
        assert(seq![l[0]] + l.drop_first() =~= l);
    }
}

/// Reading the header lines right after they were laid down yields the six
/// header numbers back.
#[verifier::rlimit(100)]
proof fn lemma_sp_header_enc(s: Seq<u8>, sv: SceneV)
    requires
        wf_scene(sv),
        enc_header(sv).len() <= s.len(),
        s.subrange(0, enc_header(sv).len() as int) == enc_header(sv),
    ensures
        sp_header(s) == Option::Some(
            (
                (
                    sv.camera.aspect_w as u64,
                    sv.camera.aspect_h as u64,
                    sv.background.r as u64,
                    sv.background.g as u64,
                    sv.background.b as u64,
                    sv.surfaces.len() as u64,
                ),
                enc_header(sv).len() as int,
            ),
        ),
{
    let daw = dec_spec(sv.camera.aspect_w as nat) + seq![BLANK];
    let dah = dec_spec(sv.camera.aspect_h as nat) + seq![NEWLINE];
    let dr = dec_spec(sv.background.r as nat) + seq![BLANK];
    let dg = dec_spec(sv.background.g as nat) + seq![BLANK];
    let db = dec_spec(sv.background.b as nat) + seq![NEWLINE];
    let dn = dec_spec(sv.surfaces.len()) + seq![NEWLINE];
    let tagc = seq![TAG_CAMERA, BLANK];
    let tagk = seq![TAG_BACKGROUND, BLANK];
    let tagn = seq![TAG_COUNT, BLANK];
    let h = enc_header(sv);
    assert(h =~= tagc + (daw + (dah + (tagk + (dr + (dg + (db + (tagn + dn))))))));
    lemma_peel(s, 0, tagc, daw + (dah + (tagk + (dr + (dg + (db + (tagn + dn)))))));
    let p0 = 2;
    lemma_peel(s, p0, daw, dah + (tagk + (dr + (dg + (db + (tagn + dn))))));
    let p1 = p0 + daw.len();
    lemma_peel(s, p1, dah, tagk + (dr + (dg + (db + (tagn + dn)))));
    let p2 = p1 + dah.len();
    lemma_peel(s, p2, tagk, dr + (dg + (db + (tagn + dn))));
    let p3 = p2 + 2;
    lemma_peel(s, p3, dr, dg + (db + (tagn + dn)));
    let p4 = p3 + dr.len();
    lemma_peel(s, p4, dg, db + (tagn + dn));
    let p5 = p4 + dg.len();
    lemma_peel(s, p5, db, tagn + dn);
    let p6 = p5 + db.len();
    lemma_peel(s, p6, tagn, dn);
    let p7 = p6 + 2;
    assert(s.subrange(0, 2)[0] == s[0]);
    assert(s.subrange(0, 2)[1] == s[1]);
    assert(s.subrange(p2, p2 + 2)[0] == s[p2]);
    assert(s.subrange(p2, p2 + 2)[1] == s[p2 + 1]);
    assert(s.subrange(p6, p6 + 2)[0] == s[p6]);
    assert(s.subrange(p6, p6 + 2)[1] == s[p6 + 1]);
    assert(sp_tag(s, 0, TAG_CAMERA) == Option::Some(p0));
    lemma_sp_num_enc(s, p0, sv.camera.aspect_w as u64, BLANK, u32::MAX as u64);
    assert(sp_num(s, p0, BLANK, u32::MAX as u64) == Option::Some(
        (sv.camera.aspect_w as u64, p1),
    ));
    lemma_sp_num_enc(s, p1, sv.camera.aspect_h as u64, NEWLINE, u32::MAX as u64);
    assert(sp_num(s, p1, NEWLINE, u32::MAX as u64) == Option::Some(
        (sv.camera.aspect_h as u64, p2),
    ));
    assert(sp_tag(s, p2, TAG_BACKGROUND) == Option::Some(p3));
    lemma_sp_num_enc(s, p3, sv.background.r as u64, BLANK, 255);
    assert(sp_num(s, p3, BLANK, 255) == Option::Some((sv.background.r as u64, p4)));
    lemma_sp_num_enc(s, p4, sv.background.g as u64, BLANK, 255);
    assert(sp_num(s, p4, BLANK, 255) == Option::Some((sv.background.g as u64, p5)));
    lemma_sp_num_enc(s, p5, sv.background.b as u64, NEWLINE, 255);
    assert(sp_num(s, p5, NEWLINE, 255) == Option::Some((sv.background.b as u64, p6)));
    assert(sp_tag(s, p6, TAG_COUNT) == Option::Some(p7));
    lemma_sp_num_enc(s, p7, sv.surfaces.len() as u64, NEWLINE, SURFACE_LIMIT);
    assert(sp_num(s, p7, NEWLINE, SURFACE_LIMIT) == Option::Some(
        (sv.surfaces.len() as u64, p7 + dn.len()),
    ));
    assert(p7 + dn.len() == h.len());
}

/// Every well-formed scene survives the store's round trip: reading back the
/// document laid down for it yields the scene itself.
#[verifier::rlimit(100)]
pub proof fn lemma_scene_roundtrip(sv: SceneV)
    requires
        wf_scene(sv),
    ensures
        spec_parse(spec_encode(sv)) == Option::Some(sv),
{
    let s = spec_encode(sv);
    let h = enc_header(sv);
    let body = enc_surfaces(sv.surfaces);
    assert(s.subrange(0, s.len() as int) =~= s);
    lemma_peel(s, 0, h, body);
    lemma_sp_header_enc(s, sv);
    let p8 = h.len() as int;
    lemma_sp_surfaces_enc(s, p8, sv.surfaces);
    assert(sp_surfaces(s, p8, sv.surfaces.len()) == Option::Some(
        (sv.surfaces, s.len() as int),
    ));
    assert(((sv.surfaces.len() as u64) as nat) == sv.surfaces.len());
    let got = SceneV {
        camera: Camera {
            aspect_w: (sv.camera.aspect_w as u64) as u32,
            aspect_h: (sv.camera.aspect_h as u64) as u32,
        },
        background: Color {
            r: (sv.background.r as u64) as u8,
            g: (sv.background.g as u64) as u8,
            b: (sv.background.b as u64) as u8,
        },
        surfaces: sv.surfaces,
    };
    assert(spec_parse(s) == Option::Some(got));
    assert(got =~~= sv);
}

// ---------------------------------------------------------------------------
// The executable codec.
// ---------------------------------------------------------------------------
/// Appends one surface line to `out`.
#[verifier::rlimit(100)]
fn encode_surface(out: &mut Vec<u8>, s: &Surface)
    requires
        wf_surface(s@),
    ensures
        final(out)@ == old(out)@ + enc_surface(s@),
{
    match s.shape {
        Shape::Plane => {
            out.push(TAG_PLANE);
            out.push(BLANK);
        },
        Shape::Rect { u0, v0, u1, v1 } => {
            out.push(TAG_RECT);
            out.push(BLANK);
            push_dec(out, u0 as u64);
            out.push(BLANK);
            push_dec(out, v0 as u64);
            out.push(BLANK);
            push_dec(out, u1 as u64);
            out.push(BLANK);
            push_dec(out, v1 as u64);
            out.push(BLANK);
        },
    }
    push_dec(out, s.radiance.r as u64);
    out.push(BLANK);
    push_dec(out, s.radiance.g as u64);
    out.push(BLANK);
    push_dec(out, s.radiance.b as u64);
    out.push(BLANK);
    match &s.texture {
        Option::None => {
            out.push(TEX_NONE);
        },
        Option::Some(name) => {
            out.push(TEX_SOME);
            crate::text::push_bytes(out, name.as_slice());
        },
    }
    out.push(NEWLINE);
    proof {
        assert(out@ =~= old(out)@ + enc_surface(s@));
    }
}

/// Laying down one more surface line extends the laid-down list.
proof fn lemma_enc_surfaces_snoc(l: Seq<SurfaceV>)
    requires
        l.len() >= 1,
    ensures
        enc_surfaces(l) == enc_surfaces(l.drop_last()) + enc_surface(l.last()),
    decreases l.len(),
{
    if l.len() == 1 {
        assert(l.drop_first() =~= Seq::<SurfaceV>::empty());
        assert(l.drop_last() =~= Seq::<SurfaceV>::empty());
        assert(enc_surfaces(l) =~= enc_surfaces(l.drop_last()) + enc_surface(l.last()));
    } else {
        lemma_enc_surfaces_snoc(l.drop_first());
        assert(l.drop_first().drop_last() =~= l.drop_last().drop_first());
        assert(l.drop_first().last() == l.last());
        assert(l.drop_last()[0] == l[0]);
        assert(enc_surfaces(l.drop_last()) == enc_surface(l[0]) + enc_surfaces(
            l.drop_last().drop_first(),
        ));
        assert(enc_surfaces(l) =~= enc_surfaces(l.drop_last()) + enc_surface(l.last()));
    }
}

/// Lays down the whole document for a scene: the store's save operation, up
/// to the file write that its surroundings perform.
pub fn encode_scene(scene: &PersistedScene) -> (out: Vec<u8>)
    requires
        wf_scene(scene@),
    ensures
        out@ == spec_encode(scene@),
{
    let mut out: Vec<u8> = Vec::new();
    out.push(TAG_CAMERA);
    out.push(BLANK);
    push_dec(&mut out, scene.camera.aspect_w as u64);
    out.push(BLANK);
    push_dec(&mut out, scene.camera.aspect_h as u64);
    out.push(NEWLINE);
    out.push(TAG_BACKGROUND);
    out.push(BLANK);
    push_dec(&mut out, scene.background.r as u64);
    out.push(BLANK);
    push_dec(&mut out, scene.background.g as u64);
    out.push(BLANK);
    push_dec(&mut out, scene.background.b as u64);
    out.push(NEWLINE);
    out.push(TAG_COUNT);
    out.push(BLANK);
    push_dec(&mut out, scene.surfaces.len() as u64);
    out.push(NEWLINE);
    proof {
        assert(out@ =~= enc_header(scene@));
    }
    let mut i: usize = 0;
    while i < scene.surfaces.len()
        invariant
            i <= scene.surfaces@.len(),
            wf_scene(scene@),
            out@ == enc_header(scene@) + enc_surfaces(scene@.surfaces.take(i as int)),
        decreases scene.surfaces@.len() - i,
    {
        proof {
            assert(wf_surface(scene@.surfaces[i as int]));
            assert(scene.surfaces@[i as int]@ == scene@.surfaces[i as int]);
        }
        encode_surface(&mut out, &scene.surfaces[i]);
        proof {
            let l = scene@.surfaces.take(i as int + 1);
            lemma_enc_surfaces_snoc(l);
            assert(l.drop_last() =~= scene@.surfaces.take(i as int));
            assert(l.last() == scene@.surfaces[i as int]);
            assert(out@ =~= enc_header(scene@) + enc_surfaces(l));
        }
        i = i + 1;
    }
    proof {
        assert(scene@.surfaces.take(scene.surfaces@.len() as int) =~= scene@.surfaces);
    }
    out
}

/// One expected byte.
fn expect_byte(s: &[u8], pos: usize, b: u8) -> (r: Option<usize>)
    ensures
        match r {
            Option::Some(e) => sp_byte(s@, pos as int, b) == Option::Some(e as int) && e == pos + 1
                && e <= s@.len(),
            Option::None => sp_byte(s@, pos as int, b) is None,
        },
{
    if pos < s.len() && s[pos] == b {
        Option::Some(pos + 1)
    } else {
        Option::None
    }
}

/// A decimal number no greater than `max`, followed by the byte `follow`.
fn read_num(s: &[u8], pos: usize, follow: u8, max: u64) -> (r: Option<(u64, usize)>)
    requires
        pos <= s@.len(),
    ensures
        match r {
            Option::Some((v, e)) => sp_num(s@, pos as int, follow, max) == Option::Some(
                (v, e as int),
            ) && pos < e <= s@.len() && v <= max,
            Option::None => sp_num(s@, pos as int, follow, max) is None,
        },
{
    match read_u64(s, pos) {
        Option::None => Option::None,
        Option::Some((v, e)) => {
            if v <= max {
                match expect_byte(s, e, follow) {
                    Option::None => Option::None,
                    Option::Some(e2) => Option::Some((v, e2)),
                }
            } else {
                Option::None
            }
        },
    }
}

proof fn lemma_word_end_shape(s: Seq<u8>, pos: int)
    requires
        0 <= pos <= s.len(),
    ensures
        pos <= word_end(s, pos) <= s.len(),
        forall|i: int| pos <= i < word_end(s, pos) ==> is_name_byte(#[trigger] s[i]),
        word_end(s, pos) < s.len() ==> !is_name_byte(s[word_end(s, pos)]),
    decreases s.len() - pos,
{
    if pos < s.len() && is_name_byte(s[pos]) {
        lemma_word_end_shape(s, pos + 1);
    }
}

/// The longest run of asset-name bytes starting at `pos`.
fn read_word(s: &[u8], pos: usize) -> (r: (Vec<u8>, usize))
    requires
        pos <= s@.len(),
    ensures
        r.1 as int == word_end(s@, pos as int),
        r.0@ == s@.subrange(pos as int, r.1 as int),
        pos <= r.1 <= s@.len(),
        forall|j: int| 0 <= j < r.0@.len() ==> is_name_byte(#[trigger] r.0@[j]),
{
    proof {
        lemma_word_end_shape(s@, pos as int);
    }
    let ghost we = word_end(s@, pos as int);
    let len = s.len();
    let mut i: usize = pos;
    let mut w: Vec<u8> = Vec::new();
    while i < len && 33 <= s[i] && s[i] <= 126
        invariant
            pos <= i <= we <= len == s@.len(),
            we == word_end(s@, pos as int),
            forall|j: int| pos <= j < we ==> is_name_byte(#[trigger] s@[j]),
            we < s@.len() ==> !is_name_byte(s@[we]),
            w@ == s@.subrange(pos as int, i as int),
        decreases len - i,
    {
        proof {
            assert(i < we) by {
                if i >= we {
                    assert(!is_name_byte(s@[i as int]));
                }
            }
        }
        w.push(s[i]);
        proof {
            assert(w@ =~= s@.subrange(pos as int, i as int + 1));
        }
        i = i + 1;
    }
    proof {
        assert(i == we) by {
            if i < we {
                assert(is_name_byte(s@[i as int]));
            }
        }
    }
    (w, i)
}

/// The value of an optional owned name.
pub open spec fn ob_view(t: Option<Vec<u8>>) -> Option<Seq<u8>> {
    match t {
        Option::None => Option::None,
        Option::Some(v) => Option::Some(v@),
    }
}

/// The texture token.
fn read_tex(s: &[u8], pos: usize) -> (r: Option<(Option<Vec<u8>>, usize)>)
    requires
        pos <= s@.len(),
    ensures
        match r {
            Option::Some((t, e)) => sp_tex(s@, pos as int) == Option::Some(
                (ob_view(t), e as int),
            ) && e <= s@.len() && (t is Some ==> wf_name(ob_view(t)->Some_0)),
            Option::None => sp_tex(s@, pos as int) is None,
        },
{
    if pos >= s.len() {
        return Option::None;
    }
    let b = s[pos];
    if b == TEX_NONE {
        Option::Some((Option::None, pos + 1))
    } else if b == TEX_SOME {
        let (w, e) = read_word(s, pos + 1);
        if w.len() >= 1 {
            Option::Some((Option::Some(w), e))
        } else {
            Option::None
        }
    } else {
        Option::None
    }
}

/// Three radiance channels, each followed by a blank.
fn read_rad(s: &[u8], pos: usize) -> (res: Option<(Radiance, usize)>)
    requires
        pos <= s@.len(),
    ensures
        match res {
            Option::Some((rad, e)) => sp_rad(s@, pos as int) == Option::Some((rad, e as int)) && e
                <= s@.len(),
            Option::None => sp_rad(s@, pos as int) is None,
        },
{
    match read_num(s, pos, BLANK, u32::MAX as u64) {
        Option::None => Option::None,
        Option::Some((r, p1)) => match read_num(s, p1, BLANK, u32::MAX as u64) {
            Option::None => Option::None,
            Option::Some((g, p2)) => match read_num(s, p2, BLANK, u32::MAX as u64) {
                Option::None => Option::None,
                Option::Some((b, p3)) => Option::Some(
                    (Radiance { r: r as u32, g: g as u32, b: b as u32 }, p3),
                ),
            },
        },
    }
}

/// One surface line.
fn parse_surface(s: &[u8], pos: usize) -> (r: Option<(Surface, usize)>)
    requires
        pos <= s@.len(),
    ensures
        match r {
            Option::Some((surf, e)) => sp_surface(s@, pos as int) == Option::Some(
                (surf@, e as int),
            ) && e <= s@.len() && wf_surface(surf@),
            Option::None => sp_surface(s@, pos as int) is None,
        },
{
    if pos >= s.len() {
        return Option::None;
    }
    let tag = s[pos];
    if tag == TAG_PLANE {
        match expect_byte(s, pos + 1, BLANK) {
            Option::None => Option::None,
            Option::Some(p1) => match read_rad(s, p1) {
                Option::None => Option::None,
                Option::Some((rad, p2)) => match read_tex(s, p2) {
                    Option::None => Option::None,
                    Option::Some((tex, p3)) => match expect_byte(s, p3, NEWLINE) {
                        Option::None => Option::None,
                        Option::Some(p4) => {
                            let surf = Surface {
                                shape: Shape::Plane,
                                radiance: rad,
                                texture: tex,
                            };
                            proof {
                                assert(surf@ =~~= sp_surface(s@, pos as int)->Some_0.0);
                            }
                            Option::Some((surf, p4))
                        },
                    },
                },
            },
        }
    } else if tag == TAG_RECT {
        match expect_byte(s, pos + 1, BLANK) {
            Option::None => Option::None,
            Option::Some(p1) => match read_num(s, p1, BLANK, u32::MAX as u64) {
                Option::None => Option::None,
                Option::Some((u0, p2)) => match read_num(s, p2, BLANK, u32::MAX as u64) {
                    Option::None => Option::None,
                    Option::Some((v0, p3)) => match read_num(s, p3, BLANK, u32::MAX as u64) {
                        Option::None => Option::None,
                        Option::Some((u1, p4)) => match read_num(s, p4, BLANK, u32::MAX as u64) {
                            Option::None => Option::None,
                            Option::Some((v1, p5)) => match read_rad(s, p5) {
                                Option::None => Option::None,
                                Option::Some((rad, p6)) => match read_tex(s, p6) {
                                    Option::None => Option::None,
                                    Option::Some((tex, p7)) => match expect_byte(s, p7, NEWLINE) {
                                        Option::None => Option::None,
                                        Option::Some(p8) => {
                                            let surf = Surface {
                                                shape: Shape::Rect {
                                                    u0: u0 as u32,
                                                    v0: v0 as u32,
                                                    u1: u1 as u32,
                                                    v1: v1 as u32,
                                                },
                                                radiance: rad,
                                                texture: tex,
                                            };
                                            proof {
                                                assert(surf@ =~~= sp_surface(
                                                    s@,
                                                    pos as int,
                                                )->Some_0.0);
                                            }
                                            Option::Some((surf, p8))
                                        },
                                    },
                                },
                            },
                        },
                    },
                },
            },
        }
    } else {
        Option::None
    }
}

/// Prepends already-read surfaces to a later read-back's outcome.
pub open spec fn sp_prepend(pre: Seq<SurfaceV>, r: Option<(Seq<SurfaceV>, int)>) -> Option<
    (Seq<SurfaceV>, int),
> {
    match r {
        Option::None => Option::None,
        Option::Some((rest, e)) => Option::Some((pre + rest, e)),
    }
}

/// Reads a whole scene document: the store's load operation, up to the file
/// read that its surroundings perform. Succeeds on exactly the documents that
/// `spec_parse` accepts, and returns exactly the scene it names.
pub fn parse_scene(s: &[u8]) -> (r: Result<PersistedScene, LoadError>)
    ensures
        match r {
            Result::Ok(sc) => spec_parse(s@) == Option::Some(sc@) && wf_scene(sc@),
            Result::Err(_) => spec_parse(s@) is None,
        },
{
    let c0 = match expect_byte(s, 0, TAG_CAMERA) {
        Option::None => {
            return Result::Err(LoadError {});
        },
        Option::Some(p) => p,
    };
    let c1 = match expect_byte(s, c0, BLANK) {
        Option::None => {
            return Result::Err(LoadError {});
        },
        Option::Some(p) => p,
    };
    let (aw, c2) = match read_num(s, c1, BLANK, u32::MAX as u64) {
        Option::None => {
            return Result::Err(LoadError {});
        },
        Option::Some(v) => v,
    };
    let (ah, c3) = match read_num(s, c2, NEWLINE, u32::MAX as u64) {
        Option::None => {
            return Result::Err(LoadError {});
        },
        Option::Some(v) => v,
    };
    let k0 = match expect_byte(s, c3, TAG_BACKGROUND) {
        Option::None => {
            return Result::Err(LoadError {});
        },
        Option::Some(p) => p,
    };
    let k1 = match expect_byte(s, k0, BLANK) {
        Option::None => {
            return Result::Err(LoadError {});
        },
        Option::Some(p) => p,
    };
    let (br, k2) = match read_num(s, k1, BLANK, 255) {
        Option::None => {
            return Result::Err(LoadError {});
        },
        Option::Some(v) => v,
    };
    let (bg, k3) = match read_num(s, k2, BLANK, 255) {
        Option::None => {
            return Result::Err(LoadError {});
        },
        Option::Some(v) => v,
    };
    let (bb, k4) = match read_num(s, k3, NEWLINE, 255) {
        Option::None => {
            return Result::Err(LoadError {});
        },
        Option::Some(v) => v,
    };
    let n0 = match expect_byte(s, k4, TAG_COUNT) {
        Option::None => {
            return Result::Err(LoadError {});
        },
        Option::Some(p) => p,
    };
    let n1 = match expect_byte(s, n0, BLANK) {
        Option::None => {
            return Result::Err(LoadError {});
        },
        Option::Some(p) => p,
    };
    let (cnt, p9) = match read_num(s, n1, NEWLINE, SURFACE_LIMIT) {
        Option::None => {
            return Result::Err(LoadError {});
        },
        Option::Some(v) => v,
    };
    proof {
        assert(sp_header(s@) == Option::Some(((aw, ah, br, bg, bb, cnt), p9 as int)));
    }
    if aw < 1 || ah < 1 {
        proof {
            assert(spec_parse(s@) is None);
        }
        return Result::Err(LoadError {});
    }
    let mut surfs: Vec<Surface> = Vec::new();
    let mut pos: usize = p9;
    let mut i: u64 = 0;
    while i < cnt
        invariant
            i <= cnt,
            cnt <= SURFACE_LIMIT,
            1 <= aw && 1 <= ah,
            pos <= s@.len(),
            surfs@.len() == i,
            sp_header(s@) == Option::Some(((aw, ah, br, bg, bb, cnt), p9 as int)),
            forall|j: int| 0 <= j < surfs@.len() ==> wf_surface((#[trigger] surfs@[j])@),
            sp_surfaces(s@, p9 as int, cnt as nat) == sp_prepend(
                surfs@.map_values(|x: Surface| x@),
                sp_surfaces(s@, pos as int, (cnt - i) as nat),
            ),
        decreases cnt - i,
    {
        let (surf, e) = match parse_surface(s, pos) {
            Option::None => {
                proof {
                    assert(sp_surfaces(s@, pos as int, (cnt - i) as nat) is None);
                    assert(sp_surfaces(s@, p9 as int, cnt as nat) is None);
                    assert(spec_parse(s@) is None);
                }
                return Result::Err(LoadError {});
            },
            Option::Some(v) => v,
        };
        proof {
            let pre = surfs@.map_values(|x: Surface| x@);
            let rest = sp_surfaces(s@, e as int, (cnt - i - 1) as nat);
            assert(sp_surfaces(s@, pos as int, (cnt - i) as nat) == sp_prepend(
                seq![surf@],
                rest,
            ));
            assert(surfs@.push(surf).map_values(|x: Surface| x@) =~= pre.push(surf@));
            if rest is Some {
                assert(pre + (seq![surf@] + rest->Some_0.0) =~= pre.push(surf@)
                    + rest->Some_0.0);
            }
            assert(sp_prepend(pre, sp_prepend(seq![surf@], rest)) == sp_prepend(
                pre.push(surf@),
                rest,
            ));
        }
        surfs.push(surf);
        pos = e;
        i = i + 1;
    }
    proof {
        let pv = surfs@.map_values(|x: Surface| x@);
        assert(sp_surfaces(s@, pos as int, 0) == Option::Some(
            (Seq::<SurfaceV>::empty(), pos as int),
        ));
        assert(pv + Seq::<SurfaceV>::empty() =~= pv);
        assert(sp_surfaces(s@, p9 as int, cnt as nat) == Option::Some((pv, pos as int)));
    }
    if pos != s.len() {
        proof {
            assert(spec_parse(s@) is None);
        }
        return Result::Err(LoadError {});
    }
    let sc = PersistedScene {
        camera: Camera { aspect_w: aw as u32, aspect_h: ah as u32 },
        background: Color { r: br as u8, g: bg as u8, b: bb as u8 },
        surfaces: surfs,
    };
    proof {
        assert(sc@ =~~= spec_parse(s@)->Some_0);
    }
    Result::Ok(sc)
}

} // verus!
