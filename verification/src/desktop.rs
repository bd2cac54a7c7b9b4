//! Pieces of the tray icon and the program shell that are pure computation:
//! the version shown, copying text into fixed UTF-16 fields, and the
//! placement and alpha of the drawn tray glyph.
use vstd::prelude::*;
use crate::text::to_chars;

verus! {

/// How serious an alert is.
#[derive(Debug, Clone, Copy, PartialEq, Eq, Structural)]
pub enum Severity {
    Warning,
    Error,
}

/// The version a build reports: the release tag CI stamped into it, or the
/// git hash on dev builds (no tag).
pub fn version<'a>(release_tag: &'a str, git_hash: &'a str) -> (r: &'a str)
    ensures
        r@ == if release_tag@.len() == 0 {
            git_hash@
        } else {
            release_tag@
        },
{
    if release_tag.is_empty() {
        git_hash
    } else {
        release_tag
    }
}

/// Whether the update check runs: only on release builds (a non-empty
/// release tag) and only when the config enables it.
pub fn update_check_due(release_tag: &str, check_updates: bool) -> (r: bool)
    ensures
        r == (release_tag@.len() > 0 && check_updates),
{
    !release_tag.is_empty() && check_updates
}

/// The UTF-16 code units of one character.
pub open spec fn utf16_units(c: char) -> Seq<u16> {
    let u = c as u32;
    if u < 0x10000 {
        seq![u as u16]
    } else {
        let v = u - 0x10000;
        seq![(0xD800 + v / 0x400) as u16, (0xDC00 + v % 0x400) as u16]
    }
}

/// The UTF-16 encoding of a character sequence.
pub open spec fn encode_utf16(s: Seq<char>) -> Seq<u16>
    decreases s.len(),
{
    if s.len() == 0 {
        seq![]
    } else {
        encode_utf16(s.drop_last()) + utf16_units(s.last())
    }
}

/// The UTF-16 encoding of `s`.
fn utf16(s: &str) -> (r: Vec<u16>)
    ensures
        r@ == encode_utf16(s@),
{
    let chars = to_chars(s);
    let mut out: Vec<u16> = Vec::new();
    let mut i: usize = 0;
    while i < chars.len()
        invariant
            i <= chars@.len(),
            out@ == encode_utf16(chars@.take(i as int)),
        decreases chars.len() - i,
    {
        let c = chars[i];
        let u = c as u32;
        assert(chars@.take(i + 1).drop_last() =~= chars@.take(i as int));
        if u < 0x10000 {
            out.push(u as u16);
        } else {
            let v = u - 0x10000;
            out.push((0xD800 + v / 0x400) as u16);
            out.push((0xDC00 + v % 0x400) as u16);
        }
        assert(out@ =~= encode_utf16(chars@.take(i + 1)));
        i += 1;
    }
    assert(chars@.take(chars@.len() as int) =~= s@);
    out
}

/// Copy into a fixed-size UTF-16 field, truncating, keeping a final NUL:
/// the first `len - 1` units of `src`'s encoding are written, the rest of the
/// field is left as it was.
pub fn copy_wstr(dst: &mut [u16], src: &str)
    requires
        old(dst)@.len() >= 1,
    ensures
        final(dst)@.len() == old(dst)@.len(),
        forall|i: int|
            0 <= i < old(dst)@.len() ==> #[trigger] final(dst)@[i] == if i < old(dst)@.len() - 1 && i
                < encode_utf16(src@).len() {
                encode_utf16(src@)[i]
            } else {
                old(dst)@[i]
            },
{
    let units = utf16(src);
    let n = dst.len() - 1;
    let ghost orig = dst@;
    let mut k: usize = 0;
    while k < n && k < units.len()
        invariant
            n == orig.len() - 1,
            dst@.len() == orig.len(),
            k <= n,
            k <= units@.len(),
            units@ == encode_utf16(src@),
            forall|i: int|
                0 <= i < orig.len() ==> #[trigger] dst@[i] == if i < k {
                    units@[i]
                } else {
                    orig[i]
                },
        decreases n - k,
    {
        dst[k] = units[k];
        k += 1;
    }
}

/// Whether a pixel of the white drawing canvas carries glyph ink: its low
/// (blue) byte is not fully white.
pub open spec fn is_ink(p: u32) -> bool {
    p % 256 != 255
}

/// Column of pixel `i` on a canvas `width` pixels wide (`i32` remainder).
pub open spec fn px_x(i: int, width: i32) -> i32 {
    (i as i32) % width
}

/// Row of pixel `i` on a canvas `width` pixels wide: the quotient rounded
/// toward zero, as `i32` division gives it.
pub open spec fn px_y(i: int, width: i32) -> int {
    if width > 0 {
        i / (width as int)
    } else {
        -(i / (-width as int))
    }
}

/// The ink bounding box: the least and greatest column and row over ink
/// pixels (the bottom row never below -1, the value it starts from).
pub open spec fn ink_bbox_spec(px: Seq<u32>, width: i32, bbox: (i32, i32, i32, i32)) -> bool {
    let (l, t, r, b) = bbox;
    &&& forall|i: int| 0 <= i < px.len() && is_ink(#[trigger] px[i]) ==> l <= px_x(i, width) <= r && t
        <= px_y(i, width) <= b
    &&& exists|i: int| 0 <= i < px.len() && is_ink(#[trigger] px[i]) && px_x(i, width) == l
    &&& exists|i: int| 0 <= i < px.len() && is_ink(#[trigger] px[i]) && px_y(i, width) == t
    &&& exists|i: int| 0 <= i < px.len() && is_ink(#[trigger] px[i]) && px_x(i, width) == r
    &&& b >= -1
    &&& (b == -1 || exists|i: int| 0 <= i < px.len() && is_ink(#[trigger] px[i]) && px_y(i, width) == b)
}

/// Ink bounding box (left, top, right, bottom; inclusive) of black coverage
/// on a white canvas `width` pixels wide. None if nothing was drawn.
pub fn ink_bbox(px: &[u32], width: i32) -> (r: Option<(i32, i32, i32, i32)>)
    requires
        px@.len() <= 0x8000_0000,
        width != 0 || forall|i: int| 0 <= i < px@.len() ==> !is_ink(#[trigger] px@[i]),
    ensures
        r is None <==> forall|i: int| 0 <= i < px@.len() ==> !is_ink(#[trigger] px@[i]),
        r matches Some(bbox) ==> ink_bbox_spec(px@, width, bbox),
{
    let (mut l, mut t, mut r, mut b) = (i32::MAX, i32::MAX, -1i32, -1i32);
    let mut found = false;
    let ghost w = width;
    let ghost (mut li, mut ti, mut ri, mut bi) = (0int, 0int, 0int, 0int);
    let mut k: usize = 0;
    while k < px.len()
        invariant
            k <= px@.len() <= 0x8000_0000,
            w == width,
            width != 0 || forall|i: int| 0 <= i < px@.len() ==> !is_ink(#[trigger] px@[i]),
            found <==> exists|i: int| 0 <= i < k && is_ink(#[trigger] px@[i]),
            !found ==> l == i32::MAX && t == i32::MAX && r == -1 && b == -1,
            forall|i: int|
                0 <= i < k && is_ink(#[trigger] px@[i]) ==> l <= px_x(i, w) <= r && t <= px_y(i, w) <= b,
            b >= -1,
            found ==> 0 <= li < k && is_ink(px@[li]) && px_x(li, w) == l,
            found ==> 0 <= ti < k && is_ink(px@[ti]) && px_y(ti, w) == t,
            found ==> 0 <= ri < k && is_ink(px@[ri]) && px_x(ri, w) == r,
            found ==> (b == -1 || (0 <= bi < k && is_ink(px@[bi]) && px_y(bi, w) == b)),
        decreases px.len() - k,
    {
        let p = px[k];
        if p % 256 != 255 {
            let i = k as i32;
            let x = i % width;
            // Truncating division of a non-negative index.
            let y = if width > 0 {
                i / width
            } else if width == i32::MIN {
                0
            } else {
                -(i / -width)
            };
            assert(x == px_x(k as int, w) && y == px_y(k as int, w));
            if !found {
                l = x;
                t = y;
                r = x;
                b = if y > -1 { y } else { -1 };
                proof {
                    li = k as int;
                    ti = k as int;
                    ri = k as int;
                    bi = k as int;
                }
                found = true;
            } else {
                if x < l {
                    l = x;
                    proof { li = k as int; }
                }
                if y < t {
                    t = y;
                    proof { ti = k as int; }
                }
                if x > r {
                    r = x;
                    proof { ri = k as int; }
                }
                if y > b {
                    b = y;
                    proof { bi = k as int; }
                }
            }
        }
        k += 1;
    }
    if found {
        Some((l, t, r, b))
    } else {
        None
    }
}

/// The em size at which the glyph's ink fills the icon box less a 1 px
/// margin per side, from its ink box measured at em = `size`.
pub open spec fn glyph_em(size: int, l: int, t: int, r: int, b: int) -> int {
    let ink = if r - l + 1 >= b - t + 1 {
        r - l + 1
    } else {
        b - t + 1
    };
    size * (size - 2) / ink
}

/// Where to draw the glyph so its predicted ink box is centered: the em
/// size and the origin offsets (dx, dy), from the ink box (l, t, r, b)
/// measured at em = `size` on a 2×2-em scratch canvas.
pub fn glyph_layout(size: i32, bbox: (i32, i32, i32, i32)) -> (res: (i32, i32, i32))
    requires
        16 <= size,
        (2 * size) * (2 * size) <= i32::MAX,
        0 <= bbox.0 <= bbox.2 < 2 * size,
        0 <= bbox.1 <= bbox.3 < 2 * size,
        bbox.0 * glyph_em(size as int, bbox.0 as int, bbox.1 as int, bbox.2 as int, bbox.3 as int)
            <= i32::MAX,
        bbox.1 * glyph_em(size as int, bbox.0 as int, bbox.1 as int, bbox.2 as int, bbox.3 as int)
            <= i32::MAX,
    ensures
        ({
            let (l, t, r, b) = (bbox.0 as int, bbox.1 as int, bbox.2 as int, bbox.3 as int);
            let size = size as int;
            let em = glyph_em(size, l, t, r, b);
            res == (
                em as i32,
                ((size - (r - l + 1) * em / size) / 2 - l * em / size) as i32,
                ((size - (b - t + 1) * em / size) / 2 - t * em / size) as i32,
            )
        }),
{
    let (l, t, r, b) = bbox;
    assert(2 * size <= i32::MAX) by (nonlinear_arith)
        requires
            (2 * size) * (2 * size) <= i32::MAX,
            16 <= size,
    ;
    let w = r - l + 1;
    let h = b - t + 1;
    let ink = if w >= h { w } else { h };
    assert(size * (size - 2) <= i32::MAX) by (nonlinear_arith)
        requires
            (2 * size) * (2 * size) <= i32::MAX,
            16 <= size,
    ;
    let em = size * (size - 2) / ink;
    assert(em * ink <= size * (size - 2)) by (nonlinear_arith)
        requires
            ink >= 1,
            em == (size * (size - 2)) as int / (ink as int),
            size >= 16,
    ;
    assert(w * em <= size * (size - 2) && h * em <= size * (size - 2) && 0 <= w * em && 0 <= h * em)
        by (nonlinear_arith)
        requires
            1 <= w <= ink,
            1 <= h <= ink,
            em >= 0,
            em * ink <= size * (size - 2),
    ;
    assert((w * em) as int / (size as int) <= size - 2 && (h * em) as int / (size as int) <= size - 2)
        by (nonlinear_arith)
        requires
            w * em <= size * (size - 2),
            h * em <= size * (size - 2),
            w * em >= 0,
            h * em >= 0,
            size >= 16,
    ;
    assert(0 <= l * em && 0 <= t * em) by (nonlinear_arith)
        requires
            l >= 0,
            t >= 0,
            em >= 0,
    ;
    let dx = (size - w * em / size) / 2 - l * em / size;
    let dy = (size - h * em / size) / 2 - t * em / size;
    (em, dx, dy)
}

/// Turn glyph coverage drawn black on white into premultiplied alpha: each
/// pixel becomes black with alpha 255 minus its low (blue) byte.
pub fn coverage_to_alpha(px: &mut [u32])
    ensures
        final(px)@.len() == old(px)@.len(),
        forall|i: int|
            0 <= i < old(px)@.len() ==> #[trigger] final(px)@[i] == (255 - old(px)@[i] % 256) * 0x100_0000,
{
    let ghost orig = px@;
    let mut k: usize = 0;
    while k < px.len()
        invariant
            k <= px@.len(),
            px@.len() == orig.len(),
            forall|i: int|
                0 <= i < orig.len() ==> #[trigger] px@[i] == if i < k {
                    ((255 - orig[i] % 256) * 0x100_0000) as u32
                } else {
                    orig[i]
                },
        decreases px.len() - k,
    {
        let a = 0xFF - px[k] % 256;
        px[k] = a * 0x100_0000;
        k += 1;
    }
}

} // verus!
