//! Pixel fixes applied to application icons, on premultiplied BGRA images
//! stored row by row, four bytes per pixel (blue, green, red, alpha).
use vstd::prelude::*;

verus! {

/// Whether pixel `p` has a color channel brighter than its alpha, which no
/// premultiplied pixel can have.
pub open spec fn channel_exceeds_alpha(b: Seq<u8>, p: int) -> bool {
    b[4 * p] > b[4 * p + 3] || b[4 * p + 1] > b[4 * p + 3] || b[4 * p + 2] > b[4 * p + 3]
}

/// Some whole pixel proves the image is in straight alpha.
pub open spec fn is_straight(b: Seq<u8>) -> bool {
    exists|p: int| 0 <= p < b.len() / 4 && #[trigger] channel_exceeds_alpha(b, p)
}

/// Round-to-nearest premultiply of one channel: (channel * alpha) / 255.
pub open spec fn premul_channel(c: u8, a: u8) -> u8 {
    ((c * a + 127) / 255) as u8
}

/// Every color channel of every whole pixel premultiplied by its alpha;
/// alpha and a trailing partial pixel are kept.
pub open spec fn premultiplied(b: Seq<u8>) -> Seq<u8> {
    Seq::new(
        b.len(),
        |i: int|
            if i < (b.len() / 4) * 4 && i % 4 != 3 {
                premul_channel(b[i], b[i - i % 4 + 3])
            } else {
                b[i]
            },
    )
}

/// The image forced into premultiplied alpha: straight images are
/// premultiplied, images already premultiplied are left untouched.
pub open spec fn premultiply_spec(b: Seq<u8>) -> Seq<u8> {
    if is_straight(b) {
        premultiplied(b)
    } else {
        b
    }
}

proof fn lemma_premul_channel_bounded(c: u8, a: u8)
    ensures
        premul_channel(c, a) <= a,
{
    assert(c * a <= 255 * a) by (nonlinear_arith)
        requires
            c <= 255,
    ;
    assert((c * a + 127) / 255 <= a) by (nonlinear_arith)
        requires
            c * a <= 255 * a,
            a <= 255,
    ;
}

proof fn lemma_premultiplied_channel_le_alpha(b: Seq<u8>, p: int, c: int)
    requires
        0 <= p < b.len() / 4,
        0 <= c < 3,
    ensures
        premultiplied(b)[4 * p + c] <= b[4 * p + 3],
{
    let i = 4 * p + c;
    assert(i % 4 == c);
    assert(i - i % 4 + 3 == 4 * p + 3);
    lemma_premul_channel_bounded(b[i], b[4 * p + 3]);
}

/// The result is always valid premultiplied data: no color channel exceeds
/// its alpha. So forcing an image into premultiplied alpha twice changes
/// nothing the second time.
pub proof fn lemma_premultiply_result_is_premultiplied(b: Seq<u8>)
    ensures
        !is_straight(premultiply_spec(b)),
        premultiply_spec(premultiply_spec(b)) == premultiply_spec(b),
{
    if is_straight(b) {
        let r = premultiplied(b);
        assert forall|p: int| 0 <= p < r.len() / 4 implies !#[trigger] channel_exceeds_alpha(r, p) by {
            let a = b[4 * p + 3];
            assert((4 * p + 3) % 4 == 3);
            assert(r[4 * p + 3] == a);
            lemma_premultiplied_channel_le_alpha(b, p, 0);
            lemma_premultiplied_channel_le_alpha(b, p, 1);
            lemma_premultiplied_channel_le_alpha(b, p, 2);
        }
    }
}

/// Byte `k` (0 blue, 1 green, 2 red, 3 alpha) of pixel `p`.
pub open spec fn pixel_byte(b: Seq<u8>, p: int, k: int) -> u8 {
    b[4 * p + k]
}

/// What forcing an image into premultiplied alpha does, pixel by pixel: if
/// any whole pixel anywhere has a color channel brighter than its alpha,
/// every color channel of every whole pixel becomes (c · a + 127) / 255 of
/// its own alpha a, alpha and a trailing partial pixel staying as they
/// were; if no pixel does, nothing changes.
pub proof fn lemma_premultiply_pixels(b: Seq<u8>)
    ensures
        premultiply_spec(b).len() == b.len(),
        (exists|p: int, k: int|
            0 <= p < b.len() / 4 && 0 <= k < 3 && #[trigger] pixel_byte(b, p, k) > pixel_byte(b, p, 3))
            ==> {
            &&& forall|p: int, k: int|
                0 <= p < b.len() / 4 && 0 <= k < 3 ==> #[trigger] pixel_byte(premultiply_spec(b), p, k)
                    == ((pixel_byte(b, p, k) * pixel_byte(b, p, 3) + 127) / 255) as u8
            &&& forall|p: int| 0 <= p < b.len() / 4 ==> #[trigger] pixel_byte(premultiply_spec(b), p, 3)
                == pixel_byte(b, p, 3)
            &&& forall|i: int| (b.len() / 4) * 4 <= i < b.len() ==> #[trigger] premultiply_spec(b)[i] == b[i]
        },
        !(exists|p: int, k: int|
            0 <= p < b.len() / 4 && 0 <= k < 3 && #[trigger] pixel_byte(b, p, k) > pixel_byte(b, p, 3))
            ==> premultiply_spec(b) == b,
{
    let r = premultiply_spec(b);
    if exists|p: int, k: int|
        0 <= p < b.len() / 4 && 0 <= k < 3 && #[trigger] pixel_byte(b, p, k) > pixel_byte(b, p, 3) {
        let (p, k) = choose|p: int, k: int|
            0 <= p < b.len() / 4 && 0 <= k < 3 && #[trigger] pixel_byte(b, p, k) > pixel_byte(b, p, 3);
        assert(channel_exceeds_alpha(b, p));
        assert(is_straight(b));
        assert forall|p: int, k: int| 0 <= p < b.len() / 4 && 0 <= k < 3 implies #[trigger] pixel_byte(r, p, k)
            == ((pixel_byte(b, p, k) * pixel_byte(b, p, 3) + 127) / 255) as u8 by {
            let i = 4 * p + k;
            assert(i % 4 == k);
            assert(i - i % 4 + 3 == 4 * p + 3);
            assert(i < (b.len() / 4) * 4);
        }
        assert forall|p: int| 0 <= p < b.len() / 4 implies #[trigger] pixel_byte(r, p, 3) == pixel_byte(b, p, 3) by {
            assert((4 * p + 3) % 4 == 3);
        }
    } else {
        if is_straight(b) {
            let p = choose|p: int| 0 <= p < b.len() / 4 && #[trigger] channel_exceeds_alpha(b, p);
            if b[4 * p] > b[4 * p + 3] {
                assert(pixel_byte(b, p, 0) > pixel_byte(b, p, 3));
            } else if b[4 * p + 1] > b[4 * p + 3] {
                assert(pixel_byte(b, p, 1) > pixel_byte(b, p, 3));
            } else {
                assert(pixel_byte(b, p, 2) > pixel_byte(b, p, 3));
            }
        }
    }
}

/// Force BGRA pixels into premultiplied alpha when the source is straight
/// (unassociated) alpha. Valid premultiplied data can never have a color
/// channel exceed its alpha, so a single pixel that does proves the whole
/// image is straight and must be premultiplied; images already premultiplied
/// are left untouched.
pub fn premultiply_bgra(bits: &mut [u8])
    ensures
        final(bits)@ == premultiply_spec(old(bits)@),
{
    let pixels = bits.len() / 4;
    let mut straight = false;
    let mut p: usize = 0;
    while p < pixels
        invariant
            pixels == bits@.len() / 4,
            p <= pixels,
            straight <==> exists|q: int| 0 <= q < p && #[trigger] channel_exceeds_alpha(bits@, q),
        decreases pixels - p,
    {
        let i = 4 * p;
        if bits[i] > bits[i + 3] || bits[i + 1] > bits[i + 3] || bits[i + 2] > bits[i + 3] {
            assert(channel_exceeds_alpha(bits@, p as int));
            straight = true;
        }
        p += 1;
    }
    if !straight {
        return;
    }
    let ghost orig = bits@;
    let len = bits.len();
    let mut p: usize = 0;
    while p < pixels
        invariant
            pixels == orig.len() / 4,
            len == orig.len(),
            bits@.len() == orig.len(),
            p <= pixels,
            forall|i: int|
                0 <= i < bits@.len() ==> #[trigger] bits@[i] == if i < 4 * p {
                    premultiplied(orig)[i]
                } else {
                    orig[i]
                },
        decreases pixels - p,
    {
        let i = 4 * p;
        let a = bits[i + 3] as u32;
        let mut c: usize = 0;
        while c < 3
            invariant
                i == 4 * p,
                p < pixels,
                pixels == orig.len() / 4,
                bits@.len() == orig.len(),
                c <= 3,
                a == orig[i + 3],
                forall|k: int|
                    0 <= k < bits@.len() ==> #[trigger] bits@[k] == if k < i || (i <= k < i + c) {
                        premultiplied(orig)[k]
                    } else {
                        orig[k]
                    },
            decreases 3 - c,
        {
            let v = bits[i + c] as u32;
            assert(v * a <= 255 * 255) by (nonlinear_arith)
                requires
                    v <= 255,
                    a <= 255,
            ;
            // Round-to-nearest premultiply: (channel * alpha) / 255.
            bits[i + c] = ((v * a + 127) / 255) as u8;
            proof {
                let k = i + c;
                assert(k % 4 == c as int);
                assert(k - k % 4 + 3 == i + 3);
            }
            c += 1;
        }
        proof {
            assert forall|k: int| 0 <= k < bits@.len() implies #[trigger] bits@[k] == if k < 4 * (p + 1) {
                premultiplied(orig)[k]
            } else {
                orig[k]
            } by {
                if k == i + 3 {
                    assert(k % 4 == 3);
                }
            }
        }
        p += 1;
    }
    assert(bits@ =~= premultiplied(orig));
}


/// Alpha of pixel (x, y) in an n × n image.
pub open spec fn alpha_at(b: Seq<u8>, n: int, x: int, y: int) -> u8 {
    b[(y * n + x) * 4 + 3]
}

/// Pixel (x, y) lies on the border ring of an n × n image.
pub open spec fn on_ring(n: int, x: int, y: int) -> bool {
    x == 0 || y == 0 || x == n - 1 || y == n - 1
}

/// A full-bleed square: a non-empty n × n image whose whole border ring is
/// opaque (alpha at least 240), with no transparent margin anywhere along it.
pub open spec fn full_bleed_spec(b: Seq<u8>, n: int) -> bool {
    &&& n > 0
    &&& b.len() >= n * n * 4
    &&& forall|x: int, y: int|
        0 <= x < n && 0 <= y < n && on_ring(n, x, y) ==> #[trigger] alpha_at(b, n, x, y) >= 240
}

proof fn lemma_pixel_index(n: int, x: int, y: int, c: int)
    requires
        0 <= x < n,
        0 <= y < n,
        0 <= c < 4,
    ensures
        0 <= (y * n + x) * 4 + c < n * n * 4,
{
    assert(0 <= y * n) by (nonlinear_arith)
        requires
            0 <= y,
            0 <= n,
    ;
    assert(y * n + x < n * n) by (nonlinear_arith)
        requires
            0 <= x < n,
            0 <= y < n,
    ;
}

/// Whether an image is a full-bleed square: its whole border ring is opaque,
/// with no transparent margin anywhere along it. Such an icon reads as a hard
/// rectangle next to every other icon's rounded artwork.
pub fn is_full_bleed(bits: &[u8], px: u32) -> (r: bool)
    requires
        px * px * 4 <= usize::MAX,
    ensures
        r == full_bleed_spec(bits@, px as int),
{
    let n = px as usize;
    if n == 0 || bits.len() < n * n * 4 {
        return false;
    }
    let ghost b = bits@;
    let ghost ni = n as int;
    let mut i: usize = 0;
    while i < n
        invariant
            n == px,
            n > 0,
            bits@ == b,
            b.len() >= ni * ni * 4,
            ni == n as int,
            ni * ni * 4 <= usize::MAX,
            i <= n,
            forall|k: int|
                0 <= k < i ==> #[trigger] alpha_at(b, ni, k, 0) >= 240 && alpha_at(b, ni, k, ni - 1)
                    >= 240 && alpha_at(b, ni, 0, k) >= 240 && alpha_at(b, ni, ni - 1, k) >= 240,
        decreases n - i,
    {
        proof {
            lemma_pixel_index(ni, i as int, 0, 3);
            lemma_pixel_index(ni, i as int, ni - 1, 3);
            lemma_pixel_index(ni, 0, i as int, 3);
            lemma_pixel_index(ni, ni - 1, i as int, 3);
        }
        let top = (0 * n + i) * 4 + 3;
        let bottom = ((n - 1) * n + i) * 4 + 3;
        let left = (i * n + 0) * 4 + 3;
        let right = (i * n + (n - 1)) * 4 + 3;
        if bits[top] < 240 || bits[bottom] < 240 || bits[left] < 240 || bits[right] < 240 {
            proof {
                if b[top as int] < 240 {
                    assert(alpha_at(b, ni, i as int, 0) < 240);
                } else if b[bottom as int] < 240 {
                    assert(alpha_at(b, ni, i as int, ni - 1) < 240);
                } else if b[left as int] < 240 {
                    assert(alpha_at(b, ni, 0, i as int) < 240);
                } else {
                    assert(alpha_at(b, ni, ni - 1, i as int) < 240);
                }
            }
            return false;
        }
        i += 1;
    }
    proof {
        assert forall|x: int, y: int|
            0 <= x < ni && 0 <= y < ni && on_ring(ni, x, y) implies #[trigger] alpha_at(b, ni, x, y)
            >= 240 by {
            if y == 0 {
                assert(alpha_at(b, ni, x, 0) >= 240);
            } else if y == ni - 1 {
                assert(alpha_at(b, ni, x, ni - 1) >= 240);
            } else if x == 0 {
                assert(alpha_at(b, ni, y, 0) >= 240);
                assert(alpha_at(b, ni, 0, y) >= 240);
            } else {
                assert(alpha_at(b, ni, y, 0) >= 240);
                assert(alpha_at(b, ni, ni - 1, y) >= 240);
            }
        }
    }
    true
}


/// Distance of column (or row) `x` from the nearer edge of an n-wide image.
pub open spec fn edge_distance(n: int, x: int) -> int {
    if x <= n - 1 - x {
        x
    } else {
        n - 1 - x
    }
}

/// Whether cell (x, y) of an r × r corner square lies outside the quarter
/// circle of radius r centred on the square's inner corner: its centre
/// (x + ½, y + ½) is farther than r from (r, r). Doubled to stay in integers.
pub open spec fn outside_corner_circle(x: int, y: int, r: int) -> bool {
    (2 * r - 2 * x - 1) * (2 * r - 2 * x - 1) + (2 * r - 2 * y - 1) * (2 * r - 2 * y - 1) > 4 * r * r
}

/// The corner radius actually used: at most half the side.
pub open spec fn clamped_radius(px: u32, radius: u32) -> int {
    if radius <= px / 2 {
        radius as int
    } else {
        (px / 2) as int
    }
}

/// Pixel (x, y) of an n × n image falls in a rounded-away corner: within r of
/// two edges and outside the corner circle.
pub open spec fn in_cut_corner(n: int, r: int, x: int, y: int) -> bool {
    let dx = edge_distance(n, x);
    let dy = edge_distance(n, y);
    dx < r && dy < r && outside_corner_circle(dx, dy, r)
}

/// Column of the pixel that byte `i` belongs to.
pub open spec fn byte_x(n: int, i: int) -> int {
    (i / 4) % n
}

/// Row of the pixel that byte `i` belongs to.
pub open spec fn byte_y(n: int, i: int) -> int {
    (i / 4) / n
}

/// The image with its rounded-away corners cleared to transparent black.
pub open spec fn rounded_corners(b: Seq<u8>, n: int, r: int) -> Seq<u8> {
    Seq::new(
        b.len(),
        |i: int|
            if in_cut_corner(n, r, byte_x(n, i), byte_y(n, i)) {
                0u8
            } else {
                b[i]
            },
    )
}

/// Byte `i` lies in the four bytes of pixel (x, y) exactly when it decodes
/// to that pixel.
proof fn lemma_byte_in_pixel(n: int, i: int, x: int, y: int)
    requires
        0 <= x < n,
        0 <= y < n,
        0 <= i < n * n * 4,
    ensures
        ((y * n + x) * 4 <= i < (y * n + x) * 4 + 4) <==> (byte_x(n, i) == x && byte_y(n, i) == y),
        0 <= byte_x(n, i) < n,
        0 <= byte_y(n, i) < n,
{
    lemma_pixel_index(n, x, y, 0);
    let q = y * n + x;
    let p = i / 4;
    vstd::arithmetic::div_mod::lemma_fundamental_div_mod(i, 4);
    vstd::arithmetic::div_mod::lemma_fundamental_div_mod(p, n);
    vstd::arithmetic::div_mod::lemma_mod_pos_bound(p, n);
    assert(0 <= p < n * n) by {
        vstd::arithmetic::div_mod::lemma_div_pos_is_pos(i, 4);
        vstd::arithmetic::div_mod::lemma_div_is_ordered(i, n * n * 4 - 1, 4);
        assert((n * n * 4 - 1) / 4 == n * n - 1) by {
            vstd::arithmetic::div_mod::lemma_fundamental_div_mod_converse(n * n * 4 - 1, 4, n * n - 1, 3);
        }
    }
    assert(0 <= p / n < n) by {
        vstd::arithmetic::div_mod::lemma_div_pos_is_pos(p, n);
        vstd::arithmetic::div_mod::lemma_div_is_ordered(p, n * n - 1, n);
        assert((n * n - 1) / n == n - 1) by {
            assert(n * n - 1 == (n - 1) * n + (n - 1)) by (nonlinear_arith);
            vstd::arithmetic::div_mod::lemma_fundamental_div_mod_converse(n * n - 1, n, n - 1, n - 1);
        }
    }
    if q * 4 <= i < q * 4 + 4 {
        vstd::arithmetic::div_mod::lemma_fundamental_div_mod_converse(i, 4, q, i - q * 4);
        vstd::arithmetic::div_mod::lemma_fundamental_div_mod_converse(q, n, y, x);
    }
    if byte_x(n, i) == x && byte_y(n, i) == y {
        assert(p == n * y + x);
        assert(p == q) by (nonlinear_arith)
            requires
                p == n * y + x,
                q == y * n + x,
        ;
    }
}

/// Clear the four bytes of one pixel.
fn clear_pixel(bits: &mut [u8], at: usize)
    requires
        at + 4 <= old(bits)@.len(),
    ensures
        final(bits)@.len() == old(bits)@.len(),
        forall|i: int|
            0 <= i < old(bits)@.len() ==> #[trigger] final(bits)@[i] == if at <= i < at + 4 {
                0u8
            } else {
                old(bits)@[i]
            },
{
    bits[at] = 0;
    bits[at + 1] = 0;
    bits[at + 2] = 0;
    bits[at + 3] = 0;
}

/// Whether corner cell (dx, dy) comes before cell (x, y) in row-major order.
pub open spec fn cell_before(dx: int, dy: int, x: int, y: int) -> bool {
    dy < y || (dy == y && dx < x)
}

/// The loop state: bytes of corner pixels whose cell was already visited are
/// cleared, everything else is untouched.
pub open spec fn corners_cleared_before(
    bits: Seq<u8>,
    orig: Seq<u8>,
    n: int,
    r: int,
    x: int,
    y: int,
) -> bool {
    &&& bits.len() == orig.len()
    &&& forall|i: int|
        0 <= i < bits.len() ==> #[trigger] bits[i] == if in_cut_corner(n, r, byte_x(n, i), byte_y(n, i))
            && cell_before(edge_distance(n, byte_x(n, i)), edge_distance(n, byte_y(n, i)), x, y) {
            0u8
        } else {
            orig[i]
        }
}

/// Clearing the four mirror images of corner cell (x, y) advances the loop
/// state past that cell.
proof fn lemma_clear_cell(
    before: Seq<u8>,
    after: Seq<u8>,
    orig: Seq<u8>,
    n: int,
    r: int,
    x: int,
    y: int,
)
    requires
        0 <= x < r,
        0 <= y < r,
        2 * r <= n,
        orig.len() == n * n * 4,
        corners_cleared_before(before, orig, n, r, x, y),
        after.len() == before.len(),
        outside_corner_circle(x, y, r),
        forall|i: int|
            0 <= i < before.len() ==> #[trigger] after[i] == if (y * n + x) * 4 <= i < (y * n + x) * 4 + 4
                || (y * n + (n - 1 - x)) * 4 <= i < (y * n + (n - 1 - x)) * 4 + 4 || ((n - 1 - y) * n
                + x) * 4 <= i < ((n - 1 - y) * n + x) * 4 + 4 || ((n - 1 - y) * n + (n - 1 - x)) * 4 <= i
                < ((n - 1 - y) * n + (n - 1 - x)) * 4 + 4 {
                0u8
            } else {
                before[i]
            },
    ensures
        corners_cleared_before(after, orig, n, r, x + 1, y),
{
    assert forall|i: int| 0 <= i < after.len() implies #[trigger] after[i] == if in_cut_corner(
        n,
        r,
        byte_x(n, i),
        byte_y(n, i),
    ) && cell_before(edge_distance(n, byte_x(n, i)), edge_distance(n, byte_y(n, i)), x + 1, y) {
        0u8
    } else {
        orig[i]
    } by {
        lemma_byte_in_pixel(n, i, x, y);
        lemma_byte_in_pixel(n, i, n - 1 - x, y);
        lemma_byte_in_pixel(n, i, x, n - 1 - y);
        lemma_byte_in_pixel(n, i, n - 1 - x, n - 1 - y);
        assert(before[i] == if in_cut_corner(n, r, byte_x(n, i), byte_y(n, i)) && cell_before(
            edge_distance(n, byte_x(n, i)),
            edge_distance(n, byte_y(n, i)),
            x,
            y,
        ) {
            0u8
        } else {
            orig[i]
        });
    }
}

/// Clear the corners of a full-bleed square to a rounded-rectangle shape of
/// the given radius (at most half the side).
pub fn round_premul_bgra_corners(bits: &mut [u8], px: u32, radius: u32)
    requires
        old(bits)@.len() == px * px * 4,
    ensures
        final(bits)@ == rounded_corners(old(bits)@, px as int, clamped_radius(px, radius)),
{
    let n = px as usize;
    let r = if radius <= px / 2 {
        radius as usize
    } else {
        (px / 2) as usize
    };
    let ghost orig = bits@;
    let ghost ni = n as int;
    let ghost ri = r as int;
    let len = bits.len();
    assert(n * n * 4 <= usize::MAX);
    assert forall|i: int| 0 <= i < orig.len() implies #[trigger] orig[i] == if in_cut_corner(
        ni,
        ri,
        byte_x(ni, i),
        byte_y(ni, i),
    ) && cell_before(edge_distance(ni, byte_x(ni, i)), edge_distance(ni, byte_y(ni, i)), 0, 0) {
        0u8
    } else {
        orig[i]
    } by {
        assert(ni > 0) by (nonlinear_arith)
            requires
                0 <= i < ni * ni * 4,
                ni >= 0,
        ;
        lemma_byte_in_pixel(ni, i, 0, 0);
    }
    assert(corners_cleared_before(bits@, orig, ni, ri, 0, 0));
    let mut y: usize = 0;
    while y < r
        invariant
            n == px,
            ni == n,
            ri == r,
            ri == clamped_radius(px, radius),
            2 * r <= n,
            orig.len() == ni * ni * 4,
            n * n * 4 <= usize::MAX,
            y <= r,
            corners_cleared_before(bits@, orig, ni, ri, 0, y as int),
        decreases r - y,
    {
        let mut x: usize = 0;
        while x < r
            invariant
                n == px,
                ni == n,
                ri == r,
                2 * r <= n,
                orig.len() == ni * ni * 4,
                n * n * 4 <= usize::MAX,
                y < r,
                x <= r,
                corners_cleared_before(bits@, orig, ni, ri, x as int, y as int),
            decreases r - x,
        {
            let a = 2 * r - 2 * x - 1;
            let b = 2 * r - 2 * y - 1;
            assert(a * a + b * b <= 2 * (n * n)) by (nonlinear_arith)
                requires
                    a < 2 * r,
                    b < 2 * r,
                    2 * r <= n,
            ;
            assert(4 * r * r <= n * n && 4 * r <= n * n * 4) by (nonlinear_arith)
                requires
                    2 * r <= n,
                    x < r,
            ;
            let ghost before = bits@;
            if a * a + b * b > 4 * r * r {
                proof {
                    lemma_pixel_index(ni, x as int, y as int, 3);
                    lemma_pixel_index(ni, ni - 1 - x, y as int, 3);
                    lemma_pixel_index(ni, x as int, ni - 1 - y, 3);
                    lemma_pixel_index(ni, ni - 1 - x, ni - 1 - y, 3);
                }
                clear_pixel(bits, (y * n + x) * 4);
                clear_pixel(bits, (y * n + (n - 1 - x)) * 4);
                clear_pixel(bits, ((n - 1 - y) * n + x) * 4);
                clear_pixel(bits, ((n - 1 - y) * n + (n - 1 - x)) * 4);
                proof {
                    lemma_clear_cell(before, bits@, orig, ni, ri, x as int, y as int);
                }
            } else {
                assert(corners_cleared_before(bits@, orig, ni, ri, x + 1, y as int));
            }
            x += 1;
        }
        assert(corners_cleared_before(bits@, orig, ni, ri, 0, y + 1));
        y += 1;
    }
    assert(bits@ =~= rounded_corners(orig, ni, ri));
}


/// Rounding clears only corner pixels: a byte changes only if its pixel is
/// within the radius of two edges, and rounding an already rounded image
/// changes nothing.
pub proof fn lemma_rounding_touches_only_corners(b: Seq<u8>, n: int, r: int)
    ensures
        forall|i: int|
            0 <= i < b.len() && #[trigger] rounded_corners(b, n, r)[i] != b[i] ==> edge_distance(
                n,
                byte_x(n, i),
            ) < r && edge_distance(n, byte_y(n, i)) < r,
        rounded_corners(rounded_corners(b, n, r), n, r) == rounded_corners(b, n, r),
{
    assert(rounded_corners(rounded_corners(b, n, r), n, r) =~= rounded_corners(b, n, r));
}

} // verus!
