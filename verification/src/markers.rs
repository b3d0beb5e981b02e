//! Annotations drawn on screenshots (through `imageproc`): a click marker, a
//! window highlight and a step badge.
use vstd::prelude::*;
use crate::capture::Frame;
use crate::text::{dec_nat, lemma_dec_nat_len, text, u64_text};

verus! {

/// An RGBA color.
#[derive(Debug, Clone, Copy, PartialEq, Eq, Structural)]
pub struct Color {
    pub r: u8,
    pub g: u8,
    pub b: u8,
    pub a: u8,
}

/// Red, for click markers and badges.
pub open spec fn red() -> Color {
    Color { r: 255, g: 50, b: 50, a: 230 }
}

/// Green, for window highlights.
pub open spec fn green() -> Color {
    Color { r: 50, g: 200, b: 50, a: 200 }
}

/// White, for text.
pub open spec fn white() -> Color {
    Color { r: 255, g: 255, b: 255, a: 255 }
}

fn red_color() -> (c: Color)
    ensures
        c == red(),
{
    Color { r: 255, g: 50, b: 50, a: 230 }
}

fn green_color() -> (c: Color)
    ensures
        c == green(),
{
    Color { r: 50, g: 200, b: 50, a: 200 }
}

fn white_color() -> (c: Color)
    ensures
        c == white(),
{
    Color { r: 255, g: 255, b: 255, a: 255 }
}

/// The largest coordinate up to which `imageproc` can walk a line. It walks
/// from the line's least to its greatest coordinate, taken through `f32`; a
/// coordinate from 2^31 - 64 upward rounds to 2^31, which becomes `i32::MAX`,
/// and the `i32` step past it overflows.
pub const DRAW_LIMIT: i32 = 2147483583i32;

// ---------------------------------------------------------------------------
// Drawing primitives
// ---------------------------------------------------------------------------

/// The value of a `u32` converted with `as i32`.
pub open spec fn as_i32(v: u32) -> int {
    if v <= i32::MAX {
        v as int
    } else {
        v - 0x1_0000_0000
    }
}

/// The last coordinate of a side that starts at `start` and is `len` long,
/// as `imageproc`'s `Rect::right` and `Rect::bottom` compute it
/// (`start + (len as i32) - 1`).
pub open spec fn rect_end(start: i32, len: u32) -> int {
    start + as_i32(len) - 1
}

/// Whether `Rect::right` (or `bottom`) computes a side's end without
/// overflowing `i32`.
pub open spec fn side_fits(start: i32, len: u32) -> bool {
    &&& i32::MIN <= start + as_i32(len) <= i32::MAX
    &&& i32::MIN <= rect_end(start, len)
}

/// Whether a side can be walked as a line: both of its ends are at most
/// `DRAW_LIMIT`.
pub open spec fn side_walkable(start: i32, len: u32) -> bool {
    &&& start <= DRAW_LIMIT
    &&& rect_end(start, len) <= DRAW_LIMIT
}

/// Whether `draw_hollow_rect_mut` can draw the outline of the rectangle at
/// (`left`, `top`) of size `w` x `h` without overflow or panic.
pub open spec fn outline_fits(left: i32, top: i32, w: u32, h: u32) -> bool {
    &&& w >= 1
    &&& h >= 1
    &&& side_fits(left, w)
    &&& side_fits(top, h)
    &&& side_walkable(left, w)
    &&& side_walkable(top, h)
}

/// The pixels after `imageproc::drawing::draw_filled_circle_mut`.
pub uninterp spec fn circle_drawn(
    pixels: Seq<u8>,
    width: u32,
    height: u32,
    cx: i32,
    cy: i32,
    radius: i32,
    color: Color,
) -> Seq<u8>;

/// The pixels after `imageproc::drawing::draw_hollow_rect_mut`.
pub uninterp spec fn outline_drawn(
    pixels: Seq<u8>,
    width: u32,
    height: u32,
    left: i32,
    top: i32,
    w: u32,
    h: u32,
    color: Color,
) -> Seq<u8>;

/// Channel `c` (0 to 3: red, green, blue, alpha) of a color.
pub open spec fn color_channel(color: Color, c: int) -> u8 {
    if c == 0 {
        color.r
    } else if c == 1 {
        color.g
    } else if c == 2 {
        color.b
    } else {
        color.a
    }
}

/// The pixels after filling the rectangle at (`left`, `top`) of size
/// `w` x `h` with a color, as `imageproc::drawing::draw_filled_rect_mut`
/// does: every pixel of the image that lies in the rectangle (and in the
/// image's own rectangle, whose right and bottom ends are computed with
/// `as i32` too) takes the color; the others keep theirs.
pub open spec fn fill_drawn(
    pixels: Seq<u8>,
    width: u32,
    height: u32,
    left: i32,
    top: i32,
    w: u32,
    h: u32,
    color: Color,
) -> Seq<u8> {
    Seq::new(
        pixels.len(),
        |k: int|
            {
                let px = (k / 4) % (width as int);
                let py = (k / 4) / (width as int);
                if left <= px <= rect_end(left, w) && top <= py <= rect_end(top, h) && px
                    <= rect_end(0, width) && py <= rect_end(0, height) {
                    color_channel(color, k % 4)
                } else {
                    pixels[k]
                }
            },
    )
}

/// Draws a filled circle in place (`draw_filled_circle_mut`); the image
/// keeps its size. The function computes `center ± radius` in `i32` and walks
/// each row of the circle from left to right, so the circle must stay within
/// `i32` and its rightmost column within `DRAW_LIMIT`.
#[verifier::external_body]
fn fill_circle(frame: &mut Frame, cx: i32, cy: i32, radius: i32, color: Color)
    requires
        old(frame).wf(),
        0 <= radius <= 1000,
        i32::MIN <= cx - radius,
        cx + radius <= DRAW_LIMIT,
        i32::MIN <= cy - radius,
        cy + radius <= i32::MAX,
    ensures
        final(frame).width == old(frame).width,
        final(frame).height == old(frame).height,
        final(frame).pixels@.len() == old(frame).pixels@.len(),
        final(frame).pixels@ == circle_drawn(
            old(frame).pixels@,
            old(frame).width,
            old(frame).height,
            cx,
            cy,
            radius,
            color,
        ),
{
    let mut img = image::RgbaImage::from_raw(
        frame.width,
        frame.height,
        std::mem::take(&mut frame.pixels),
    ).unwrap();
    imageproc::drawing::draw_filled_circle_mut(
        &mut img,
        (cx, cy),
        radius,
        image::Rgba([color.r, color.g, color.b, color.a]),
    );
    frame.pixels = img.into_raw();
}

/// Draws the outline of a rectangle in place (`Rect::at(left, top)
/// .of_size(w, h)` and `draw_hollow_rect_mut`); the image keeps its size.
/// `of_size` panics on an empty size, `Rect::right` and `Rect::bottom` add
/// in `i32`, and each side is walked as a line (see `outline_fits`).
#[verifier::external_body]
fn outline_rect(frame: &mut Frame, left: i32, top: i32, w: u32, h: u32, color: Color)
    requires
        old(frame).wf(),
        outline_fits(left, top, w, h),
    ensures
        final(frame).width == old(frame).width,
        final(frame).height == old(frame).height,
        final(frame).pixels@.len() == old(frame).pixels@.len(),
        final(frame).pixels@ == outline_drawn(
            old(frame).pixels@,
            old(frame).width,
            old(frame).height,
            left,
            top,
            w,
            h,
            color,
        ),
{
    let mut img = image::RgbaImage::from_raw(
        frame.width,
        frame.height,
        std::mem::take(&mut frame.pixels),
    ).unwrap();
    imageproc::drawing::draw_hollow_rect_mut(
        &mut img,
        imageproc::rect::Rect::at(left, top).of_size(w, h),
        image::Rgba([color.r, color.g, color.b, color.a]),
    );
    frame.pixels = img.into_raw();
}

/// Fills a rectangle in place (`Rect::at(left, top).of_size(w, h)` and
/// `draw_filled_rect_mut`); the image keeps its size, and exactly the pixels
/// of the rectangle that lie in the image take the color (see `fill_drawn`).
/// The function makes a rectangle of the image's own size, so the image may
/// not be empty, and computes both rectangles' ends in `i32`.
#[verifier::external_body]
fn fill_rect(frame: &mut Frame, left: i32, top: i32, w: u32, h: u32, color: Color)
    requires
        old(frame).wf(),
        old(frame).width >= 1,
        old(frame).height >= 1,
        side_fits(0, old(frame).width),
        side_fits(0, old(frame).height),
        w >= 1,
        h >= 1,
        side_fits(left, w),
        side_fits(top, h),
    ensures
        final(frame).width == old(frame).width,
        final(frame).height == old(frame).height,
        final(frame).pixels@.len() == old(frame).pixels@.len(),
        final(frame).pixels@ == fill_drawn(
            old(frame).pixels@,
            old(frame).width,
            old(frame).height,
            left,
            top,
            w,
            h,
            color,
        ),
{
    let mut img = image::RgbaImage::from_raw(
        frame.width,
        frame.height,
        std::mem::take(&mut frame.pixels),
    ).unwrap();
    imageproc::drawing::draw_filled_rect_mut(
        &mut img,
        imageproc::rect::Rect::at(left, top).of_size(w, h),
        image::Rgba([color.r, color.g, color.b, color.a]),
    );
    frame.pixels = img.into_raw();
}

/// One drawing step.
pub enum DrawOp {
    Circle { cx: i32, cy: i32, radius: i32, color: Color },
    Outline { left: i32, top: i32, w: u32, h: u32, color: Color },
    Fill { left: i32, top: i32, w: u32, h: u32, color: Color },
}

/// The pixels after one drawing step.
pub open spec fn apply_op(pixels: Seq<u8>, width: u32, height: u32, op: DrawOp) -> Seq<u8> {
    match op {
        DrawOp::Circle { cx, cy, radius, color } => circle_drawn(
            pixels,
            width,
            height,
            cx,
            cy,
            radius,
            color,
        ),
        DrawOp::Outline { left, top, w, h, color } => outline_drawn(
            pixels,
            width,
            height,
            left,
            top,
            w,
            h,
            color,
        ),
        DrawOp::Fill { left, top, w, h, color } => fill_drawn(
            pixels,
            width,
            height,
            left,
            top,
            w,
            h,
            color,
        ),
    }
}

/// The pixels after the drawing steps, in order.
pub open spec fn apply_ops(pixels: Seq<u8>, width: u32, height: u32, ops: Seq<DrawOp>) -> Seq<u8>
    decreases ops.len(),
{
    if ops.len() == 0 {
        pixels
    } else {
        apply_op(apply_ops(pixels, width, height, ops.drop_last()), width, height, ops.last())
    }
}

// ---------------------------------------------------------------------------
// Text placeholders
// ---------------------------------------------------------------------------

/// `v` reduced modulo 2^32, as `u32` arithmetic wraps.
pub open spec fn wrap32(v: int) -> int {
    v % 0x1_0000_0000
}

/// The column of the `i`-th character of text drawn at `x`: `x + i * 8` in
/// `u32` arithmetic, which wraps.
pub open spec fn char_column(x: u32, i: nat) -> u32 {
    wrap32(x + 8 * i) as u32
}

/// Whether the dot of a character at column `cx` and row `y` is drawn: the
/// test `cx + 5 < width && y + 7 < height`, in wrapping `u32` arithmetic.
pub open spec fn dot_shown(width: u32, height: u32, cx: u32, y: u32) -> bool {
    wrap32(cx + 5) < width && wrap32(y + 7) < height
}

/// The dots that stand for `n` characters of text at (`x`, `y`): one dot of
/// radius 3 per character, 8 pixels apart, centered at `(cx as i32 + 3,
/// y as i32 + 3)`, for the characters whose dot passes the test.
pub open spec fn text_ops(width: u32, height: u32, x: u32, y: u32, n: nat, color: Color) -> Seq<
    DrawOp,
>
    decreases n,
{
    if n == 0 {
        Seq::empty()
    } else {
        let prev = text_ops(width, height, x, y, (n - 1) as nat, color);
        let cx = char_column(x, (n - 1) as nat);
        if dot_shown(width, height, cx, y) {
            prev.push(
                DrawOp::Circle {
                    cx: (as_i32(cx) + 3) as i32,
                    cy: (as_i32(y) + 3) as i32,
                    radius: 3,
                    color,
                },
            )
        } else {
            prev
        }
    }
}

/// Text that lies inside the image gets one dot per character, in order:
/// the `i`-th a circle of radius 3 centred 3 pixels right of and below the
/// character's corner `(x + 8 * i, y)`.
pub proof fn law_text_dots_inside(width: u32, height: u32, x: u32, y: u32, n: nat, color: Color)
    requires
        width <= DRAW_LIMIT,
        height <= DRAW_LIMIT,
        x + 8 * n <= width,
        y + 7 < height,
    ensures
        text_ops(width, height, x, y, n, color).len() == n,
        forall|i: int|
            0 <= i < n ==> #[trigger] text_ops(width, height, x, y, n, color)[i] == (DrawOp::Circle {
                cx: (x + 8 * i + 3) as i32,
                cy: (y + 3) as i32,
                radius: 3,
                color,
            }),
    decreases n,
{
    if n > 0 {
        law_text_dots_inside(width, height, x, y, (n - 1) as nat, color);
        let c = x + 8 * (n - 1);
        assert(wrap32(c) == c);
        assert(wrap32(c + 5) == c + 5);
        assert(wrap32(y + 7) == y + 7);
        assert(as_i32(c as u32) == c);
        assert(as_i32(y) == y);
    }
}

/// The value of a `u32` converted with `as i32`.
fn to_i32(v: u32) -> (r: i32)
    ensures
        r == as_i32(v),
{
    if v <= 0x7fff_ffffu32 {
        v as i32
    } else {
        ((v as i64) - 0x1_0000_0000i64) as i32
    }
}

/// Draws a placeholder for text: a small dot per character. The columns are
/// computed in wrapping `u32` arithmetic, so text that starts left of the
/// image (a negative position converted with `as u32`) is drawn where its
/// dots reach into the image.
fn draw_simple_text(img: &mut Frame, x: u32, y: u32, text: &str, color: Color)
    requires
        old(img).wf(),
        old(img).width <= DRAW_LIMIT,
        wrap32(y + 7) < old(img).height ==> as_i32(y) + 6 <= i32::MAX,
    ensures
        final(img).width == old(img).width,
        final(img).height == old(img).height,
        final(img).wf(),
        final(img).pixels@ == apply_ops(
            old(img).pixels@,
            old(img).width,
            old(img).height,
            text_ops(old(img).width, old(img).height, x, y, text@.len(), color),
        ),
{
    let n = text.unicode_len();
    let mut i: usize = 0;
    let mut cx: u32 = x;
    proof {
        assert(wrap32(x + 8 * 0) == x as int);
    }
    while i < n
        invariant
            n == text@.len(),
            i <= n,
            img.width == old(img).width,
            img.height == old(img).height,
            img.wf(),
            img.width <= DRAW_LIMIT,
            wrap32(y + 7) < img.height ==> as_i32(y) + 6 <= i32::MAX,
            cx == char_column(x, i as nat),
            img.pixels@ == apply_ops(
                old(img).pixels@,
                img.width,
                img.height,
                text_ops(img.width, img.height, x, y, i as nat, color),
            ),
        decreases n - i,
    {
        let shown = cx.wrapping_add(5) < img.width && y.wrapping_add(7) < img.height;
        assert(shown == dot_shown(img.width, img.height, cx, y)) by {
            assert(wrap32(cx + 5) == (if cx + 5 > u32::MAX { cx + 5 - 0x1_0000_0000 } else { cx + 5 }));
            assert(wrap32(y + 7) == (if y + 7 > u32::MAX { y + 7 - 0x1_0000_0000 } else { y + 7 }));
        }
        if shown {
            let ghost before = text_ops(img.width, img.height, x, y, i as nat, color);
            let cxi = to_i32(cx);
            let cyi = to_i32(y);
            assert(-5 <= cxi && cxi + 6 <= img.width);
            assert(cyi + 6 <= i32::MAX);
            let op = DrawOp::Circle { cx: cxi + 3, cy: cyi + 3, radius: 3, color };
            fill_circle(img, cxi + 3, cyi + 3, 3, color);
            assert(text_ops(img.width, img.height, x, y, (i + 1) as nat, color) == before.push(op));
            assert(before.push(op).drop_last() =~= before);
        } else {
            assert(text_ops(img.width, img.height, x, y, (i + 1) as nat, color) == text_ops(
                img.width,
                img.height,
                x,
                y,
                i as nat,
                color,
            ));
        }
        proof {
            vstd::arithmetic::div_mod::lemma_add_mod_noop(x + 8 * i, 8, 0x1_0000_0000);
            assert(wrap32(cx + 8) == char_column(x, (i + 1) as nat));
        }
        cx = cx.wrapping_add(8);
        i = i + 1;
    }
}

// ---------------------------------------------------------------------------
// Markers
// ---------------------------------------------------------------------------

/// The value of an `i32` converted with `as u32`.
pub open spec fn as_u32(v: int) -> u32 {
    if v >= 0 {
        v as u32
    } else {
        (v + 0x1_0000_0000) as u32
    }
}

fn to_u32(v: i32) -> (r: u32)
    ensures
        r == as_u32(v as int),
{
    if v >= 0 {
        v as u32
    } else {
        ((v as i64) + 0x1_0000_0000i64) as u32
    }
}

/// The nine copies of the step number drawn around a click, one pixel apart
/// in each direction: for `dx`, `dy` in `-1..=1`, in that order.
pub open spec fn number_ops(
    width: u32,
    height: u32,
    tx: int,
    ty: int,
    n: nat,
    k: nat,
) -> Seq<DrawOp>
    decreases k,
{
    if k == 0 {
        Seq::empty()
    } else {
        let j = k - 1;
        let dx = j / 3 - 1;
        let dy = j % 3 - 1;
        number_ops(width, height, tx, ty, n, (k - 1) as nat) + text_ops(
            width,
            height,
            as_u32(tx + dx),
            as_u32(ty + dy),
            n,
            white(),
        )
    }
}

/// What a click marker draws: a red circle of radius 18 at the click, then
/// the step number's placeholder centered on it, nine times for a halo.
pub open spec fn click_marker_ops(width: u32, height: u32, x: i32, y: i32, step_number: u32) -> Seq<
    DrawOp,
> {
    let n = dec_nat(step_number as nat).len();
    seq![DrawOp::Circle { cx: x, cy: y, radius: 18, color: red() }] + number_ops(
        width,
        height,
        x - n * 4,
        y - 6,
        n,
        9,
    )
}

proof fn lemma_apply_one(pixels: Seq<u8>, width: u32, height: u32, op: DrawOp)
    ensures
        apply_ops(pixels, width, height, seq![op]) == apply_op(pixels, width, height, op),
{
    let one = seq![op];
    let rest = one.drop_last();
    assert(rest =~= Seq::<DrawOp>::empty());
    assert(apply_ops(pixels, width, height, rest) == pixels);
    assert(one.last() == op);
    assert(apply_ops(pixels, width, height, one) == apply_op(
        apply_ops(pixels, width, height, rest),
        width,
        height,
        one.last(),
    ));
}

proof fn lemma_apply_ops_append(pixels: Seq<u8>, width: u32, height: u32, a: Seq<DrawOp>, b: Seq<
    DrawOp,
>)
    ensures
        apply_ops(pixels, width, height, a + b) == apply_ops(
            apply_ops(pixels, width, height, a),
            width,
            height,
            b,
        ),
    decreases b.len(),
{
    if b.len() == 0 {
        assert(a + b =~= a);
    } else {
        lemma_apply_ops_append(pixels, width, height, a, b.drop_last());
        assert((a + b).drop_last() =~= a + b.drop_last());
        assert((a + b).last() == b.last());
    }
}

/// Draws a click marker (a red circle with the step number) at the given
/// position. The circle and the label's position are computed in `i32`, so
/// they must stay within it (and the circle's rightmost column within
/// `DRAW_LIMIT`); the label's dots are placed in wrapping `u32` arithmetic,
/// so a label that starts left of or above the image is still drawn where it
/// reaches into it.
pub fn draw_click_marker(img: &mut Frame, x: i32, y: i32, step_number: u32)
    requires
        old(img).wf(),
        old(img).width <= DRAW_LIMIT,
        i32::MIN <= x - 18,
        x + 18 <= DRAW_LIMIT,
        i32::MIN <= x - dec_nat(step_number as nat).len() * 4 - 1,
        i32::MIN <= y - 18,
        y + 18 <= i32::MAX,
    ensures
        final(img).width == old(img).width,
        final(img).height == old(img).height,
        final(img).wf(),
        final(img).pixels@ == apply_ops(
            old(img).pixels@,
            old(img).width,
            old(img).height,
            click_marker_ops(old(img).width, old(img).height, x, y, step_number),
        ),
{
    let radius: i32 = 18;
    fill_circle(img, x, y, radius, red_color());
    let ghost first = seq![DrawOp::Circle { cx: x, cy: y, radius: 18, color: red() }];
    proof {
        lemma_apply_one(old(img).pixels@, img.width, img.height, first[0]);
        assert(first =~= seq![first[0]]);
    }
    let label = u64_text(step_number as u64);
    proof {
        lemma_dec_nat_len(step_number as nat);
        lemma_dec_nat_bound(step_number as nat);
    }
    let len = label.as_str().unicode_len();
    let text_x: i32 = x - (len as i32) * 4;
    let text_y: i32 = y - 6;
    let ghost n = len as nat;
    let ghost w = img.width;
    let ghost h = img.height;
    let mut k: usize = 0;
    while k < 9
        invariant
            k <= 9,
            n == dec_nat(step_number as nat).len(),
            n <= 10,
            label@.len() == n,
            text_x == x - n * 4,
            text_y == y - 6,
            img.width == w,
            img.height == h,
            w == old(img).width,
            h == old(img).height,
            img.wf(),
            w <= DRAW_LIMIT,
            i32::MIN <= x - n * 4 - 1,
            i32::MIN <= y - 18,
            y + 18 <= i32::MAX,
            img.pixels@ == apply_ops(
                old(img).pixels@,
                w,
                h,
                first + number_ops(w, h, text_x as int, text_y as int, n, k as nat),
            ),
        decreases 9 - k,
    {
        let dx: i32 = (k / 3) as i32 - 1;
        let dy: i32 = (k % 3) as i32 - 1;
        let ghost prev = first + number_ops(w, h, text_x as int, text_y as int, n, k as nat);
        let tx = to_u32(text_x + dx);
        let ty = to_u32(text_y + dy);
        draw_simple_text(img, tx, ty, label.as_str(), white_color());
        proof {
            let added = text_ops(w, h, tx, ty, n, white());
            lemma_apply_ops_append(old(img).pixels@, w, h, prev, added);
            assert(number_ops(w, h, text_x as int, text_y as int, n, (k + 1) as nat)
                == number_ops(w, h, text_x as int, text_y as int, n, k as nat) + added);
            assert(prev + added =~= first + number_ops(
                w,
                h,
                text_x as int,
                text_y as int,
                n,
                (k + 1) as nat,
            ));
        }
        k = k + 1;
    }
}

proof fn lemma_dec_nat_bound(n: nat)
    requires
        n <= u32::MAX,
    ensures
        dec_nat(n).len() <= 10,
{
    reveal_with_fuel(pow10, 11);
    lemma_dec_nat_len_bound(n, 10);
}

proof fn lemma_dec_nat_len_bound(n: nat, k: nat)
    requires
        k >= 1,
        n < pow10(k),
    ensures
        dec_nat(n).len() <= k,
    decreases k,
{
    if n >= 10 {
        assert(n / 10 < pow10((k - 1) as nat)) by {
            assert(pow10(k) == 10 * pow10((k - 1) as nat));
            if k == 1 {
                assert(pow10(0) == 1);
            }
        }
        if k == 1 {
            assert(pow10(1) == 10 * pow10(0));
        } else {
            lemma_dec_nat_len_bound(n / 10, (k - 1) as nat);
        }
    }
}

/// Ten to the power `k`.
pub open spec fn pow10(k: nat) -> nat
    decreases k,
{
    if k == 0 {
        1
    } else {
        10 * pow10((k - 1) as nat)
    }
}

/// What a window highlight draws: three green outlines, each one pixel
/// further out.
pub open spec fn highlight_ops(x: i32, y: i32, w: u32, h: u32) -> Seq<DrawOp> {
    Seq::new(
        3,
        |t: int|
            DrawOp::Outline {
                left: (x - t) as i32,
                top: (y - t) as i32,
                w: (w + 2 * t) as u32,
                h: (h + 2 * t) as u32,
                color: green(),
            },
    )
}

/// Whether the three outlines of a window highlight can be computed and
/// drawn: `x - t` and `w + 2 * t` (for `t` up to 2) stay within `i32` and
/// `u32`, and each outline fits (see `outline_fits`).
pub open spec fn highlight_fits(x: i32, y: i32, w: u32, h: u32) -> bool {
    &&& i32::MIN <= x - 2
    &&& i32::MIN <= y - 2
    &&& w + 4 <= u32::MAX
    &&& h + 4 <= u32::MAX
    &&& forall|t: int|
        0 <= t < 3 ==> #[trigger] outline_fits(
            (x - t) as i32,
            (y - t) as i32,
            (w + 2 * t) as u32,
            (h + 2 * t) as u32,
        )
}

/// Draws a window highlight border around the given rectangle.
pub fn draw_window_highlight(img: &mut Frame, x: i32, y: i32, w: u32, h: u32)
    requires
        old(img).wf(),
        highlight_fits(x, y, w, h),
    ensures
        final(img).width == old(img).width,
        final(img).height == old(img).height,
        final(img).wf(),
        final(img).pixels@ == apply_ops(
            old(img).pixels@,
            old(img).width,
            old(img).height,
            highlight_ops(x, y, w, h),
        ),
{
    let thickness: u32 = 3;
    let mut t: u32 = 0;
    while t < thickness
        invariant
            t <= 3,
            thickness == 3,
            img.width == old(img).width,
            img.height == old(img).height,
            img.wf(),
            highlight_fits(x, y, w, h),
            img.pixels@ == apply_ops(
                old(img).pixels@,
                img.width,
                img.height,
                highlight_ops(x, y, w, h).subrange(0, t as int),
            ),
        decreases 3 - t,
    {
        let ghost prefix = highlight_ops(x, y, w, h).subrange(0, t + 1);
        assert(prefix.drop_last() =~= highlight_ops(x, y, w, h).subrange(0, t as int));
        assert(outline_fits(
            (x - t) as i32,
            (y - t) as i32,
            (w + 2 * t) as u32,
            (h + 2 * t) as u32,
        ));
        outline_rect(img, x - t as i32, y - t as i32, w + 2 * t, h + 2 * t, green_color());
        t = t + 1;
    }
    assert(highlight_ops(x, y, w, h).subrange(0, 3) =~= highlight_ops(x, y, w, h));
}

/// What a step badge draws: a red box in the top-left corner, then the
/// placeholder of `#` and the step number.
pub open spec fn badge_ops(width: u32, height: u32, step_number: u32) -> Seq<DrawOp> {
    seq![DrawOp::Fill { left: 8, top: 8, w: 60, h: 28, color: red() }] + text_ops(
        width,
        height,
        16,
        14,
        dec_nat(step_number as nat).len() + 1,
        white(),
    )
}

/// Draws the step number badge in the top-left corner.
pub fn draw_step_badge(img: &mut Frame, step_number: u32)
    requires
        old(img).wf(),
        1 <= old(img).width <= DRAW_LIMIT,
        old(img).height >= 1,
        side_fits(0, old(img).height),
    ensures
        final(img).width == old(img).width,
        final(img).height == old(img).height,
        final(img).wf(),
        final(img).pixels@ == apply_ops(
            old(img).pixels@,
            old(img).width,
            old(img).height,
            badge_ops(old(img).width, old(img).height, step_number),
        ),
{
    let badge_w: u32 = 60;
    let badge_h: u32 = 28;
    fill_rect(img, 8, 8, badge_w, badge_h, red_color());
    let ghost first = seq![DrawOp::Fill { left: 8, top: 8, w: 60, h: 28, color: red() }];
    proof {
        lemma_apply_one(old(img).pixels@, img.width, img.height, first[0]);
        assert(first =~= seq![first[0]]);
    }
    proof {
        reveal_strlit("#");
    }
    let mut label = text("#");
    let number = u64_text(step_number as u64);
    crate::text::append_str(&mut label, number.as_str());
    proof {
        lemma_dec_nat_bound(step_number as nat);
    }
    let ghost before = img.pixels@;
    draw_simple_text(img, 16, 14, label.as_str(), white_color());
    proof {
        lemma_apply_ops_append(
            old(img).pixels@,
            img.width,
            img.height,
            first,
            text_ops(img.width, img.height, 16, 14, label@.len(), white()),
        );
    }
}

} // verus!
