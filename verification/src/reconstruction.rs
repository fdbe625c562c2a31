//! Why the delta path loses nothing: the rectangles that the differ emits,
//! written into the previous frame, give the current frame.

use vstd::prelude::*;
use vstd::arithmetic::div_mod::lemma_fundamental_div_mod;
use crate::client::FrameUpdateView;
use crate::client::IntakeView;
use crate::client::after_delta;
use crate::client::after_update;
use crate::client::after_updates;
use crate::client::delta_intake;
use crate::delta::DiffConfig;
use crate::delta::DiffInput;
use crate::delta::RectView;
use crate::delta::block_extent;
use crate::delta::diff_input;
use crate::delta::distance;
use crate::delta::every_block_changed;
use crate::delta::exceeds_threshold;
use crate::delta::frame_size_ok;
use crate::delta::lemma_all_blocks_changed;
use crate::delta::lemma_all_blocks_counted;
use crate::delta::lemma_row_in_frame;
use crate::delta::lemma_same_frames_no_rects;
use crate::delta::region_pixels;
use crate::delta::row_bytes;
use crate::delta::total_pixels;
use crate::framebuffer::FramebufferView;
use crate::framebuffer::applicable;
use crate::framebuffer::apply_rect;
use crate::framebuffer::apply_rects;
use crate::framebuffer::count_dropped;
use crate::framebuffer::lemma_rect_row_bounds;
use crate::framebuffer::overwrite;
use crate::framebuffer::write_rows;
use crate::payload::DeltaError;
use crate::payload::delta_payload;
use crate::payload::encodable;
use crate::payload::lemma_delta_payload_round_trip;
use crate::payload::lemma_rects_bytes_len;
use crate::payload::lemma_rects_round_trip;
use crate::payload::parse_delta;
use crate::payload::parse_rects;
use crate::payload::rects_bytes;
use crate::message_type::MessageType;
use crate::producer::FrameStepView;
use crate::producer::MAX_SURE_BLOCK;
use crate::producer::carried_rects;
use crate::producer::fits_message;
use crate::producer::is_frame_step;
use crate::producer::lemma_three_way_rule;
use crate::producer::message_rects;
use crate::producer::sendable;
use crate::producer::sentinel;
use crate::producer::three_way;
use crate::wire::MessageView;

verus! {

/// The byte at offset `c` within row `row` of a frame that is `width` pixels
/// wide.
pub open spec fn px(frame: Seq<u8>, width: int, row: int, c: int) -> u8 {
    frame[(row * width) * 4 + c]
}

/// The byte at offset `j` within row `row` of the pixel data of a rectangle
/// that is `w` pixels wide.
pub open spec fn rect_px(pixels: Seq<u8>, w: int, row: int, j: int) -> u8 {
    pixels[(row * w) * 4 + j]
}

/// A row ends before any later row begins.
proof fn lemma_rows_apart(width: int, r1: int, r2: int)
    requires
        0 <= width,
        r1 < r2,
    ensures
        (r1 * width) * 4 + width * 4 <= (r2 * width) * 4,
{
    assert((r1 + 1) * width <= r2 * width) by (nonlinear_arith)
        requires
            r1 + 1 <= r2,
            0 <= width,
    ;
    assert((r1 + 1) * width == r1 * width + width) by (nonlinear_arith);
}

/// Every byte of every row lies inside the frame.
proof fn lemma_px_in_frame(width: int, height: int, row: int, c: int)
    requires
        0 <= row < height,
        0 <= c < width * 4,
    ensures
        0 <= (row * width) * 4 + c < width * height * 4,
{
    lemma_rows_apart(width, row, height);
    assert(0 <= row * width) by (nonlinear_arith)
        requires
            0 <= row,
            0 <= width,
    ;
    assert(height * width == width * height) by (nonlinear_arith);
}

/// Two frames that agree in every byte of every row are the same frame.
proof fn lemma_frames_equal(f: Seq<u8>, g: Seq<u8>, width: int, height: int)
    requires
        0 <= width,
        0 <= height,
        f.len() == width * height * 4,
        g.len() == width * height * 4,
        forall|row: int, c: int|
            0 <= row < height && 0 <= c < width * 4 ==> #[trigger] px(f, width, row, c) == px(
                g,
                width,
                row,
                c,
            ),
    ensures
        f == g,
{
    assert forall|k: int| 0 <= k < f.len() implies f[k] == g[k] by {
        let s = width * 4;
        if s > 0 {
            let row = k / s;
            let c = k % s;
            lemma_fundamental_div_mod(k, s);
            assert(0 <= row < height) by (nonlinear_arith)
                requires
                    0 <= k < width * height * 4,
                    s == width * 4,
                    s > 0,
                    k == s * row + c,
                    0 <= c < s,
            ;
            assert((row * width) * 4 == s * row) by (nonlinear_arith)
                requires
                    s == width * 4,
            ;
            assert(px(f, width, row, c) == px(g, width, row, c));
        } else {
            assert(width * height * 4 == 0) by (nonlinear_arith)
                requires
                    width == 0,
            ;
        }
    }
    assert(f =~= g);
}

/// The pixels of a rectangle of a frame, byte by byte.
proof fn lemma_region_pixels_px(frame: Seq<u8>, width: int, height: int, x: int, y: int, w: int, h: int)
    requires
        frame.len() == width * height * 4,
        0 <= x,
        0 <= y,
        0 <= w,
        0 <= h,
        x + w <= width,
        y + h <= height,
    ensures
        region_pixels(frame, width, x, y, w, h).len() == w * h * 4,
        forall|row: int, j: int|
            0 <= row < h && 0 <= j < w * 4 ==> #[trigger] rect_px(
                region_pixels(frame, width, x, y, w, h),
                w,
                row,
                j,
            ) == px(frame, width, y + row, x * 4 + j),
    decreases h,
{
    if h <= 0 {
        assert(w * h * 4 == 0) by (nonlinear_arith)
            requires
                h == 0,
        ;
    } else {
        lemma_region_pixels_px(frame, width, height, x, y, w, h - 1);
        lemma_row_in_frame(width, height, x, y + h - 1, w);
        let above = region_pixels(frame, width, x, y, w, h - 1);
        let last = row_bytes(frame, width, x, y + h - 1, w);
        let all = region_pixels(frame, width, x, y, w, h);
        assert(all == above + last);
        assert(w * h * 4 == w * (h - 1) * 4 + w * 4) by (nonlinear_arith);
        assert((h - 1) * w == w * (h - 1)) by (nonlinear_arith);
        assert forall|row: int, j: int| 0 <= row < h && 0 <= j < w * 4 implies #[trigger] rect_px(
            all,
            w,
            row,
            j,
        ) == px(frame, width, y + row, x * 4 + j) by {
            if row < h - 1 {
                assert((row * w) * 4 + w * 4 <= ((h - 1) * w) * 4) by (nonlinear_arith)
                    requires
                        row + 1 <= h - 1,
                        0 <= w,
                ;
                assert(0 <= row * w) by (nonlinear_arith)
                    requires
                        0 <= row,
                        0 <= w,
                ;
                assert(rect_px(above, w, row, j) == px(frame, width, y + row, x * 4 + j));
            } else {
                assert(all[((h - 1) * w) * 4 + j] == last[j]);
            }
        }
    }
}

/// The result of writing rows of a rectangle, byte by byte: inside the rows
/// written so far and the columns of the rectangle stand the rectangle's
/// pixels, everywhere else what stood there before.
proof fn lemma_write_rows_px(frame: Seq<u8>, width: int, height: int, r: RectView, n: int)
    requires
        frame.len() == width * height * 4,
        applicable(r, width, height),
        0 <= n <= r.h,
    ensures
        write_rows(frame, width, r, n).len() == frame.len(),
        forall|row: int, c: int|
            0 <= row < height && 0 <= c < width * 4 ==> #[trigger] px(
                write_rows(frame, width, r, n),
                width,
                row,
                c,
            ) == if r.y <= row < r.y + n && r.x * 4 <= c < (r.x + r.w) * 4 {
                rect_px(r.pixels, r.w, row - r.y, c - r.x * 4)
            } else {
                px(frame, width, row, c)
            },
    decreases n,
{
    if n > 0 {
        lemma_write_rows_px(frame, width, height, r, n - 1);
        lemma_rect_row_bounds(width, height, r, n - 1);
        let g0 = write_rows(frame, width, r, n - 1);
        let last = r.y + n - 1;
        let at = (last * width + r.x) * 4;
        let data = r.pixels.subrange(((n - 1) * r.w) * 4, ((n - 1) * r.w) * 4 + r.w * 4);
        let g = write_rows(frame, width, r, n);
        assert(g == overwrite(g0, at, data));
        assert forall|row: int, c: int| 0 <= row < height && 0 <= c < width * 4 implies #[trigger] px(
            g,
            width,
            row,
            c,
        ) == if r.y <= row < r.y + n && r.x * 4 <= c < (r.x + r.w) * 4 {
            rect_px(r.pixels, r.w, row - r.y, c - r.x * 4)
        } else {
            px(frame, width, row, c)
        } by {
            let k = (row * width) * 4 + c;
            lemma_px_in_frame(width, height, row, c);
            assert(px(g0, width, row, c) == if r.y <= row < r.y + n - 1 && r.x * 4 <= c < (r.x + r.w)
                * 4 {
                rect_px(r.pixels, r.w, row - r.y, c - r.x * 4)
            } else {
                px(frame, width, row, c)
            });
            if row < last {
                lemma_rows_apart(width, row, last);
                assert(g[k] == g0[k]);
            } else if row > last {
                lemma_rows_apart(width, last, row);
                assert(g[k] == g0[k]);
            } else {
                if r.x * 4 <= c < (r.x + r.w) * 4 {
                    assert(g[k] == data[k - at]);
                } else {
                    assert(g[k] == g0[k]);
                }
            }
        }
    }
}

/// Writing two lists of rectangles one after the other is writing their
/// concatenation.
proof fn lemma_apply_rects_concat(frame: Seq<u8>, width: int, height: int, a: Seq<RectView>, b: Seq<RectView>)
    ensures
        apply_rects(frame, width, height, a + b) == apply_rects(
            apply_rects(frame, width, height, a),
            width,
            height,
            b,
        ),
    decreases a.len(),
{
    if a.len() == 0 {
        assert(a + b =~= b);
    } else {
        assert((a + b).first() == a.first());
        assert((a + b).drop_first() =~= a.drop_first() + b);
        lemma_apply_rects_concat(
            apply_rect(frame, width, height, a.first()),
            width,
            height,
            a.drop_first(),
            b,
        );
    }
}

/// `f` is the previous frame with the blocks before `(bx, by)` brought up to
/// date: the rows of blocks above `by`, and in the row of blocks at `by` the
/// columns left of `bx`, hold the current frame; the rest holds the previous
/// one.
spec fn merged(d: DiffInput, f: Seq<u8>, by: int, bx: int) -> bool {
    &&& f.len() == d.cur.len()
    &&& forall|row: int, c: int|
        0 <= row < d.height && 0 <= c < d.width * 4 ==> #[trigger] px(f, d.width, row, c) == if row
            < by || (row < by + block_extent(by, d.height, d.block) && c < bx * 4) {
            px(d.cur, d.width, row, c)
        } else {
            px(d.prev, d.width, row, c)
        }
}

/// Writing the rectangles of the rest of a row of blocks brings the whole
/// row of blocks up to date.
proof fn lemma_row_merged(d: DiffInput, f: Seq<u8>, by: int, bx: int)
    requires
        d.wf(),
        0 <= by < d.height,
        0 <= bx <= d.width,
        merged(d, f, by, bx),
    ensures
        merged(d, apply_rects(f, d.width, d.height, d.row_rects_from(by, bx)), by, d.width),
    decreases distance(bx, d.width),
{
    let rects = d.row_rects_from(by, bx);
    if bx >= d.width {
        assert(rects =~= Seq::<RectView>::empty());
    } else {
        let bw = block_extent(bx, d.width, d.block);
        let bh = block_extent(by, d.height, d.block);
        let next = bx + bw;
        let rest = d.row_rects_from(by, next);
        assert(d.row_rects_from(by, bx + d.block) == rest);
        if d.block_changed(bx, by) {
            let rect = d.block_rect(bx, by);
            lemma_region_pixels_px(d.cur, d.width, d.height, bx, by, bw, bh);
            assert(applicable(rect, d.width, d.height));
            let f1 = apply_rect(f, d.width, d.height, rect);
            lemma_write_rows_px(f, d.width, d.height, rect, bh);
            assert forall|row: int, c: int| 0 <= row < d.height && 0 <= c < d.width * 4 implies #[trigger] px(
                f1,
                d.width,
                row,
                c,
            ) == if row < by || (row < by + bh && c < next * 4) {
                px(d.cur, d.width, row, c)
            } else {
                px(d.prev, d.width, row, c)
            } by {
                assert(px(f, d.width, row, c) == if row < by || (row < by + bh && c < bx * 4) {
                    px(d.cur, d.width, row, c)
                } else {
                    px(d.prev, d.width, row, c)
                });
                if by <= row < by + bh && bx * 4 <= c < next * 4 {
                    assert(rect_px(rect.pixels, bw, row - by, c - bx * 4) == px(
                        d.cur,
                        d.width,
                        by + (row - by),
                        bx * 4 + (c - bx * 4),
                    ));
                }
            }
            assert(merged(d, f1, by, next));
            lemma_row_merged(d, f1, by, next);
            assert(rects == seq![rect] + rest);
            assert(rects.first() == rect);
            assert(rects.drop_first() =~= rest);
        } else {
            assert forall|row: int, c: int| 0 <= row < d.height && 0 <= c < d.width * 4 implies #[trigger] px(
                f,
                d.width,
                row,
                c,
            ) == if row < by || (row < by + bh && c < next * 4) {
                px(d.cur, d.width, row, c)
            } else {
                px(d.prev, d.width, row, c)
            } by {
                assert(px(f, d.width, row, c) == if row < by || (row < by + bh && c < bx * 4) {
                    px(d.cur, d.width, row, c)
                } else {
                    px(d.prev, d.width, row, c)
                });
                if by <= row < by + bh && bx * 4 <= c < next * 4 {
                    lemma_row_in_frame(d.width, d.height, bx, row, bw);
                    let p = row_bytes(d.prev, d.width, bx, row, bw);
                    let q = row_bytes(d.cur, d.width, bx, row, bw);
                    assert(p == q);
                    assert(p[c - bx * 4] == px(d.prev, d.width, row, c));
                    assert(q[c - bx * 4] == px(d.cur, d.width, row, c));
                }
            }
            assert(merged(d, f, by, next));
            lemma_row_merged(d, f, by, next);
        }
    }
}

/// Writing the rectangles of all rows of blocks from `by` down brings the
/// whole frame up to date.
proof fn lemma_frame_merged(d: DiffInput, f: Seq<u8>, by: int)
    requires
        d.wf(),
        0 <= by <= d.height,
        merged(d, f, by, 0),
    ensures
        apply_rects(f, d.width, d.height, d.rects_from(by)) == d.cur,
    decreases distance(by, d.height),
{
    if by >= d.height {
        assert(d.rects_from(by) =~= Seq::<RectView>::empty());
        assert forall|row: int, c: int| 0 <= row < d.height && 0 <= c < d.width * 4 implies #[trigger] px(
            f,
            d.width,
            row,
            c,
        ) == px(d.cur, d.width, row, c) by {}
        lemma_frames_equal(f, d.cur, d.width, d.height);
    } else {
        let bh = block_extent(by, d.height, d.block);
        let next = by + bh;
        let row_rects = d.row_rects_from(by, 0);
        let rest = d.rects_from(next);
        assert(d.rects_from(by + d.block) == rest);
        let f1 = apply_rects(f, d.width, d.height, row_rects);
        lemma_row_merged(d, f, by, 0);
        assert forall|row: int, c: int| 0 <= row < d.height && 0 <= c < d.width * 4 implies #[trigger] px(
            f1,
            d.width,
            row,
            c,
        ) == if row < next || (row < next + block_extent(next, d.height, d.block) && c < 0 * 4) {
            px(d.cur, d.width, row, c)
        } else {
            px(d.prev, d.width, row, c)
        } by {
            assert(px(f1, d.width, row, c) == if row < by || (row < by + bh && c < d.width * 4) {
                px(d.cur, d.width, row, c)
            } else {
                px(d.prev, d.width, row, c)
            });
        }
        assert(merged(d, f1, next, 0));
        lemma_frame_merged(d, f1, next);
        lemma_apply_rects_concat(f, d.width, d.height, row_rects, rest);
    }
}

/// The delta path is lossless: for any two frames of one size and any block
/// size, writing the rectangles that the differ emits into the previous
/// frame gives the current frame, byte for byte.
pub proof fn lemma_delta_reproduces_frame(d: DiffInput)
    requires
        d.wf(),
    ensures
        apply_rects(d.prev, d.width, d.height, d.changed_rects()) == d.cur,
{
    assert forall|row: int, c: int| 0 <= row < d.height && 0 <= c < d.width * 4 implies #[trigger] px(
        d.prev,
        d.width,
        row,
        c,
    ) == if row < 0 || (row < 0 + block_extent(0, d.height, d.block) && c < 0 * 4) {
        px(d.cur, d.width, row, c)
    } else {
        px(d.prev, d.width, row, c)
    } by {}
    assert(merged(d, d.prev, 0, 0));
    lemma_frame_merged(d, d.prev, 0);
}

/// Every element of both lists has a property if every element of their
/// concatenation is to have it.
proof fn lemma_sound_concat(a: Seq<RectView>, b: Seq<RectView>, width: int, height: int)
    requires
        forall|i: int| 0 <= i < a.len() ==> sound(#[trigger] a[i], width, height),
        forall|i: int| 0 <= i < b.len() ==> sound(#[trigger] b[i], width, height),
    ensures
        forall|i: int| 0 <= i < (a + b).len() ==> sound(#[trigger] (a + b)[i], width, height),
{
    assert forall|i: int| 0 <= i < (a + b).len() implies sound(#[trigger] (a + b)[i], width, height) by {
        if i < a.len() {
            assert((a + b)[i] == a[i]);
        } else {
            assert((a + b)[i] == b[i - a.len()]);
        }
    }
}

/// A rectangle can be written to the wire and, at the other end, into a
/// frame of the given size.
pub open spec fn sound(r: RectView, width: int, height: int) -> bool {
    encodable(r) && applicable(r, width, height)
}

/// The rectangles of the rest of a row of blocks are sound.
proof fn lemma_row_rects_sound(d: DiffInput, by: int, bx: int)
    requires
        d.wf(),
        d.width <= u32::MAX,
        d.height <= u32::MAX,
        0 <= by < d.height,
        0 <= bx,
    ensures
        forall|i: int|
            0 <= i < d.row_rects_from(by, bx).len() ==> sound(
                #[trigger] d.row_rects_from(by, bx)[i],
                d.width,
                d.height,
            ),
    decreases distance(bx, d.width),
{
    if bx < d.width {
        let bw = block_extent(bx, d.width, d.block);
        let bh = block_extent(by, d.height, d.block);
        lemma_row_rects_sound(d, by, bx + d.block);
        let rest = d.row_rects_from(by, bx + d.block);
        if d.block_changed(bx, by) {
            let rect = d.block_rect(bx, by);
            lemma_region_pixels_px(d.cur, d.width, d.height, bx, by, bw, bh);
            assert(sound(rect, d.width, d.height));
            lemma_sound_concat(seq![rect], rest, d.width, d.height);
        }
    }
}

/// The rectangles of all rows of blocks from `by` down are sound.
proof fn lemma_rects_sound_from(d: DiffInput, by: int)
    requires
        d.wf(),
        d.width <= u32::MAX,
        d.height <= u32::MAX,
        0 <= by,
    ensures
        forall|i: int|
            0 <= i < d.rects_from(by).len() ==> sound(#[trigger] d.rects_from(by)[i], d.width, d.height),
    decreases distance(by, d.height),
{
    if by < d.height {
        lemma_row_rects_sound(d, by, 0);
        lemma_rects_sound_from(d, by + d.block);
        lemma_sound_concat(d.row_rects_from(by, 0), d.rects_from(by + d.block), d.width, d.height);
    }
}

/// Of rectangles that all fit, none is dropped.
proof fn lemma_none_dropped(rects: Seq<RectView>, width: int, height: int)
    requires
        forall|i: int| 0 <= i < rects.len() ==> sound(#[trigger] rects[i], width, height),
    ensures
        count_dropped(width, height, rects) == 0,
    decreases rects.len(),
{
    if rects.len() > 0 {
        assert(sound(rects[0], width, height));
        assert forall|i: int| 0 <= i < rects.drop_first().len() implies sound(
            #[trigger] rects.drop_first()[i],
            width,
            height,
        ) by {
            assert(rects.drop_first()[i] == rects[i + 1]);
        }
        lemma_none_dropped(rects.drop_first(), width, height);
    }
}

/// Every rectangle that the differ emits for frames whose sides fit 32 bits
/// can be written to the wire, and fits the frame at the other end: none is
/// ever dropped there.
pub proof fn lemma_changed_rects_sound(d: DiffInput)
    requires
        d.wf(),
        d.width <= u32::MAX,
        d.height <= u32::MAX,
    ensures
        forall|i: int|
            0 <= i < d.changed_rects().len() ==> sound(#[trigger] d.changed_rects()[i], d.width, d.height),
        count_dropped(d.width, d.height, d.changed_rects()) == 0,
{
    lemma_rects_sound_from(d, 0);
    lemma_none_dropped(d.changed_rects(), d.width, d.height);
}

/// From the differ to the framebuffer nothing is lost: a framebuffer that
/// holds the previous frame holds the current frame after it has taken in
/// the delta payload of the two frames.
pub proof fn lemma_payload_reproduces_frame(d: DiffInput)
    requires
        d.wf(),
        d.width <= u32::MAX,
        d.height <= u32::MAX,
        d.changed_rects().len() <= u32::MAX,
    ensures
        parse_delta(delta_payload(d.changed_rects())) == Ok::<Seq<RectView>, DeltaError>(
            d.changed_rects(),
        ),
        after_delta(
            (FramebufferView { width: d.width, height: d.height, pixels: d.prev }),
            delta_payload(d.changed_rects()),
        ) == (FramebufferView { width: d.width, height: d.height, pixels: d.cur }),
{
    lemma_changed_rects_sound(d);
    lemma_delta_payload_round_trip(d.changed_rects());
    lemma_delta_reproduces_frame(d);
}

/// Whether a rectangle is no larger than a block.
pub open spec fn within_block(r: RectView, block: int) -> bool {
    r.w <= block && r.h <= block
}

/// The rectangles of the rest of a row of blocks are no larger than a
/// block.
proof fn lemma_row_rects_within_block(d: DiffInput, by: int, bx: int)
    requires
        d.wf(),
        0 <= by < d.height,
        0 <= bx,
    ensures
        forall|i: int|
            0 <= i < d.row_rects_from(by, bx).len() ==> within_block(
                #[trigger] d.row_rects_from(by, bx)[i],
                d.block,
            ),
    decreases distance(bx, d.width),
{
    if bx < d.width {
        lemma_row_rects_within_block(d, by, bx + d.block);
        let rest = d.row_rects_from(by, bx + d.block);
        let all = d.row_rects_from(by, bx);
        if d.block_changed(bx, by) {
            assert forall|i: int| 0 <= i < all.len() implies within_block(#[trigger] all[i], d.block) by {
                if i == 0 {
                    assert(all[0] == d.block_rect(bx, by));
                } else {
                    assert(all[i] == rest[i - 1]);
                }
            }
        }
    }
}

/// The rectangles of all rows of blocks from `by` down are no larger than a
/// block.
proof fn lemma_rects_within_block_from(d: DiffInput, by: int)
    requires
        d.wf(),
        0 <= by,
    ensures
        forall|i: int|
            0 <= i < d.rects_from(by).len() ==> within_block(#[trigger] d.rects_from(by)[i], d.block),
    decreases distance(by, d.height),
{
    if by < d.height {
        lemma_row_rects_within_block(d, by, 0);
        lemma_rects_within_block_from(d, by + d.block);
        let row = d.row_rects_from(by, 0);
        let rest = d.rects_from(by + d.block);
        let all = d.rects_from(by);
        assert forall|i: int| 0 <= i < all.len() implies within_block(#[trigger] all[i], d.block) by {
            if i < row.len() {
                assert(all[i] == row[i]);
            } else {
                assert(all[i] == rest[i - row.len()]);
            }
        }
    }
}

/// With blocks of at most `MAX_SURE_BLOCK` pixels along the edge, every
/// rectangle that the differ emits fits a message: whatever has changed
/// between two frames, and however much of it, goes out as delta messages
/// wherever the rule of the differ asks for a delta.
pub proof fn lemma_small_blocks_sendable(d: DiffInput)
    requires
        d.wf(),
        d.width <= u32::MAX,
        d.height <= u32::MAX,
        d.block <= MAX_SURE_BLOCK,
    ensures
        sendable(d.changed_rects()),
{
    lemma_changed_rects_sound(d);
    lemma_rects_within_block_from(d, 0);
    let rects = d.changed_rects();
    assert forall|i: int| 0 <= i < rects.len() implies fits_message(#[trigger] rects[i]) by {
        let r = rects[i];
        assert(sound(r, d.width, d.height));
        assert(within_block(r, d.block));
        assert(r.w * r.h * 4 <= 1952 * 1952 * 4) by (nonlinear_arith)
            requires
                0 <= r.w <= 1952,
                0 <= r.h <= 1952,
        ;
    }
}

/// With blocks of at most `MAX_SURE_BLOCK` pixels along the edge, those of
/// the default configuration among them, the three-way rule holds of what
/// the producer does for any two frames of one size.
pub proof fn lemma_three_way_rule_of_small_blocks(
    step: FrameStepView,
    prev: Seq<u8>,
    cur: Seq<u8>,
    width: usize,
    height: usize,
    config: DiffConfig,
)
    requires
        config.wf(),
        config.block_size <= MAX_SURE_BLOCK,
        is_frame_step(step, prev, cur, width, height, config),
        frame_size_ok(cur.len() as int, width as int, height as int),
        prev.len() == cur.len(),
    ensures
        ({
            let rects = diff_input(prev, cur, width, height, config.block_size).changed_rects();
            three_way(
                step,
                rects,
                exceeds_threshold(
                    total_pixels(rects),
                    width * height,
                    config.threshold_num as int,
                    config.threshold_den as int,
                ),
            )
        }),
{
    lemma_small_blocks_sendable(diff_input(prev, cur, width, height, config.block_size));
    lemma_three_way_rule(step, prev, cur, width, height, config);
}

/// Rectangles written into a frame list by list give what the lists joined
/// give.
pub proof fn lemma_apply_rects_joined(
    frame: Seq<u8>,
    width: int,
    height: int,
    a: Seq<RectView>,
    b: Seq<RectView>,
)
    ensures
        apply_rects(frame, width, height, a + b) == apply_rects(
            apply_rects(frame, width, height, a),
            width,
            height,
            b,
        ),
    decreases a.len(),
{
    if a.len() == 0 {
        assert(a + b =~= b);
    } else {
        assert((a + b).first() == a.first());
        assert((a + b).drop_first() =~= a.drop_first() + b);
        lemma_apply_rects_joined(apply_rect(frame, width, height, a.first()), width, height, a.drop_first(), b);
    }
}

/// The updates that the viewing side queues for a run of messages: one for
/// each delta message whose payload it can take and read.
pub open spec fn queued_updates(messages: Seq<MessageView>) -> Seq<FrameUpdateView>
    decreases messages.len(),
{
    if messages.len() == 0 {
        Seq::empty()
    } else {
        let rest = queued_updates(messages.drop_first());
        let m = messages.first();
        if m.msg_type == MessageType::FrameDelta {
            match delta_intake(m.payload) {
                IntakeView::Queue(update) => seq![update] + rest,
                _ => rest,
            }
        } else {
            rest
        }
    }
}

/// What the viewing side makes of a run of messages is what the messages
/// bring: after the updates that it queues for them, the framebuffer holds
/// what it held with the rectangles of the messages written into it, in
/// the order in which they arrived.
pub proof fn lemma_queued_updates_bring_rects(fb: FramebufferView, messages: Seq<MessageView>)
    ensures
        after_updates(fb, queued_updates(messages)) == (FramebufferView {
            width: fb.width,
            height: fb.height,
            pixels: apply_rects(fb.pixels, fb.width, fb.height, carried_rects(messages)),
        }),
    decreases messages.len(),
{
    if messages.len() > 0 {
        let m = messages.first();
        let tail = messages.drop_first();
        let rest = queued_updates(tail);
        if m.msg_type == MessageType::FrameDelta && delta_intake(m.payload) is Queue {
            let update = delta_intake(m.payload)->Queue_0;
            let all = seq![update] + rest;
            let next = after_update(fb, update);
            assert(all.first() == update);
            assert(all.drop_first() =~= rest);
            assert(queued_updates(messages) == all);
            lemma_queued_updates_bring_rects(next, tail);
            lemma_apply_rects_joined(fb.pixels, fb.width, fb.height, message_rects(m), carried_rects(tail));
        } else {
            lemma_queued_updates_bring_rects(fb, tail);
            assert(message_rects(m) =~= Seq::<RectView>::empty());
            assert(message_rects(m) + carried_rects(tail) =~= carried_rects(tail));
        }
    }
}

/// From the producer to the framebuffer nothing is lost: where the producer
/// sends messages for two frames, the rectangles that the messages bring to
/// the viewing side all fit the frame, and written into the previous frame
/// in the order in which they arrive they give the current frame.
pub proof fn lemma_sent_delta_reproduces_frame(
    step: FrameStepView,
    prev: Seq<u8>,
    cur: Seq<u8>,
    width: usize,
    height: usize,
    config: DiffConfig,
)
    requires
        config.wf(),
        is_frame_step(step, prev, cur, width, height, config),
        step is Send,
    ensures
        step matches FrameStepView::Send(messages) && apply_rects(
            prev,
            width as int,
            height as int,
            carried_rects(messages),
        ) == cur && count_dropped(width as int, height as int, carried_rects(messages)) == 0,
{
    let d = diff_input(prev, cur, width, height, config.block_size);
    lemma_records_reproduce_frame(d);
    match step {
        FrameStepView::Send(messages) => {
            if d.changed_rects().len() == 0 {
                let total = width * height;
                let num = config.threshold_num as int;
                let den = config.threshold_den as int;
                assert(total_pixels(d.changed_rects()) == 0);
                assert(0 * den == 0) by (nonlinear_arith);
                assert(total * num >= 0) by (nonlinear_arith)
                    requires
                        total >= 0,
                        num >= 0,
                ;
                assert(messages =~= seq![sentinel()]);
                assert(messages.first() == sentinel());
                assert(messages.drop_first() =~= Seq::<MessageView>::empty());
                assert(carried_rects(Seq::<MessageView>::empty()) == Seq::<RectView>::empty());
                assert(carried_rects(messages) =~= d.changed_rects());
            }
        },
        FrameStepView::EncodeFull => {},
    }
}

/// For two frames that are the same byte for byte the producer sends the
/// end-of-frame sentinel alone.
pub proof fn lemma_same_frames_send_sentinel(
    step: FrameStepView,
    frame: Seq<u8>,
    width: usize,
    height: usize,
    config: DiffConfig,
)
    requires
        config.wf(),
        is_frame_step(step, frame, frame, width, height, config),
        frame_size_ok(frame.len() as int, width as int, height as int),
    ensures
        diff_input(frame, frame, width, height, config.block_size).changed_rects().len() == 0,
        step == FrameStepView::Send(seq![sentinel()]),
{
    let d = diff_input(frame, frame, width, height, config.block_size);
    lemma_same_frames_no_rects(d);
    let total = width * height;
    let num = config.threshold_num as int;
    let den = config.threshold_den as int;
    assert(total_pixels(d.changed_rects()) == 0);
    assert(0 * den == 0) by (nonlinear_arith);
    assert(total * num >= 0) by (nonlinear_arith)
        requires
            total >= 0,
            num >= 0,
    ;
}

/// Where every block of a frame has changed, the changed share is one and
/// the producer sends the whole frame, with any threshold below one.
pub proof fn lemma_all_changed_sends_whole_frame(
    step: FrameStepView,
    prev: Seq<u8>,
    cur: Seq<u8>,
    width: usize,
    height: usize,
    config: DiffConfig,
)
    requires
        config.wf(),
        config.threshold_num < config.threshold_den,
        is_frame_step(step, prev, cur, width, height, config),
        frame_size_ok(cur.len() as int, width as int, height as int),
        prev.len() == cur.len(),
        width > 0,
        height > 0,
        every_block_changed(diff_input(prev, cur, width, height, config.block_size)),
    ensures
        total_pixels(diff_input(prev, cur, width, height, config.block_size).changed_rects()) == width
            * height,
        step is EncodeFull,
{
    let d = diff_input(prev, cur, width, height, config.block_size);
    lemma_all_blocks_changed(d, config.threshold_num as int, config.threshold_den as int);
}

/// Where every block of a frame has changed, everything about the list of
/// rectangles is fixed by the size of the frame: there is one rectangle for
/// each block of the grid, together they cover every pixel, and written out
/// they take sixteen bytes for each block and four for each pixel.
pub proof fn lemma_all_blocks_changed_in_full(d: DiffInput)
    requires
        d.wf(),
        d.width <= u32::MAX,
        d.height <= u32::MAX,
        d.width > 0,
        d.height > 0,
        every_block_changed(d),
    ensures
        d.changed_rects().len() == ((d.width + d.block - 1) / d.block) * ((d.height + d.block - 1)
            / d.block),
        total_pixels(d.changed_rects()) == d.width * d.height,
        rects_bytes(d.changed_rects()).len() == 16 * d.changed_rects().len() + 4 * (d.width
            * d.height),
{
    lemma_all_blocks_counted(d);
    lemma_all_blocks_changed(d, 0, 1);
    lemma_changed_rects_sound(d);
    let rects = d.changed_rects();
    assert forall|i: int| 0 <= i < rects.len() implies (#[trigger] rects[i]).wf() by {
        assert(sound(rects[i], d.width, d.height));
    }
    lemma_rects_bytes_len(rects);
}

/// The rectangles written out lose nothing: read back one by one they are
/// the rectangles of the differ, and written into the previous frame they
/// give the current frame. This holds however many rectangles there are.
pub proof fn lemma_records_reproduce_frame(d: DiffInput)
    requires
        d.wf(),
        d.width <= u32::MAX,
        d.height <= u32::MAX,
    ensures
        parse_rects(rects_bytes(d.changed_rects()), d.changed_rects().len()) == Ok::<
            Seq<RectView>,
            DeltaError,
        >(d.changed_rects()),
        apply_rects(d.prev, d.width, d.height, d.changed_rects()) == d.cur,
        count_dropped(d.width, d.height, d.changed_rects()) == 0,
{
    lemma_changed_rects_sound(d);
    lemma_rects_round_trip(d.changed_rects(), Seq::empty());
    assert(rects_bytes(d.changed_rects()) + Seq::<u8>::empty() =~= rects_bytes(d.changed_rects()));
    lemma_delta_reproduces_frame(d);
}

} // verus!
