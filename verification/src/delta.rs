//! The frame differ. A frame is cut into square blocks, clipped at the right
//! and bottom edges; a block in which any byte differs from the previous
//! frame becomes a dirty rectangle that carries the block's current pixels.

use vstd::prelude::*;
use vstd::slice::slice_subrange;
use vstd::slice::slice_to_vec;
use crate::framebuffer::apply_rects;
use crate::framebuffer::count_dropped;
use crate::payload::DeltaError;
use crate::payload::lemma_rects_bytes_len;
use crate::payload::parse_rects;
use crate::payload::rects_bytes;
use crate::payload::serialize_rects;
use crate::reconstruction::lemma_all_blocks_changed_in_full;
use crate::reconstruction::lemma_records_reproduce_frame;

verus! {

/// Edge length of a block where the caller names none.
pub const DEFAULT_BLOCK_SIZE: usize = 128;

/// One changed rectangle with its pixels, row after row, four bytes each.
#[derive(Debug)]
pub struct DirtyRect {
    pub x: u32,
    pub y: u32,
    pub w: u32,
    pub h: u32,
    pub pixels: Vec<u8>,
}

/// What a dirty rectangle is, apart from how it is stored.
pub struct RectView {
    pub x: int,
    pub y: int,
    pub w: int,
    pub h: int,
    pub pixels: Seq<u8>,
}

impl View for DirtyRect {
    type V = RectView;

    open spec fn view(&self) -> RectView {
        RectView {
            x: self.x as int,
            y: self.y as int,
            w: self.w as int,
            h: self.h as int,
            pixels: self.pixels@,
        }
    }
}

impl RectView {
    /// The pixel data is exactly as long as the rectangle is large.
    pub open spec fn wf(self) -> bool {
        &&& 0 <= self.x
        &&& 0 <= self.y
        &&& 0 <= self.w
        &&& 0 <= self.h
        &&& self.pixels.len() == self.w * self.h * 4
    }

    /// The rectangle lies inside a frame of the given size.
    pub open spec fn fits(self, width: int, height: int) -> bool {
        self.x + self.w <= width && self.y + self.h <= height
    }
}

impl DirtyRect {
    /// The pixel data is exactly as long as the rectangle is large.
    pub open spec fn wf(&self) -> bool {
        self@.wf()
    }
}

/// The views of a list of rectangles, in order.
pub open spec fn rect_views(rects: Seq<DirtyRect>) -> Seq<RectView> {
    Seq::new(rects.len(), |i: int| rects[i]@)
}

/// The changes between two frames: the dirty rectangles in block order (rows
/// of blocks from the top, each from the left) and the sum of their areas.
#[derive(Debug)]
pub struct FrameDelta {
    pub rects: Vec<DirtyRect>,
    pub changed_pixels: usize,
}

/// The bytes of `w` pixels of row `y` that start at column `x`, in a frame
/// that is `width` pixels wide.
pub open spec fn row_bytes(frame: Seq<u8>, width: int, x: int, y: int, w: int) -> Seq<u8> {
    frame.subrange((y * width + x) * 4, (y * width + x + w) * 4)
}

/// The pixels of a rectangle of a frame: its rows from the top, each `w`
/// pixels long, with nothing between them.
pub open spec fn region_pixels(frame: Seq<u8>, width: int, x: int, y: int, w: int, h: int) -> Seq<u8>
    decreases h,
{
    if h <= 0 {
        Seq::empty()
    } else {
        region_pixels(frame, width, x, y, w, h - 1) + row_bytes(frame, width, x, y + h - 1, w)
    }
}

/// Whether two frames differ in at least one byte of a rectangle.
pub open spec fn region_differs(
    prev: Seq<u8>,
    cur: Seq<u8>,
    width: int,
    x: int,
    y: int,
    w: int,
    h: int,
) -> bool {
    exists|row: int|
        y <= row < y + h && #[trigger] row_bytes(prev, width, x, row, w) != row_bytes(
            cur,
            width,
            x,
            row,
            w,
        )
}

/// Two frames of one size and the block size by which they are compared.
pub struct DiffInput {
    pub prev: Seq<u8>,
    pub cur: Seq<u8>,
    pub width: int,
    pub height: int,
    pub block: int,
}

/// How far a block that starts at `pos` reaches: a full block, or what is
/// left up to `limit`.
pub open spec fn block_extent(pos: int, limit: int, block: int) -> int {
    if limit - pos < block {
        limit - pos
    } else {
        block
    }
}

/// The two frames as the differ sees them.
pub open spec fn diff_input(
    prev: Seq<u8>,
    cur: Seq<u8>,
    width: usize,
    height: usize,
    block: usize,
) -> DiffInput {
    DiffInput { prev, cur, width: width as int, height: height as int, block: block as int }
}

/// How far `pos` is from `limit`; nothing once it is there or beyond.
pub open spec fn distance(pos: int, limit: int) -> nat {
    if pos < limit {
        (limit - pos) as nat
    } else {
        0
    }
}

impl DiffInput {
    /// Both frames have the size that the dimensions give, and the block
    /// size is positive.
    pub open spec fn wf(self) -> bool {
        &&& self.block > 0
        &&& self.width >= 0
        &&& self.height >= 0
        &&& self.prev.len() == self.width * self.height * 4
        &&& self.cur.len() == self.width * self.height * 4
    }

    /// Whether the block whose top left corner is `(bx, by)` has changed.
    pub open spec fn block_changed(self, bx: int, by: int) -> bool {
        region_differs(
            self.prev,
            self.cur,
            self.width,
            bx,
            by,
            block_extent(bx, self.width, self.block),
            block_extent(by, self.height, self.block),
        )
    }

    /// The dirty rectangle of the block whose top left corner is `(bx, by)`.
    pub open spec fn block_rect(self, bx: int, by: int) -> RectView {
        let bw = block_extent(bx, self.width, self.block);
        let bh = block_extent(by, self.height, self.block);
        RectView { x: bx, y: by, w: bw, h: bh, pixels: region_pixels(self.cur, self.width, bx, by, bw, bh) }
    }

    /// The dirty rectangles of the row of blocks at `by`, from the block at
    /// `bx` to the right edge.
    pub open spec fn row_rects_from(self, by: int, bx: int) -> Seq<RectView>
        decreases distance(bx, self.width),
    {
        if self.block <= 0 || bx < 0 || bx >= self.width {
            Seq::empty()
        } else if self.block_changed(bx, by) {
            seq![self.block_rect(bx, by)] + self.row_rects_from(by, bx + self.block)
        } else {
            self.row_rects_from(by, bx + self.block)
        }
    }

    /// The dirty rectangles of all rows of blocks from the one at `by` down.
    pub open spec fn rects_from(self, by: int) -> Seq<RectView>
        decreases distance(by, self.height),
    {
        if self.block <= 0 || by < 0 || by >= self.height {
            Seq::empty()
        } else {
            self.row_rects_from(by, 0) + self.rects_from(by + self.block)
        }
    }

    /// All dirty rectangles of the frame, in block order.
    pub open spec fn changed_rects(self) -> Seq<RectView> {
        self.rects_from(0)
    }
}

/// The sum of the areas of a list of rectangles, in pixels.
pub open spec fn total_pixels(rects: Seq<RectView>) -> int
    decreases rects.len(),
{
    if rects.len() == 0 {
        0
    } else {
        total_pixels(rects.drop_last()) + rects.last().w * rects.last().h
    }
}

/// Offsets of a row segment stay inside the frame.
pub proof fn lemma_row_in_frame(width: int, height: int, x: int, y: int, w: int)
    requires
        0 <= y < height,
        0 <= x,
        0 <= w,
        x + w <= width,
    ensures
        0 <= (y * width + x) * 4 <= (y * width + x + w) * 4 <= width * height * 4,
        (y * width + x + w) * 4 == (y * width + x) * 4 + w * 4,
        y * width + width == (y + 1) * width,
{
    assert(y * width + width == (y + 1) * width) by (nonlinear_arith);
    assert((y + 1) * width <= height * width) by (nonlinear_arith)
        requires
            y + 1 <= height,
            width >= 0,
    ;
    assert(0 <= y * width) by (nonlinear_arith)
        requires
            0 <= y,
            0 <= width,
    ;
    assert(height * width == width * height) by (nonlinear_arith);
}

/// Whether `len` bytes from `off` on are the same in both buffers.
fn segment_equal(a: &[u8], b: &[u8], off: usize, len: usize) -> (same: bool)
    requires
        off + len <= a.len(),
        off + len <= b.len(),
    ensures
        same == (a@.subrange(off as int, off + len) == b@.subrange(off as int, off + len)),
{
    let mut i: usize = 0;
    while i < len
        invariant
            i <= len,
            off + len <= a.len(),
            off + len <= b.len(),
            forall|k: int| off <= k < off + i ==> a@[k] == b@[k],
        decreases len - i,
    {
        if a[off + i] != b[off + i] {
            proof {
                let sa = a@.subrange(off as int, off + len);
                let sb = b@.subrange(off as int, off + len);
                assert(sa[i as int] != sb[i as int]);
            }
            return false;
        }
        i = i + 1;
    }
    assert(a@.subrange(off as int, off + len) =~= b@.subrange(off as int, off + len));
    true
}

/// Whether the two frames differ inside the given rectangle. The rows are
/// scanned from the top and the scan stops at the first byte that differs.
pub fn region_changed(
    prev: &[u8],
    cur: &[u8],
    width: usize,
    height: usize,
    x: usize,
    y: usize,
    w: usize,
    h: usize,
) -> (changed: bool)
    requires
        prev.len() == width * height * 4,
        cur.len() == width * height * 4,
        x + w <= width,
        y + h <= height,
    ensures
        changed == region_differs(prev@, cur@, width as int, x as int, y as int, w as int, h as int),
{
    let mut row: usize = 0;
    while row < h
        invariant
            row <= h,
            prev.len() == width * height * 4,
            cur.len() == width * height * 4,
            x + w <= width,
            y + h <= height,
            forall|r: int|
                y <= r < y + row ==> #[trigger] row_bytes(prev@, width as int, x as int, r, w as int)
                    == row_bytes(cur@, width as int, x as int, r, w as int),
        decreases h - row,
    {
        proof {
            lemma_row_in_frame(width as int, height as int, x as int, y + row, w as int);
            assert(0 <= (y + row) * width) by (nonlinear_arith);
        }
        let off: usize = ((y + row) * width + x) * 4;
        if !segment_equal(prev, cur, off, w * 4) {
            assert(row_bytes(prev@, width as int, x as int, y + row, w as int) != row_bytes(
                cur@,
                width as int,
                x as int,
                y + row,
                w as int,
            ));
            return true;
        }
        row = row + 1;
    }
    false
}

/// Copies the pixels of a rectangle out of a frame, row after row.
pub fn copy_region(frame: &[u8], width: usize, height: usize, x: usize, y: usize, w: usize, h: usize) -> (out:
    Vec<u8>)
    requires
        frame.len() == width * height * 4,
        x + w <= width,
        y + h <= height,
    ensures
        out@ == region_pixels(frame@, width as int, x as int, y as int, w as int, h as int),
        out@.len() == w * h * 4,
{
    let mut out: Vec<u8> = Vec::new();
    let mut row: usize = 0;
    while row < h
        invariant
            row <= h,
            frame.len() == width * height * 4,
            x + w <= width,
            y + h <= height,
            out@ == region_pixels(frame@, width as int, x as int, y as int, w as int, row as int),
            out@.len() == w * row * 4,
        decreases h - row,
    {
        proof {
            lemma_row_in_frame(width as int, height as int, x as int, y + row, w as int);
            assert(0 <= (y + row) * width) by (nonlinear_arith);
            assert(w * (row + 1) * 4 == w * row * 4 + w * 4) by (nonlinear_arith);
        }
        let start: usize = ((y + row) * width + x) * 4;
        let end: usize = start + w * 4;
        let mut line = slice_to_vec(slice_subrange(frame, start, end));
        out.append(&mut line);
        row = row + 1;
    }
    out
}

/// Adding a rectangle to a list adds its area to the total.
pub proof fn lemma_total_pixels_push(rects: Seq<RectView>, r: RectView)
    ensures
        total_pixels(rects.push(r)) == total_pixels(rects) + r.w * r.h,
{
    assert(rects.push(r).drop_last() =~= rects);
}

/// The total area of two lists is the sum of their totals.
pub proof fn lemma_total_pixels_concat(a: Seq<RectView>, b: Seq<RectView>)
    ensures
        total_pixels(a + b) == total_pixels(a) + total_pixels(b),
    decreases b.len(),
{
    if b.len() == 0 {
        assert(a + b =~= a);
    } else {
        lemma_total_pixels_concat(a, b.drop_last());
        assert((a + b).drop_last() =~= a + b.drop_last());
    }
}

/// Compares two frames of equal size block by block.
///
/// The blocks are visited in rows from the top, each row from the left; a
/// block at the right or bottom edge is clipped to what is left of the
/// frame. Every block in which at least one byte differs yields one
/// rectangle that covers the whole block and carries the current pixels.
pub fn diff_frames(prev: &[u8], cur: &[u8], width: usize, height: usize, block_size: usize) -> (delta:
    FrameDelta)
    requires
        block_size > 0,
        width <= u32::MAX,
        height <= u32::MAX,
        prev.len() == width * height * 4,
        cur.len() == width * height * 4,
    ensures
        rect_views(delta.rects@) == diff_input(prev@, cur@, width, height, block_size).changed_rects(),
        delta.changed_pixels == total_pixels(rect_views(delta.rects@)),
        delta.changed_pixels <= width * height,
        forall|i: int| 0 <= i < delta.rects@.len() ==> (#[trigger] delta.rects@[i]).wf(),
        prev@ == cur@ ==> delta.rects@.len() == 0 && delta.changed_pixels == 0,
{
    let ghost d = diff_input(prev@, cur@, width, height, block_size);
    proof {
        if prev@ == cur@ {
            lemma_same_frames_no_rects(d);
        }
    }
    let mut rects: Vec<DirtyRect> = Vec::new();
    let mut changed: usize = 0;
    let mut by: usize = 0;
    proof {
        assert(rect_views(rects@) =~= Seq::<RectView>::empty());
        assert(rect_views(rects@) + d.rects_from(0) =~= d.rects_from(0));
        assert(0 * width == 0) by (nonlinear_arith);
    }
    while by < height
        invariant
            d == diff_input(prev@, cur@, width, height, block_size),
            block_size > 0,
            width <= u32::MAX,
            height <= u32::MAX,
            prev.len() == width * height * 4,
            cur.len() == width * height * 4,
            by <= height,
            d.changed_rects() == rect_views(rects@) + d.rects_from(by as int),
            changed == total_pixels(rect_views(rects@)),
            changed <= by * width,
            forall|i: int| 0 <= i < rects@.len() ==> (#[trigger] rects@[i]).wf(),
        decreases height - by,
    {
        let bh: usize = if height - by < block_size {
            height - by
        } else {
            block_size
        };
        let mut bx: usize = 0;
        proof {
            assert(0 * bh == 0) by (nonlinear_arith);
            assert(rect_views(rects@) + (d.row_rects_from(by as int, 0) + d.rects_from(by + block_size))
                =~= rect_views(rects@) + d.row_rects_from(by as int, 0) + d.rects_from(
                by + block_size,
            ));
        }
        while bx < width
            invariant
                d == diff_input(prev@, cur@, width, height, block_size),
                block_size > 0,
                width <= u32::MAX,
                height <= u32::MAX,
                prev.len() == width * height * 4,
                cur.len() == width * height * 4,
                by < height,
                bx <= width,
                bh == block_extent(by as int, height as int, block_size as int),
                d.changed_rects() == rect_views(rects@) + d.row_rects_from(by as int, bx as int)
                    + d.rects_from(by + block_size),
                changed == total_pixels(rect_views(rects@)),
                changed <= by * width + bx * bh,
                forall|i: int| 0 <= i < rects@.len() ==> (#[trigger] rects@[i]).wf(),
            decreases width - bx,
        {
            let bw: usize = if width - bx < block_size {
                width - bx
            } else {
                block_size
            };
            let ghost before = rect_views(rects@);
            proof {
                assert(bx * bh + bw * bh == (bx + bw) * bh) by (nonlinear_arith);
                assert((bx + bw) * bh <= width * bh) by (nonlinear_arith)
                    requires
                        bx + bw <= width,
                        bh >= 0,
                ;
                assert(by * width + width * bh == (by + bh) * width) by (nonlinear_arith);
                assert((by + bh) * width <= height * width) by (nonlinear_arith)
                    requires
                        by + bh <= height,
                        width >= 0,
                ;
                assert(height * width == width * height) by (nonlinear_arith);
                assert(d.row_rects_from(by as int, bx + bw) == d.row_rects_from(
                    by as int,
                    bx + block_size,
                ));
            }
            if region_changed(prev, cur, width, height, bx, by, bw, bh) {
                let pixels = copy_region(cur, width, height, bx, by, bw, bh);
                let rect = DirtyRect { x: bx as u32, y: by as u32, w: bw as u32, h: bh as u32, pixels };
                proof {
                    assert(rect@ == d.block_rect(bx as int, by as int));
                    lemma_total_pixels_push(before, rect@);
                    assert(rect_views(rects@.push(rect)) =~= before.push(rect@));
                    assert(before + (seq![rect@] + d.row_rects_from(by as int, bx + block_size))
                        + d.rects_from(by + block_size) =~= before.push(rect@) + d.row_rects_from(
                        by as int,
                        bx + block_size,
                    ) + d.rects_from(by + block_size));
                }
                rects.push(rect);
                changed = changed + bw * bh;
            }
            bx = bx + bw;
        }
        proof {
            assert(rect_views(rects@) + d.row_rects_from(by as int, bx as int) + d.rects_from(
                by + block_size,
            ) =~= rect_views(rects@) + d.rects_from(by + block_size));
            assert(d.rects_from(by + block_size) == d.rects_from(by + bh));
            assert(by * width + width * bh == (by + bh) * width) by (nonlinear_arith);
        }
        by = by + bh;
    }
    proof {
        assert(rect_views(rects@) + d.rects_from(by as int) =~= rect_views(rects@));
        assert(height * width == width * height) by (nonlinear_arith);
    }
    FrameDelta { rects, changed_pixels: changed }
}

/// How one capture is to be sent.
#[derive(Debug, Copy, Clone, PartialEq, Eq, Structural)]
pub enum PlanKind {
    /// Too much has changed: send the whole frame.
    Full,
    /// Send the dirty rectangles.
    Delta,
    /// Nothing has changed: send no pixels, only the end-of-frame sentinel.
    Idle,
}

/// Whether the changed share of the frame, `changed / total`, is greater
/// than the threshold `num / den`. Stated without division, so that it is
/// exact and has a meaning for an empty frame too.
pub open spec fn exceeds_threshold(changed: int, total: int, num: int, den: int) -> bool {
    changed * den > total * num
}

/// The rule by which a capture is classified.
pub open spec fn plan_kind(rect_count: int, changed: int, total: int, num: int, den: int) -> PlanKind {
    if exceeds_threshold(changed, total, num, den) {
        PlanKind::Full
    } else if rect_count > 0 {
        PlanKind::Delta
    } else {
        PlanKind::Idle
    }
}

/// Classifies a capture from the result of the differ: the whole frame when
/// the changed share is above the threshold `num / den`, the rectangles when
/// there are any, and nothing otherwise.
pub fn classify(rect_count: usize, changed_pixels: usize, total_pixels: usize, num: u32, den: u32) -> (kind:
    PlanKind)
    ensures
        kind == plan_kind(
            rect_count as int,
            changed_pixels as int,
            total_pixels as int,
            num as int,
            den as int,
        ),
{
    assert(changed_pixels * den <= u128::MAX && total_pixels * num <= u128::MAX) by (nonlinear_arith)
        requires
            changed_pixels <= u64::MAX,
            total_pixels <= u64::MAX,
            num <= u32::MAX,
            den <= u32::MAX,
    ;
    let lhs: u128 = (changed_pixels as u128) * (den as u128);
    let rhs: u128 = (total_pixels as u128) * (num as u128);
    if lhs > rhs {
        PlanKind::Full
    } else if rect_count > 0 {
        PlanKind::Delta
    } else {
        PlanKind::Idle
    }
}

/// The tunable parameters of the differ: the edge length of a block and the
/// share of changed pixels, `threshold_num / threshold_den`, above which a
/// whole frame is sent in place of rectangles.
#[derive(Debug, Copy, Clone, PartialEq, Eq, Structural)]
pub struct DiffConfig {
    pub block_size: usize,
    pub threshold_num: u32,
    pub threshold_den: u32,
}

impl DiffConfig {
    /// The block size and the denominator of the threshold are positive.
    pub open spec fn wf(&self) -> bool {
        self.block_size > 0 && self.threshold_den > 0
    }

    /// A configuration with the given values; `None` exactly when the block
    /// size or the denominator is zero.
    pub fn new(block_size: usize, threshold_num: u32, threshold_den: u32) -> (c: Option<Self>)
        ensures
            (block_size > 0 && threshold_den > 0) ==> c == Some(
                (DiffConfig { block_size, threshold_num, threshold_den }),
            ),
            !(block_size > 0 && threshold_den > 0) ==> c is None,
    {
        if block_size > 0 && threshold_den > 0 {
            Some(DiffConfig { block_size, threshold_num, threshold_den })
        } else {
            None
        }
    }
}

/// The configuration where the caller names none: blocks of 128 pixels and
/// a threshold of one half.
pub open spec fn default_diff_config() -> DiffConfig {
    DiffConfig { block_size: DEFAULT_BLOCK_SIZE, threshold_num: 1, threshold_den: 2 }
}

impl Default for DiffConfig {
    /// Blocks of 128 pixels and a threshold of one half.
    fn default() -> (c: Self)
        ensures
            c == default_diff_config(),
            c.wf(),
    {
        DiffConfig { block_size: DEFAULT_BLOCK_SIZE, threshold_num: 1, threshold_den: 2 }
    }
}

/// What the producer does with one capture.
#[derive(Debug)]
pub enum FramePlan {
    /// Encode and send the whole current frame.
    Full,
    /// Encode and send these rectangles.
    Delta(FrameDelta),
    /// Send only the end-of-frame sentinel.
    Idle,
}

/// Whether a buffer of `len` bytes is a frame of the given dimensions whose
/// coordinates fit the 32-bit fields of the wire format.
pub open spec fn frame_size_ok(len: int, width: int, height: int) -> bool {
    &&& 0 <= width <= u32::MAX
    &&& 0 <= height <= u32::MAX
    &&& len == width * height * 4
}

/// Tests `frame_size_ok` without overflow.
pub fn check_frame_size(len: usize, width: usize, height: usize) -> (ok: bool)
    ensures
        ok == frame_size_ok(len as int, width as int, height as int),
{
    if width > 0xFFFF_FFFF || height > 0xFFFF_FFFF {
        return false;
    }
    assert(width * height * 4 <= u128::MAX) by (nonlinear_arith)
        requires
            width <= u32::MAX,
            height <= u32::MAX,
    ;
    assert(width * height <= u128::MAX) by (nonlinear_arith)
        requires
            width <= u32::MAX,
            height <= u32::MAX,
    ;
    let need: u128 = (width as u128) * (height as u128) * 4;
    need == len as u128
}

/// Decides how the current capture is sent, given the previous one.
///
/// Where the two buffers do not both have the size that the dimensions
/// give, no diff is attempted and the whole frame is sent, which brings the
/// two ends back in step. Otherwise the frames are compared block by block
/// and the result is classified by `plan_kind`.
pub fn plan_frame(prev: &[u8], cur: &[u8], width: usize, height: usize, config: &DiffConfig) -> (plan:
    FramePlan)
    requires
        config.wf(),
    ensures
        !(frame_size_ok(cur@.len() as int, width as int, height as int) && prev@.len() == cur@.len())
            ==> plan is Full,
        (frame_size_ok(cur@.len() as int, width as int, height as int) && prev@.len() == cur@.len())
            ==> ({
            let rects = diff_input(prev@, cur@, width, height, config.block_size).changed_rects();
            match plan_kind(
                rects.len() as int,
                total_pixels(rects),
                width * height,
                config.threshold_num as int,
                config.threshold_den as int,
            ) {
                PlanKind::Full => plan is Full,
                PlanKind::Delta => plan matches FramePlan::Delta(delta) && rect_views(delta.rects@)
                    == rects && delta.changed_pixels == total_pixels(rects) && (forall|i: int|
                    0 <= i < delta.rects@.len() ==> (#[trigger] delta.rects@[i]).wf()),
                PlanKind::Idle => plan is Idle,
            }
        }),
{
    if !check_frame_size(cur.len(), width, height) || prev.len() != cur.len() {
        return FramePlan::Full;
    }
    let delta = diff_frames(prev, cur, width, height, config.block_size);
    let kind = classify(
        delta.rects.len(),
        delta.changed_pixels,
        width * height,
        config.threshold_num,
        config.threshold_den,
    );
    match kind {
        PlanKind::Full => FramePlan::Full,
        PlanKind::Delta => FramePlan::Delta(delta),
        PlanKind::Idle => FramePlan::Idle,
    }
}

/// Finds the changed blocks of a frame, with blocks of 128 pixels, and
/// returns their rectangles written out one after the other, their number
/// and the sum of their areas. The previous frame is left as it is.
///
/// Nothing is lost in what is returned: read back, the bytes are the
/// rectangles, and the rectangles written into the previous frame give the
/// current frame. Identical frames give no rectangle; where every block
/// has changed, there is a rectangle for each block of the grid and every
/// pixel of the frame is counted.
///
/// The number is returned in 32 bits, so there must not be more rectangles
/// than that. `lemma_rect_count_bound` shows that there are never more than
/// blocks in the grid, nor than pixels in the frame.
pub fn calculate_frame_changes(
    prev_frame: &mut Vec<u8>,
    width: usize,
    height: usize,
    rgba: &Vec<u8>,
) -> (r: (Vec<u8>, u32, usize))
    requires
        frame_size_ok(rgba@.len() as int, width as int, height as int),
        old(prev_frame)@.len() == rgba@.len(),
        diff_input(old(prev_frame)@, rgba@, width, height, DEFAULT_BLOCK_SIZE).changed_rects().len()
            <= u32::MAX,
    ensures
        final(prev_frame)@ == old(prev_frame)@,
        ({
            let rects = diff_input(
                old(prev_frame)@,
                rgba@,
                width,
                height,
                DEFAULT_BLOCK_SIZE,
            ).changed_rects();
            &&& r.0@ == rects_bytes(rects)
            &&& r.1 == rects.len()
            &&& r.2 == total_pixels(rects)
        }),
        r.0@.len() == 16 * r.1 + 4 * r.2,
        old(prev_frame)@ == rgba@ ==> r.1 == 0 && r.0@.len() == 0 && r.2 == 0,
        (width > 0 && height > 0 && every_block_changed(
            diff_input(old(prev_frame)@, rgba@, width, height, DEFAULT_BLOCK_SIZE),
        )) ==> r.2 == width * height && r.1 == ((width + 127) / 128) * ((height + 127) / 128)
            && r.0@.len() == 16 * r.1 + 4 * (width * height),
        ({
            let rects = diff_input(
                old(prev_frame)@,
                rgba@,
                width,
                height,
                DEFAULT_BLOCK_SIZE,
            ).changed_rects();
            &&& parse_rects(r.0@, r.1 as nat) == Ok::<Seq<RectView>, DeltaError>(rects)
            &&& apply_rects(old(prev_frame)@, width as int, height as int, rects) == rgba@
            &&& count_dropped(width as int, height as int, rects) == 0
        }),
{
    let delta = diff_frames(prev_frame.as_slice(), rgba.as_slice(), width, height, DEFAULT_BLOCK_SIZE);
    let bytes = serialize_rects(&delta.rects);
    proof {
        let views = rect_views(delta.rects@);
        assert forall|i: int| 0 <= i < views.len() implies (#[trigger] views[i]).wf() by {
            assert(delta.rects@[i].wf());
        }
        lemma_rects_bytes_len(views);
        if old(prev_frame)@ == rgba@ {
            lemma_same_frames_no_rects(
                diff_input(old(prev_frame)@, rgba@, width, height, DEFAULT_BLOCK_SIZE),
            );
        }
        let d = diff_input(old(prev_frame)@, rgba@, width, height, DEFAULT_BLOCK_SIZE);
        lemma_records_reproduce_frame(d);
        if width > 0 && height > 0 && every_block_changed(d) {
            lemma_all_blocks_changed_in_full(d);
        }
    }
    (bytes, delta.rects.len() as u32, delta.changed_pixels)
}

/// Within one row of blocks, identical frames yield no rectangle.
proof fn lemma_same_frames_no_row_rects(d: DiffInput, by: int, bx: int)
    requires
        d.prev == d.cur,
    ensures
        d.row_rects_from(by, bx) == Seq::<RectView>::empty(),
    decreases distance(bx, d.width),
{
    if d.block <= 0 || bx < 0 || bx >= d.width {
    } else {
        assert(!d.block_changed(bx, by));
        lemma_same_frames_no_row_rects(d, by, bx + d.block);
    }
}

/// From any row of blocks down, identical frames yield no rectangle.
proof fn lemma_same_frames_no_rects_from(d: DiffInput, by: int)
    requires
        d.prev == d.cur,
    ensures
        d.rects_from(by) == Seq::<RectView>::empty(),
    decreases distance(by, d.height),
{
    if d.block <= 0 || by < 0 || by >= d.height {
    } else {
        lemma_same_frames_no_row_rects(d, by, 0);
        lemma_same_frames_no_rects_from(d, by + d.block);
        assert(d.row_rects_from(by, 0) + d.rects_from(by + d.block) =~= Seq::<RectView>::empty());
    }
}

/// Two frames that are the same byte for byte have no dirty rectangle, so
/// no pixel counts as changed and the capture is classified as idle.
pub proof fn lemma_same_frames_no_rects(d: DiffInput)
    requires
        d.prev == d.cur,
    ensures
        d.changed_rects().len() == 0,
        total_pixels(d.changed_rects()) == 0,
        forall|num: int, den: int|
            num >= 0 && den > 0 && d.width >= 0 && d.height >= 0 ==> #[trigger] plan_kind(
                0,
                0,
                d.width * d.height,
                num,
                den,
            ) == PlanKind::Idle,
{
    lemma_same_frames_no_rects_from(d, 0);
    assert forall|num: int, den: int|
        num >= 0 && den > 0 && d.width >= 0 && d.height >= 0 implies #[trigger] plan_kind(
        0,
        0,
        d.width * d.height,
        num,
        den,
    ) == PlanKind::Idle by {
        assert(d.width * d.height * num >= 0) by (nonlinear_arith)
            requires
                d.width >= 0,
                d.height >= 0,
                num >= 0,
        ;
        assert(0 * den == 0) by (nonlinear_arith);
    }
}

/// Whether the block in column `i` and row `j` of the grid of blocks has
/// changed.
pub open spec fn grid_block_changed(d: DiffInput, i: int, j: int) -> bool {
    d.block_changed(i * d.block, j * d.block)
}

/// Every block of the grid that lies in the frame has changed.
pub open spec fn every_block_changed(d: DiffInput) -> bool {
    forall|i: int, j: int|
        0 <= i && 0 <= j && i * d.block < d.width && j * d.block < d.height
            ==> #[trigger] grid_block_changed(d, i, j)
}

/// Where every block has changed, the rectangles of the rest of a row of
/// blocks cover the rest of that row.
proof fn lemma_changed_row_area(d: DiffInput, i: int, j: int)
    requires
        d.wf(),
        every_block_changed(d),
        0 <= i,
        0 <= j,
        j * d.block < d.height,
    ensures
        total_pixels(d.row_rects_from(j * d.block, i * d.block)) == distance(i * d.block, d.width)
            * block_extent(j * d.block, d.height, d.block),
    decreases distance(i * d.block, d.width),
{
    let bx = i * d.block;
    let by = j * d.block;
    let bh = block_extent(by, d.height, d.block);
    assert(0 <= bx) by (nonlinear_arith)
        requires
            bx == i * d.block,
            0 <= i,
            0 < d.block,
    ;
    if bx >= d.width {
        assert(0 * bh == 0) by (nonlinear_arith);
    } else {
        let bw = block_extent(bx, d.width, d.block);
        assert(grid_block_changed(d, i, j));
        assert((i + 1) * d.block == bx + d.block) by (nonlinear_arith)
            requires
                bx == i * d.block,
        ;
        lemma_changed_row_area(d, i + 1, j);
        let rect = d.block_rect(bx, by);
        let rest = d.row_rects_from(by, bx + d.block);
        lemma_total_pixels_concat(seq![rect], rest);
        assert(seq![rect].drop_last() =~= Seq::<RectView>::empty());
        assert(total_pixels(seq![rect]) == bw * bh);
        assert(bw * bh + distance(bx + d.block, d.width) * bh == distance(bx, d.width) * bh)
            by (nonlinear_arith)
            requires
                bw + distance(bx + d.block, d.width) == distance(bx, d.width),
        ;
    }
}

/// Where every block has changed, the rectangles of the rows of blocks from
/// row `j` down cover the frame from there down.
proof fn lemma_changed_frame_area(d: DiffInput, j: int)
    requires
        d.wf(),
        every_block_changed(d),
        0 <= j,
    ensures
        total_pixels(d.rects_from(j * d.block)) == distance(j * d.block, d.height) * d.width,
    decreases distance(j * d.block, d.height),
{
    let by = j * d.block;
    assert(0 <= by) by (nonlinear_arith)
        requires
            by == j * d.block,
            0 <= j,
            0 < d.block,
    ;
    if by >= d.height {
        assert(0 * d.width == 0) by (nonlinear_arith);
    } else {
        let bh = block_extent(by, d.height, d.block);
        assert((j + 1) * d.block == by + d.block) by (nonlinear_arith)
            requires
                by == j * d.block,
        ;
        assert(0 * d.block == 0) by (nonlinear_arith);
        lemma_changed_row_area(d, 0, j);
        lemma_changed_frame_area(d, j + 1);
        lemma_total_pixels_concat(d.row_rects_from(by, 0), d.rects_from(by + d.block));
        assert(d.width * bh + distance(by + d.block, d.height) * d.width == distance(by, d.height)
            * d.width) by (nonlinear_arith)
            requires
                bh + distance(by + d.block, d.height) == distance(by, d.height),
        ;
    }
}

/// Where every block of a frame has changed, the changed pixels are all the
/// pixels of the frame, so the changed share is one, and with any threshold
/// below one the whole frame is sent.
pub proof fn lemma_all_blocks_changed(d: DiffInput, num: int, den: int)
    requires
        d.wf(),
        d.width > 0,
        d.height > 0,
        every_block_changed(d),
        0 <= num < den,
    ensures
        total_pixels(d.changed_rects()) == d.width * d.height,
        plan_kind(
            d.changed_rects().len() as int,
            total_pixels(d.changed_rects()),
            d.width * d.height,
            num,
            den,
        ) == PlanKind::Full,
{
    assert(0 * d.block == 0) by (nonlinear_arith);
    lemma_changed_frame_area(d, 0);
    assert(d.height * d.width == d.width * d.height) by (nonlinear_arith);
    assert((d.width * d.height) * den > (d.width * d.height) * num) by (nonlinear_arith)
        requires
            d.width > 0,
            d.height > 0,
            num < den,
    ;
}

/// How many blocks of edge `block` lie between `pos` and `limit`, the last
/// one clipped.
pub open spec fn blocks_from(pos: int, limit: int, block: int) -> int
    decreases distance(pos, limit),
{
    if block <= 0 || pos >= limit {
        0
    } else {
        1 + blocks_from(pos + block, limit, block)
    }
}

impl DiffInput {
    /// The number of blocks in the grid of the frame.
    pub open spec fn grid_blocks(self) -> int {
        blocks_from(0, self.width, self.block) * blocks_from(0, self.height, self.block)
    }
}

/// The number of blocks along a side is the length of the side divided by
/// the edge of a block, rounded up; it is no more than the length.
pub proof fn lemma_blocks_from(pos: int, limit: int, block: int)
    requires
        block > 0,
    ensures
        blocks_from(pos, limit, block) == (distance(pos, limit) + block - 1) / block,
        0 <= blocks_from(pos, limit, block) <= distance(pos, limit),
    decreases distance(pos, limit),
{
    let dist = distance(pos, limit) as int;
    if pos >= limit {
        assert((block - 1) / block == 0) by (nonlinear_arith)
            requires
                block > 0,
        ;
    } else {
        lemma_blocks_from(pos + block, limit, block);
        if dist > block {
            assert((dist - block + block - 1) / block + 1 == (dist + block - 1) / block)
                by (nonlinear_arith)
                requires
                    block > 0,
                    dist > block,
            ;
        } else {
            assert((dist + block - 1) / block == 1) by (nonlinear_arith)
                requires
                    block > 0,
                    0 < dist <= block,
            ;
        }
    }
}

/// A row of blocks yields at most one rectangle for each of its blocks.
proof fn lemma_row_count(d: DiffInput, by: int, bx: int)
    requires
        d.block > 0,
        bx >= 0,
    ensures
        d.row_rects_from(by, bx).len() <= blocks_from(bx, d.width, d.block),
    decreases distance(bx, d.width),
{
    if bx < d.width {
        lemma_row_count(d, by, bx + d.block);
    }
}

/// The rows of blocks from `by` down yield at most one rectangle for each
/// of their blocks.
proof fn lemma_count_from(d: DiffInput, by: int)
    requires
        d.block > 0,
        by >= 0,
    ensures
        d.rects_from(by).len() <= blocks_from(by, d.height, d.block) * blocks_from(
            0,
            d.width,
            d.block,
        ),
    decreases distance(by, d.height),
{
    let across = blocks_from(0, d.width, d.block);
    if by < d.height {
        lemma_row_count(d, by, 0);
        lemma_count_from(d, by + d.block);
        let below = blocks_from(by + d.block, d.height, d.block);
        assert((1 + below) * across == across + below * across) by (nonlinear_arith);
    } else {
        assert(0 * across == 0) by (nonlinear_arith);
    }
}

/// There are never more rectangles than blocks in the grid, and never more
/// blocks than pixels. So the rectangles of every frame of at most
/// `u32::MAX` pixels, and of every frame whose grid has at most `u32::MAX`
/// blocks, can be counted in 32 bits.
pub proof fn lemma_rect_count_bound(d: DiffInput)
    requires
        d.block > 0,
        d.width >= 0,
        d.height >= 0,
    ensures
        d.changed_rects().len() <= d.grid_blocks(),
        d.grid_blocks() == ((d.width + d.block - 1) / d.block) * ((d.height + d.block - 1) / d.block),
        d.grid_blocks() <= d.width * d.height,
{
    lemma_count_from(d, 0);
    lemma_blocks_from(0, d.width, d.block);
    lemma_blocks_from(0, d.height, d.block);
    let across = blocks_from(0, d.width, d.block);
    let down = blocks_from(0, d.height, d.block);
    assert(across * down == down * across) by (nonlinear_arith);
    assert(across * down <= d.width * d.height) by (nonlinear_arith)
        requires
            0 <= across <= d.width,
            0 <= down <= d.height,
    ;
}

/// Where every block has changed, a row of blocks yields one rectangle for
/// each of its blocks.
proof fn lemma_changed_row_count(d: DiffInput, i: int, j: int)
    requires
        d.wf(),
        every_block_changed(d),
        0 <= i,
        0 <= j,
        j * d.block < d.height,
    ensures
        d.row_rects_from(j * d.block, i * d.block).len() == blocks_from(i * d.block, d.width, d.block),
    decreases distance(i * d.block, d.width),
{
    let bx = i * d.block;
    assert(0 <= bx) by (nonlinear_arith)
        requires
            bx == i * d.block,
            0 <= i,
            0 < d.block,
    ;
    if bx < d.width {
        assert(grid_block_changed(d, i, j));
        assert((i + 1) * d.block == bx + d.block) by (nonlinear_arith)
            requires
                bx == i * d.block,
        ;
        lemma_changed_row_count(d, i + 1, j);
    }
}

/// Where every block has changed, the rows of blocks from row `j` down
/// yield one rectangle for each of their blocks.
proof fn lemma_changed_count_from(d: DiffInput, j: int)
    requires
        d.wf(),
        every_block_changed(d),
        0 <= j,
    ensures
        d.rects_from(j * d.block).len() == blocks_from(j * d.block, d.height, d.block) * blocks_from(
            0,
            d.width,
            d.block,
        ),
    decreases distance(j * d.block, d.height),
{
    let by = j * d.block;
    let across = blocks_from(0, d.width, d.block);
    assert(0 <= by) by (nonlinear_arith)
        requires
            by == j * d.block,
            0 <= j,
            0 < d.block,
    ;
    if by < d.height {
        assert((j + 1) * d.block == by + d.block) by (nonlinear_arith)
            requires
                by == j * d.block,
        ;
        assert(0 * d.block == 0) by (nonlinear_arith);
        lemma_changed_row_count(d, 0, j);
        lemma_changed_count_from(d, j + 1);
        let below = blocks_from(by + d.block, d.height, d.block);
        assert((1 + below) * across == across + below * across) by (nonlinear_arith);
    } else {
        assert(0 * across == 0) by (nonlinear_arith);
    }
}

/// Where every block of a frame has changed, there is one rectangle for
/// each block of the grid: the width divided by the edge of a block,
/// rounded up, times the same of the height.
pub proof fn lemma_all_blocks_counted(d: DiffInput)
    requires
        d.wf(),
        every_block_changed(d),
    ensures
        d.changed_rects().len() == d.grid_blocks(),
        d.grid_blocks() == ((d.width + d.block - 1) / d.block) * ((d.height + d.block - 1) / d.block),
{
    assert(0 * d.block == 0) by (nonlinear_arith);
    lemma_changed_count_from(d, 0);
    lemma_rect_count_bound(d);
    let across = blocks_from(0, d.width, d.block);
    let down = blocks_from(0, d.height, d.block);
    assert(across * down == down * across) by (nonlinear_arith);
}

/// The area of a list of rectangles is that of its first rectangle and that
/// of the rest.
pub proof fn lemma_total_pixels_first(rects: Seq<RectView>)
    requires
        rects.len() > 0,
    ensures
        total_pixels(rects) == rects.first().w * rects.first().h + total_pixels(rects.drop_first()),
{
    let one = seq![rects.first()];
    lemma_total_pixels_concat(one, rects.drop_first());
    assert(one + rects.drop_first() =~= rects);
    assert(one.drop_last() =~= Seq::<RectView>::empty());
    assert(one.last() == rects.first());
    assert(total_pixels(one.drop_last()) == 0);
    assert(total_pixels(one) == rects.first().w * rects.first().h);
}

} // verus!
