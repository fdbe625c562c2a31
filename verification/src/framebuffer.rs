//! The client's copy of the remote screen. Whole frames replace it; dirty
//! rectangles are written into it row by row.

use vstd::prelude::*;
use vstd::slice::slice_to_vec;
use crate::delta::DirtyRect;
use crate::delta::RectView;
use crate::delta::rect_views;
use crate::present::can_resample;

verus! {

/// Why a frame could not be taken in.
#[derive(Debug, Copy, Clone, PartialEq, Eq, Structural)]
pub enum FrameError {
    /// The pixel data is not `width * height * 4` bytes long.
    InvalidLength,
}

/// An RGBA image of known size.
#[derive(Debug)]
pub struct Framebuffer {
    width: u32,
    height: u32,
    rgba: Vec<u8>,
}

/// What a framebuffer holds, apart from how it is stored.
pub struct FramebufferView {
    pub width: int,
    pub height: int,
    pub pixels: Seq<u8>,
}

impl View for Framebuffer {
    type V = FramebufferView;

    closed spec fn view(&self) -> FramebufferView {
        FramebufferView { width: self.width as int, height: self.height as int, pixels: self.rgba@ }
    }
}

/// `frame` with the bytes from `at` on replaced by `data`.
pub open spec fn overwrite(frame: Seq<u8>, at: int, data: Seq<u8>) -> Seq<u8> {
    frame.subrange(0, at) + data + frame.subrange(at + data.len(), frame.len() as int)
}

/// `frame` with the first `n` rows of the rectangle written into it: row `i`
/// of the rectangle's pixels, which lie one after the other, goes to row
/// `r.y + i` of the frame, from column `r.x` on.
pub open spec fn write_rows(frame: Seq<u8>, width: int, r: RectView, n: int) -> Seq<u8>
    decreases n,
{
    if n <= 0 {
        frame
    } else {
        overwrite(
            write_rows(frame, width, r, n - 1),
            ((r.y + n - 1) * width + r.x) * 4,
            r.pixels.subrange(((n - 1) * r.w) * 4, ((n - 1) * r.w) * 4 + r.w * 4),
        )
    }
}

/// Whether a rectangle can be written into a frame of the given size: its
/// pixel data has the length that its size gives, and it lies inside the
/// frame.
pub open spec fn applicable(r: RectView, width: int, height: int) -> bool {
    r.wf() && r.fits(width, height)
}

/// `frame` with the rectangle written into it; unchanged where the rectangle
/// cannot be written.
pub open spec fn apply_rect(frame: Seq<u8>, width: int, height: int, r: RectView) -> Seq<u8> {
    if applicable(r, width, height) {
        write_rows(frame, width, r, r.h)
    } else {
        frame
    }
}

/// `frame` with the rectangles written into it, the first one first.
pub open spec fn apply_rects(frame: Seq<u8>, width: int, height: int, rects: Seq<RectView>) -> Seq<u8>
    decreases rects.len(),
{
    if rects.len() == 0 {
        frame
    } else {
        apply_rects(apply_rect(frame, width, height, rects.first()), width, height, rects.drop_first())
    }
}

/// How many of the rectangles cannot be written into a frame of the given
/// size.
pub open spec fn count_dropped(width: int, height: int, rects: Seq<RectView>) -> int
    decreases rects.len(),
{
    if rects.len() == 0 {
        0
    } else {
        count_dropped(width, height, rects.drop_first()) + if applicable(
            rects.first(),
            width,
            height,
        ) {
            0int
        } else {
            1int
        }
    }
}

/// Offsets of the rows of an applicable rectangle stay inside the frame and
/// inside the rectangle's pixel data.
pub proof fn lemma_rect_row_bounds(width: int, height: int, r: RectView, row: int)
    requires
        applicable(r, width, height),
        0 <= row < r.h,
    ensures
        0 <= ((r.y + row) * width + r.x) * 4,
        ((r.y + row) * width + r.x) * 4 + r.w * 4 <= width * height * 4,
        0 <= (row * r.w) * 4,
        (row * r.w) * 4 + r.w * 4 <= r.pixels.len(),
        ((row + 1) * r.w) * 4 == (row * r.w) * 4 + r.w * 4,
{
    assert(0 <= (r.y + row) * width) by (nonlinear_arith)
        requires
            0 <= r.y + row,
            0 <= width,
    ;
    assert((r.y + row) * width + width <= height * width) by (nonlinear_arith)
        requires
            r.y + row + 1 <= height,
            0 <= width,
    ;
    assert(height * width == width * height) by (nonlinear_arith);
    assert(0 <= row * r.w) by (nonlinear_arith)
        requires
            0 <= row,
            0 <= r.w,
    ;
    assert(row * r.w + r.w <= r.h * r.w) by (nonlinear_arith)
        requires
            row + 1 <= r.h,
            0 <= r.w,
    ;
    assert(r.h * r.w == r.w * r.h) by (nonlinear_arith);
    assert((row + 1) * r.w == row * r.w + r.w) by (nonlinear_arith);
}

/// Copies `len` bytes of `src`, from `from` on, over the bytes of `dst` from
/// `at` on.
fn copy_into(dst: &mut Vec<u8>, at: usize, src: &[u8], from: usize, len: usize)
    requires
        at + len <= old(dst).len(),
        from + len <= src.len(),
    ensures
        final(dst)@ == overwrite(old(dst)@, at as int, src@.subrange(from as int, from + len)),
{
    let mut i: usize = 0;
    while i < len
        invariant
            i <= len,
            dst.len() == old(dst).len(),
            at + len <= dst.len(),
            from + len <= src.len(),
            forall|k: int|
                0 <= k < dst@.len() ==> dst@[k] == if at <= k < at + i {
                    src@[from + k - at]
                } else {
                    old(dst)@[k]
                },
        decreases len - i,
    {
        dst.set(at + i, src[from + i]);
        i = i + 1;
    }
    assert(dst@ =~= overwrite(old(dst)@, at as int, src@.subrange(from as int, from + len)));
}

impl Framebuffer {
    /// The buffer holds exactly `width * height` pixels of four bytes.
    pub open spec fn wf(&self) -> bool {
        self@.pixels.len() == self@.width * self@.height * 4
    }

    /// Whether the image can be resampled to a surface of the given size.
    pub open spec fn fits_surface(&self, surface_width: u32, surface_height: u32) -> bool {
        0 <= self@.width <= u32::MAX && 0 <= self@.height <= u32::MAX && can_resample(
            self@.width as u32,
            self@.height as u32,
            surface_width,
            surface_height,
        )
    }

    /// A framebuffer of no extent, as it stands before the first frame.
    pub fn new() -> (fb: Self)
        ensures
            fb.wf(),
            fb@ == (FramebufferView { width: 0, height: 0, pixels: Seq::empty() }),
    {
        Framebuffer { width: 0, height: 0, rgba: Vec::new() }
    }

    /// Width in pixels.
    pub fn width(&self) -> (w: u32)
        ensures
            w == self@.width,
    {
        self.width
    }

    /// Height in pixels.
    pub fn height(&self) -> (h: u32)
        ensures
            h == self@.height,
    {
        self.height
    }

    /// The pixels, row after row, four bytes each.
    pub fn pixels(&self) -> (p: &[u8])
        ensures
            p@ == self@.pixels,
    {
        self.rgba.as_slice()
    }

    /// Replaces the framebuffer by a whole frame, taking on its dimensions.
    ///
    /// Fails, and changes nothing, exactly when the pixel data is not
    /// `width * height * 4` bytes long.
    pub fn apply_full(&mut self, width: u32, height: u32, rgba: &[u8]) -> (r: Result<(), FrameError>)
        requires
            old(self).wf(),
        ensures
            final(self).wf(),
            rgba@.len() == width * height * 4 ==> r is Ok && final(self)@ == (FramebufferView {
                width: width as int,
                height: height as int,
                pixels: rgba@,
            }),
            rgba@.len() != width * height * 4 ==> r == Err::<(), FrameError>(FrameError::InvalidLength)
                && final(self)@ == old(self)@,
    {
        assert(width * height * 4 <= u128::MAX) by (nonlinear_arith)
            requires
                width <= u32::MAX,
                height <= u32::MAX,
        ;
        assert(width * height <= u128::MAX) by (nonlinear_arith)
            requires
                width <= u32::MAX,
                height <= u32::MAX,
        ;
        let need: u128 = (width as u128) * (height as u128) * 4;
        if need != rgba.len() as u128 {
            return Err(FrameError::InvalidLength);
        }
        self.width = width;
        self.height = height;
        self.rgba = slice_to_vec(rgba);
        Ok(())
    }

    /// Whether the rectangle can be written into this framebuffer.
    pub fn accepts(&self, rect: &DirtyRect) -> (ok: bool)
        requires
            self.wf(),
        ensures
            ok == applicable(rect@, self@.width, self@.height),
    {
        if rect.x as u64 + rect.w as u64 > self.width as u64 {
            return false;
        }
        if rect.y as u64 + rect.h as u64 > self.height as u64 {
            return false;
        }
        assert(rect.w * rect.h <= rect.w * rect.h * 4 <= self.width * self.height * 4)
            by (nonlinear_arith)
            requires
                0 <= rect.w <= self.width,
                0 <= rect.h <= self.height,
        ;
        assert(self.rgba.len() == self.width * self.height * 4);
        let need: usize = (rect.w as usize) * (rect.h as usize) * 4;
        rect.pixels.len() == need
    }

    /// Writes one rectangle into the framebuffer: its rows lie one after the
    /// other in the rectangle's data and go to rows of the framebuffer that
    /// are a full frame width apart. A rectangle that does not fit, or whose
    /// data has the wrong length, is dropped; the result says whether it was
    /// written.
    pub fn apply_rect(&mut self, rect: &DirtyRect) -> (written: bool)
        requires
            old(self).wf(),
        ensures
            final(self).wf(),
            final(self)@.width == old(self)@.width,
            final(self)@.height == old(self)@.height,
            final(self)@.pixels == apply_rect(
                old(self)@.pixels,
                old(self)@.width,
                old(self)@.height,
                rect@,
            ),
            written == applicable(rect@, old(self)@.width, old(self)@.height),
    {
        if !self.accepts(rect) {
            return false;
        }
        let ghost start = self.rgba@;
        let ghost fw = self.width as int;
        let ghost fh = self.height as int;
        let w: usize = rect.w as usize;
        let h: usize = rect.h as usize;
        let x: usize = rect.x as usize;
        let y: usize = rect.y as usize;
        let stride: usize = self.width as usize;
        let mut row: usize = 0;
        while row < h
            invariant
                row <= h,
                w == rect.w,
                h == rect.h,
                x == rect.x,
                y == rect.y,
                stride == self.width,
                fw == self.width,
                fh == self.height,
                self.width == old(self).width,
                self.height == old(self).height,
                start.len() == fw * fh * 4,
                applicable(rect@, fw, fh),
                self.rgba@ == write_rows(start, fw, rect@, row as int),
                self.rgba.len() == start.len(),
                rect.pixels.len() == rect@.pixels.len(),
            decreases h - row,
        {
            proof {
                lemma_rect_row_bounds(fw, fh, rect@, row as int);
                assert((y + row) * stride == (rect@.y + row) * fw);
                assert(row * w == row * rect@.w);
                assert(0 <= (y + row) * stride) by (nonlinear_arith);
                assert(0 <= row * w) by (nonlinear_arith);
            }
            let dst: usize = ((y + row) * stride + x) * 4;
            let src: usize = (row * w) * 4;
            copy_into(&mut self.rgba, dst, rect.pixels.as_slice(), src, w * 4);
            row = row + 1;
        }
        true
    }

    /// Writes the rectangles into the framebuffer, in order, and returns how
    /// many of them were dropped because they do not fit. All of them are
    /// dealt with before the call returns, so what is presented afterwards
    /// never shows part of a batch.
    pub fn apply_delta(&mut self, rects: &Vec<DirtyRect>) -> (dropped: usize)
        requires
            old(self).wf(),
        ensures
            final(self).wf(),
            final(self)@.width == old(self)@.width,
            final(self)@.height == old(self)@.height,
            final(self)@.pixels == apply_rects(
                old(self)@.pixels,
                old(self)@.width,
                old(self)@.height,
                rect_views(rects@),
            ),
            dropped == count_dropped(old(self)@.width, old(self)@.height, rect_views(rects@)),
    {
        let ghost all = rect_views(rects@);
        let ghost start = self.rgba@;
        let ghost fw = self.width as int;
        let ghost fh = self.height as int;
        let mut dropped: usize = 0;
        let mut i: usize = 0;
        assert(all.skip(0) =~= all);
        while i < rects.len()
            invariant
                i <= rects.len(),
                all == rect_views(rects@),
                self.wf(),
                self@.width == fw,
                self@.height == fh,
                dropped <= i,
                apply_rects(start, fw, fh, all) == apply_rects(self@.pixels, fw, fh, all.skip(i as int)),
                count_dropped(fw, fh, all) == dropped + count_dropped(fw, fh, all.skip(i as int)),
            decreases rects.len() - i,
        {
            proof {
                let tail = all.skip(i as int);
                assert(tail.first() == rects@[i as int]@);
                assert(tail.drop_first() =~= all.skip(i + 1));
            }
            let written = self.apply_rect(&rects[i]);
            if !written {
                dropped = dropped + 1;
            }
            i = i + 1;
        }
        dropped
    }
}

} // verus!
