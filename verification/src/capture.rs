//! The capture side: the capability that yields frames, and the repacking of
//! what a platform hands over (rows with padding, blue before red) into
//! tightly packed RGBA.

use vstd::prelude::*;
use vstd::slice::slice_subrange;
use vstd::slice::slice_to_vec;

verus! {

/// Why no frame was captured.
#[derive(Debug, Copy, Clone, PartialEq, Eq, Structural)]
pub enum CaptureError {
    /// This build has no capture backend for the platform.
    Unsupported,
    /// The backend failed to deliver a frame.
    Failed,
}

/// A source of frames: width, height and tightly packed RGBA bytes.
pub trait ScreenCapturer {
    fn capture_frame(&mut self) -> Result<(u32, u32, Vec<u8>), CaptureError>;
}

/// The capturer of platforms without a backend. It never yields a frame.
#[derive(Debug)]
pub struct StubCapturer;

impl StubCapturer {
    /// Creating the stub always succeeds.
    pub fn new() -> (r: Result<Self, CaptureError>)
        ensures
            r is Ok,
    {
        Ok(StubCapturer)
    }
}

impl ScreenCapturer for StubCapturer {
    /// Always reports that capture is not supported.
    fn capture_frame(&mut self) -> (r: Result<(u32, u32, Vec<u8>), CaptureError>)
        ensures
            r == Err::<(u32, u32, Vec<u8>), CaptureError>(CaptureError::Unsupported),
    {
        Err(CaptureError::Unsupported)
    }
}

/// The first `row_len` bytes of each of `rows` rows that begin `stride`
/// bytes apart, one after the other.
pub open spec fn packed_rows(data: Seq<u8>, stride: int, row_len: int, rows: int) -> Seq<u8>
    decreases rows,
{
    if rows <= 0 {
        Seq::empty()
    } else {
        packed_rows(data, stride, row_len, rows - 1) + data.subrange(
            (rows - 1) * stride,
            (rows - 1) * stride + row_len,
        )
    }
}

/// Whether `rows` rows of `row_len` bytes that begin `stride` bytes apart
/// lie inside `len` bytes.
pub open spec fn rows_fit(len: int, stride: int, row_len: int, rows: int) -> bool {
    rows <= 0 || (rows - 1) * stride + row_len <= len
}

/// Tests `rows_fit` without overflow.
pub fn check_rows_fit(len: usize, stride: usize, row_len: usize, rows: usize) -> (ok: bool)
    ensures
        ok == rows_fit(len as int, stride as int, row_len as int, rows as int),
{
    if rows == 0 {
        return true;
    }
    assert((rows - 1) * stride + row_len <= u128::MAX) by (nonlinear_arith)
        requires
            0 <= rows - 1 <= u64::MAX,
            0 <= stride <= u64::MAX,
            0 <= row_len <= u64::MAX,
    ;
    assert((rows - 1) * stride <= u128::MAX) by (nonlinear_arith)
        requires
            0 <= rows - 1 <= u64::MAX,
            0 <= stride <= u64::MAX,
    ;
    let need: u128 = ((rows - 1) as u128) * (stride as u128) + row_len as u128;
    need <= len as u128
}

/// `s` with the first and the third byte of every group of four exchanged.
pub open spec fn red_blue_swapped(s: Seq<u8>) -> Seq<u8> {
    Seq::new(
        s.len(),
        |k: int|
            if k % 4 == 0 && k + 2 < s.len() {
                s[k + 2]
            } else if k % 4 == 2 {
                s[k - 2]
            } else {
                s[k]
            },
    )
}

/// Removes the padding at the end of each row: from rows that begin
/// `bytes_per_row` bytes apart, keeps the `width * 4` bytes of pixels.
pub fn strip_row_padding(data: &[u8], width: usize, height: usize, bytes_per_row: usize) -> (out: Vec<u8>)
    requires
        width * 4 <= usize::MAX,
        rows_fit(data.len() as int, bytes_per_row as int, width * 4, height as int),
    ensures
        out@ == packed_rows(data@, bytes_per_row as int, width * 4, height as int),
        out@.len() == height * (width * 4),
{
    let row_len: usize = width * 4;
    let mut out: Vec<u8> = Vec::new();
    let mut y: usize = 0;
    assert(0 * (width * 4) == 0) by (nonlinear_arith);
    while y < height
        invariant
            y <= height,
            row_len == width * 4,
            rows_fit(data.len() as int, bytes_per_row as int, row_len as int, height as int),
            out@ == packed_rows(data@, bytes_per_row as int, row_len as int, y as int),
            out@.len() == y * row_len,
        decreases height - y,
    {
        proof {
            assert(0 <= y * bytes_per_row <= (height - 1) * bytes_per_row) by (nonlinear_arith)
                requires
                    0 <= y <= height - 1,
                    0 <= bytes_per_row,
            ;
            assert((y + 1) * row_len == y * row_len + row_len) by (nonlinear_arith);
        }
        let start: usize = y * bytes_per_row;
        let mut line = slice_to_vec(slice_subrange(data, start, start + row_len));
        out.append(&mut line);
        y = y + 1;
    }
    out
}

/// Exchanges red and blue in place: the first and the third byte of every
/// pixel change places.
pub fn swap_red_blue(buf: &mut Vec<u8>)
    requires
        old(buf)@.len() % 4 == 0,
    ensures
        final(buf)@ == red_blue_swapped(old(buf)@),
{
    let n: usize = buf.len();
    let mut i: usize = 0;
    while i < n
        invariant
            n == buf.len(),
            n == old(buf).len(),
            n % 4 == 0,
            i % 4 == 0,
            i <= n,
            forall|k: int|
                0 <= k < n ==> buf@[k] == if k < i {
                    red_blue_swapped(old(buf)@)[k]
                } else {
                    old(buf)@[k]
                },
        decreases n - i,
    {
        let first = buf[i];
        let third = buf[i + 2];
        buf.set(i, third);
        buf.set(i + 2, first);
        i = i + 4;
    }
    assert(buf@ =~= red_blue_swapped(old(buf)@));
}

/// Repacks a captured image whose rows begin `stride` bytes apart and whose
/// pixels are stored blue first: the padding goes, and red and blue change
/// places.
pub fn bgra_to_rgba(bytes: &[u8], width: usize, height: usize, stride: usize) -> (out: Vec<u8>)
    requires
        width * 4 <= usize::MAX,
        rows_fit(bytes.len() as int, stride as int, width * 4, height as int),
    ensures
        out@ == red_blue_swapped(packed_rows(bytes@, stride as int, width * 4, height as int)),
        out@.len() == height * (width * 4),
{
    let mut out = strip_row_padding(bytes, width, height, stride);
    assert(height * (width * 4) == (height * width) * 4) by (nonlinear_arith);
    swap_red_blue(&mut out);
    out
}

} // verus!
