//! The delta payload as it stands before compression: the number of
//! rectangles as a big-endian `u32`, then for each rectangle its x, y, width
//! and height as big-endian `u32` and its pixels, with nothing in between.

use vstd::prelude::*;
use vstd::slice::slice_subrange;
use vstd::slice::slice_to_vec;
use crate::delta::DirtyRect;
use crate::delta::RectView;
use crate::delta::lemma_total_pixels_first;
use crate::delta::rect_views;
use crate::delta::total_pixels;
use crate::wire::be_bytes;
use crate::wire::be_value;
use crate::wire::get_u32_be;
use crate::wire::lemma_be_round_trip;
use crate::wire::put_u32_be;

verus! {

/// Bytes in the header of one rectangle: x, y, w and h as big-endian `u32`.
pub const RECT_HEADER_LEN: usize = 16;

/// The bytes of one rectangle in a delta payload: its header, then its
/// pixels.
pub open spec fn rect_bytes(r: RectView) -> Seq<u8> {
    be_bytes(r.x as u32) + be_bytes(r.y as u32) + be_bytes(r.w as u32) + be_bytes(r.h as u32)
        + r.pixels
}

/// The bytes of a list of rectangles, one after the other with nothing
/// between them.
pub open spec fn rects_bytes(rects: Seq<RectView>) -> Seq<u8>
    decreases rects.len(),
{
    if rects.len() == 0 {
        Seq::empty()
    } else {
        rect_bytes(rects.first()) + rects_bytes(rects.drop_first())
    }
}

/// A delta payload before compression: the number of rectangles as a
/// big-endian `u32`, then the rectangles.
pub open spec fn delta_payload(rects: Seq<RectView>) -> Seq<u8>
    recommends
        rects.len() <= u32::MAX,
{
    be_bytes(rects.len() as u32) + rects_bytes(rects)
}

/// Why a delta payload could not be read.
#[derive(Debug, Copy, Clone, PartialEq, Eq, Structural)]
pub enum DeltaError {
    /// The payload ends before the rectangle count is complete.
    TruncatedCount,
    /// The payload ends inside the header of a rectangle that the count
    /// announces.
    TruncatedRect,
    /// The payload ends inside the pixels of a rectangle.
    TruncatedPixels,
}

/// Reads `count` rectangles from the front of `bytes`. Bytes behind the last
/// rectangle are ignored.
pub open spec fn parse_rects(bytes: Seq<u8>, count: nat) -> Result<Seq<RectView>, DeltaError>
    decreases count,
{
    if count == 0 {
        Ok(Seq::empty())
    } else if bytes.len() < RECT_HEADER_LEN {
        Err(DeltaError::TruncatedRect)
    } else {
        let w = be_value(bytes.subrange(8, 12)) as int;
        let h = be_value(bytes.subrange(12, 16)) as int;
        let end = RECT_HEADER_LEN + w * h * 4;
        if bytes.len() < end {
            Err(DeltaError::TruncatedPixels)
        } else {
            let rect = RectView {
                x: be_value(bytes.subrange(0, 4)) as int,
                y: be_value(bytes.subrange(4, 8)) as int,
                w,
                h,
                pixels: bytes.subrange(RECT_HEADER_LEN as int, end),
            };
            match parse_rects(bytes.skip(end), (count - 1) as nat) {
                Ok(rest) => Ok(seq![rect] + rest),
                Err(e) => Err(e),
            }
        }
    }
}

/// Reads a delta payload: the count, then that many rectangles.
pub open spec fn parse_delta(payload: Seq<u8>) -> Result<Seq<RectView>, DeltaError> {
    if payload.len() < 4 {
        Err(DeltaError::TruncatedCount)
    } else {
        parse_rects(payload.skip(4), be_value(payload.subrange(0, 4)) as nat)
    }
}

/// Writes one rectangle behind what `out` holds: its header, then its
/// pixels.
pub fn write_rect(out: &mut Vec<u8>, rect: &DirtyRect)
    ensures
        final(out)@ == old(out)@ + rect_bytes(rect@),
        final(out)@.len() == old(out)@.len() + RECT_HEADER_LEN + rect@.pixels.len(),
{
    put_u32_be(out, rect.x);
    put_u32_be(out, rect.y);
    put_u32_be(out, rect.w);
    put_u32_be(out, rect.h);
    let mut pixels = slice_to_vec(rect.pixels.as_slice());
    out.append(&mut pixels);
    assert(out@ =~= old(out)@ + rect_bytes(rect@));
}

/// Writes the rectangles out one after the other, each as its header and its
/// pixels.
pub fn serialize_rects(rects: &Vec<DirtyRect>) -> (out: Vec<u8>)
    ensures
        out@ == rects_bytes(rect_views(rects@)),
{
    let ghost all = rect_views(rects@);
    let mut out: Vec<u8> = Vec::new();
    let mut i: usize = 0;
    assert(all.skip(0) =~= all);
    while i < rects.len()
        invariant
            i <= rects.len(),
            all == rect_views(rects@),
            rects_bytes(all) == out@ + rects_bytes(all.skip(i as int)),
        decreases rects.len() - i,
    {
        let rect = &rects[i];
        let ghost before = out@;
        write_rect(&mut out, rect);
        proof {
            let tail = all.skip(i as int);
            assert(tail.first() == rect@);
            assert(tail.drop_first() =~= all.skip(i + 1));
            assert(before + (rect_bytes(rect@) + rects_bytes(all.skip(i + 1))) =~= before + rect_bytes(
                rect@,
            ) + rects_bytes(all.skip(i + 1)));
        }
        i = i + 1;
    }
    assert(out@ + rects_bytes(all.skip(i as int)) =~= out@);
    out
}

/// Builds the payload of a delta message, before compression: the count,
/// then the rectangles. Returns `None` exactly when there are more
/// rectangles than the count field can say.
pub fn encode_delta(rects: &Vec<DirtyRect>) -> (out: Option<Vec<u8>>)
    ensures
        rects@.len() <= u32::MAX ==> (out matches Some(bytes) && bytes@ == delta_payload(
            rect_views(rects@),
        )),
        rects@.len() > u32::MAX ==> out is None,
{
    if rects.len() > 0xFFFF_FFFF {
        return None;
    }
    let mut out: Vec<u8> = Vec::new();
    put_u32_be(&mut out, rects.len() as u32);
    let mut body = serialize_rects(rects);
    out.append(&mut body);
    assert(out@ =~= delta_payload(rect_views(rects@)));
    Some(out)
}

/// Reads a delta payload into its rectangles.
///
/// The payload is a protocol violation, and nothing is returned, when it
/// ends before the count, inside a rectangle header or inside the pixels of
/// a rectangle. Bytes behind the last announced rectangle are ignored.
pub fn parse_delta_payload(payload: &[u8]) -> (r: Result<Vec<DirtyRect>, DeltaError>)
    ensures
        match r {
            Ok(rects) => parse_delta(payload@) == Ok::<Seq<RectView>, DeltaError>(rect_views(rects@))
                && forall|i: int| 0 <= i < rects@.len() ==> (#[trigger] rects@[i]).wf(),
            Err(e) => parse_delta(payload@) == Err::<Seq<RectView>, DeltaError>(e),
        },
{
    if payload.len() < 4 {
        return Err(DeltaError::TruncatedCount);
    }
    let count = get_u32_be(payload, 0);
    let ghost all = payload@;
    let mut rects: Vec<DirtyRect> = Vec::new();
    let mut pos: usize = 4;
    let mut done: u32 = 0;
    assert(rect_views(rects@) =~= Seq::<RectView>::empty());
    assert(parse_delta(all) == parse_rects(all.skip(4), count as nat));
    while done < count
        invariant
            all == payload@,
            4 <= pos <= all.len(),
            done <= count,
            forall|i: int| 0 <= i < rects@.len() ==> (#[trigger] rects@[i]).wf(),
            parse_delta(all) == match parse_rects(all.skip(pos as int), (count - done) as nat) {
                Ok(rest) => Ok::<Seq<RectView>, DeltaError>(rect_views(rects@) + rest),
                Err(e) => Err(e),
            },
        decreases count - done,
    {
        let ghost tail = all.skip(pos as int);
        let ghost before = rect_views(rects@);
        if payload.len() - pos < RECT_HEADER_LEN {
            return Err(DeltaError::TruncatedRect);
        }
        proof {
            assert(tail.subrange(0, 4) =~= all.subrange(pos as int, pos + 4));
            assert(tail.subrange(4, 8) =~= all.subrange(pos + 4, pos + 8));
            assert(tail.subrange(8, 12) =~= all.subrange(pos + 8, pos + 12));
            assert(tail.subrange(12, 16) =~= all.subrange(pos + 12, pos + 16));
        }
        let x = get_u32_be(payload, pos);
        let y = get_u32_be(payload, pos + 4);
        let w = get_u32_be(payload, pos + 8);
        let h = get_u32_be(payload, pos + 12);
        assert(w * h <= u64::MAX) by (nonlinear_arith)
            requires
                w <= u32::MAX,
                h <= u32::MAX,
        ;
        let area: u64 = (w as u64) * (h as u64);
        let room: u64 = (payload.len() - pos - RECT_HEADER_LEN) as u64;
        assert(w * h * 4 == area * 4) by (nonlinear_arith)
            requires
                area == w * h,
        ;
        if area > room / 4 {
            return Err(DeltaError::TruncatedPixels);
        }
        let start: usize = pos + RECT_HEADER_LEN;
        let end: usize = start + (area as usize) * 4;
        let pixels = slice_to_vec(slice_subrange(payload, start, end));
        let rect = DirtyRect { x, y, w, h, pixels };
        proof {
            assert(tail.subrange(RECT_HEADER_LEN as int, RECT_HEADER_LEN + w * h * 4) =~= all.subrange(
                start as int,
                end as int,
            ));
            assert(tail.skip(RECT_HEADER_LEN + w * h * 4) =~= all.skip(end as int));
            assert(rect_views(rects@.push(rect)) =~= before.push(rect@));
            match parse_rects(all.skip(end as int), (count - done - 1) as nat) {
                Ok(rest) => {
                    assert(before + (seq![rect@] + rest) =~= before.push(rect@) + rest);
                },
                Err(e) => {},
            }
        }
        rects.push(rect);
        pos = end;
        done = done + 1;
    }
    assert(rect_views(rects@) + Seq::<RectView>::empty() =~= rect_views(rects@));
    Ok(rects)
}

/// A rectangle can be written to the wire: its coordinates fit the header
/// fields and its pixels fill it.
pub open spec fn encodable(r: RectView) -> bool {
    &&& r.wf()
    &&& r.x <= u32::MAX
    &&& r.y <= u32::MAX
    &&& r.w <= u32::MAX
    &&& r.h <= u32::MAX
}

/// Reading the bytes of a list of rectangles gives the list back, whatever
/// follows the last of them.
pub proof fn lemma_rects_round_trip(rects: Seq<RectView>, rest: Seq<u8>)
    requires
        forall|i: int| 0 <= i < rects.len() ==> encodable(#[trigger] rects[i]),
    ensures
        parse_rects(rects_bytes(rects) + rest, rects.len()) == Ok::<Seq<RectView>, DeltaError>(rects),
    decreases rects.len(),
{
    if rects.len() == 0 {
        assert(rects =~= Seq::<RectView>::empty());
    } else {
        let r = rects.first();
        let tail = rects.drop_first();
        let bytes = rects_bytes(rects) + rest;
        let end = RECT_HEADER_LEN + r.w * r.h * 4;
        assert(encodable(rects[0]));
        lemma_be_round_trip(r.x as u32);
        lemma_be_round_trip(r.y as u32);
        lemma_be_round_trip(r.w as u32);
        lemma_be_round_trip(r.h as u32);
        assert(bytes.subrange(0, 4) =~= be_bytes(r.x as u32));
        assert(bytes.subrange(4, 8) =~= be_bytes(r.y as u32));
        assert(bytes.subrange(8, 12) =~= be_bytes(r.w as u32));
        assert(bytes.subrange(12, 16) =~= be_bytes(r.h as u32));
        assert(bytes.subrange(RECT_HEADER_LEN as int, end) =~= r.pixels);
        assert(bytes.skip(end) =~= rects_bytes(tail) + rest);
        assert forall|i: int| 0 <= i < tail.len() implies encodable(#[trigger] tail[i]) by {
            assert(tail[i] == rects[i + 1]);
        }
        lemma_rects_round_trip(tail, rest);
        assert(seq![r] + tail =~= rects);
    }
}

/// The delta path loses nothing at the level of the rectangle list: reading
/// an encoded payload gives back the rectangles that were encoded.
pub proof fn lemma_delta_payload_round_trip(rects: Seq<RectView>)
    requires
        rects.len() <= u32::MAX,
        forall|i: int| 0 <= i < rects.len() ==> encodable(#[trigger] rects[i]),
    ensures
        parse_delta(delta_payload(rects)) == Ok::<Seq<RectView>, DeltaError>(rects),
{
    let payload = delta_payload(rects);
    lemma_be_round_trip(rects.len() as u32);
    assert(payload.subrange(0, 4) =~= be_bytes(rects.len() as u32));
    assert(payload.skip(4) =~= rects_bytes(rects) + Seq::<u8>::empty());
    lemma_rects_round_trip(rects, Seq::empty());
}

/// Three runs of bytes joined are the same however they are grouped.
proof fn lemma_joined(a: Seq<u8>, b: Seq<u8>, c: Seq<u8>)
    ensures
        a + (b + c) == (a + b) + c,
        a + Seq::<u8>::empty() == a,
        Seq::<u8>::empty() + a == a,
{
    assert(a + (b + c) =~= (a + b) + c);
    assert(a + Seq::<u8>::empty() =~= a);
    assert(Seq::<u8>::empty() + a =~= a);
}

/// A list of rectangles with one more behind it is written out as the list,
/// then the one.
pub proof fn lemma_rects_bytes_push(rects: Seq<RectView>, r: RectView)
    ensures
        rects_bytes(rects.push(r)) == rects_bytes(rects) + rect_bytes(r),
    decreases rects.len(),
{
    let longer = rects.push(r);
    let one = rect_bytes(r);
    if rects.len() == 0 {
        assert(longer.first() == r);
        assert(longer.drop_first() =~= Seq::<RectView>::empty());
        assert(rects_bytes(Seq::<RectView>::empty()) == Seq::<u8>::empty());
        assert(rects_bytes(longer) == one + rects_bytes(longer.drop_first()));
        lemma_joined(one, Seq::empty(), Seq::empty());
    } else {
        let head = rect_bytes(rects.first());
        let tail = rects_bytes(rects.drop_first());
        assert(longer.first() == rects.first());
        assert(longer.drop_first() =~= rects.drop_first().push(r));
        lemma_rects_bytes_push(rects.drop_first(), r);
        assert(rects_bytes(longer) == head + rects_bytes(longer.drop_first()));
        assert(rects_bytes(rects) == head + tail);
        lemma_joined(head, tail, one);
    }
}

/// A delta payload is four bytes longer than its rectangles written out.
pub proof fn lemma_delta_payload_len(rects: Seq<RectView>)
    ensures
        delta_payload(rects).len() == 4 + rects_bytes(rects).len(),
{
}

/// Two lists of rectangles joined are written out as the one, then the
/// other.
pub proof fn lemma_rects_bytes_joined(a: Seq<RectView>, b: Seq<RectView>)
    ensures
        rects_bytes(a + b) == rects_bytes(a) + rects_bytes(b),
    decreases b.len(),
{
    if b.len() == 0 {
        assert(a + b =~= a);
        assert(rects_bytes(b) == Seq::<u8>::empty());
        lemma_joined(rects_bytes(a), Seq::empty(), Seq::empty());
    } else {
        let front = b.drop_last();
        let last = b.last();
        assert(b =~= front.push(last));
        assert(a + b =~= (a + front).push(last));
        lemma_rects_bytes_joined(a, front);
        lemma_rects_bytes_push(a + front, last);
        lemma_rects_bytes_push(front, last);
        lemma_joined(rects_bytes(a), rects_bytes(front), rect_bytes(last));
    }
}

/// The length of a list of rectangles written out: sixteen bytes of header
/// for each rectangle and four bytes for each of their pixels.
pub proof fn lemma_rects_bytes_len(rects: Seq<RectView>)
    requires
        forall|i: int| 0 <= i < rects.len() ==> (#[trigger] rects[i]).wf(),
    ensures
        rects_bytes(rects).len() == RECT_HEADER_LEN * rects.len() + 4 * total_pixels(rects),
        delta_payload(rects).len() == 4 + RECT_HEADER_LEN * rects.len() + 4 * total_pixels(rects),
    decreases rects.len(),
{
    if rects.len() > 0 {
        let r = rects.first();
        let tail = rects.drop_first();
        assert(rects[0].wf());
        assert forall|i: int| 0 <= i < tail.len() implies (#[trigger] tail[i]).wf() by {
            assert(tail[i] == rects[i + 1]);
        }
        lemma_rects_bytes_len(tail);
        lemma_total_pixels_first(rects);
    }
}

} // verus!
