//! The encoder of `openh264`, kept together with the dimensions it was
//! opened for. The encoder panics when it is handed a picture of another
//! size, so the two are put together where the encoder is opened, in this
//! module alone, and nothing outside it can take them apart.

use vstd::prelude::*;

verus! {

/// The encoder of `openh264`, carried as it is: its state is its own.
#[verifier::external_type_specification]
#[verifier::external_body]
pub struct ExEncoder(openh264::encoder::Encoder);

/// An encoder and the dimensions it was opened for.
pub struct OpenedEncoder {
    encoder: openh264::encoder::Encoder,
    width: usize,
    height: usize,
}

/// Whether an encoder can be opened for these dimensions.
pub open spec fn encodable_size(width: int, height: int) -> bool {
    &&& 0 <= width <= u32::MAX
    &&& 0 <= height <= u32::MAX
    &&& width % 2 == 0
    &&& height % 2 == 0
}

impl OpenedEncoder {
    /// Width in pixels of the pictures that the encoder was opened for.
    pub closed spec fn width(&self) -> int {
        self.width as int
    }

    /// Height in pixels of the pictures that the encoder was opened for.
    pub closed spec fn height(&self) -> int {
        self.height as int
    }

    /// The dimensions that the encoder was opened for.
    pub(crate) fn size(&self) -> (s: (usize, usize))
        ensures
            s.0 == self.width(),
            s.1 == self.height(),
    {
        (self.width, self.height)
    }
}

/// Calls `openh264::encoder::Encoder::with_config` with a configuration for
/// the given dimensions, frame rate and bit rate, in bit rate control mode,
/// and puts the encoder together with the dimensions. Nothing is claimed of
/// whether the codec opens one; an encoder that comes back is paired with
/// the dimensions that were asked for.
#[verifier::external_body]
pub(crate) fn open_encoder(width: u32, height: u32, frame_rate: u8, bitrate_bps: u32) -> (r: Result<
    OpenedEncoder,
    openh264::Error,
>)
    ensures
        r matches Ok(e) ==> e.width() == width && e.height() == height,
{
    let config = openh264::encoder::EncoderConfig::new(width, height).max_frame_rate(
        frame_rate.into(),
    ).set_bitrate_bps(bitrate_bps).rate_control_mode(openh264::encoder::RateControlMode::Bitrate);
    match openh264::encoder::Encoder::with_config(config) {
        Ok(encoder) => Ok(OpenedEncoder { encoder, width: width as usize, height: height as usize }),
        Err(e) => Err(e),
    }
}

/// Calls `openh264::formats::YUVBuffer::with_rgb` and
/// `openh264::encoder::Encoder::encode`, and copies the bit stream out.
/// Nothing is claimed of the bytes: they depend on the frames that the
/// encoder has taken. The dimensions stay as they are. The outside calls
/// panic unless the dimensions are even, the data has three bytes per pixel
/// and the encoder was opened for these dimensions; the first two are
/// required here, and the third holds of every `OpenedEncoder`.
#[verifier::external_body]
pub(crate) fn encode_rgb(enc: &mut OpenedEncoder, rgb: &[u8]) -> (r: Result<Vec<u8>, openh264::Error>)
    requires
        encodable_size(old(enc).width(), old(enc).height()),
        rgb@.len() == old(enc).width() * old(enc).height() * 3,
    ensures
        final(enc).width() == old(enc).width(),
        final(enc).height() == old(enc).height(),
{
    let yuv = openh264::formats::YUVBuffer::with_rgb(enc.width, enc.height, rgb);
    match enc.encoder.encode(&yuv) {
        Ok(bits) => Ok(bits.to_vec()),
        Err(e) => Err(e),
    }
}

} // verus!
