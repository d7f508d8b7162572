//! RGBA images in memory, and their exchange with `image` crate buffers.

use vstd::prelude::*;
use vstd::string::StringExecFns;
use image::{ImageBuffer, Rgba};

use crate::error::ImageError;
use crate::text::{decimal, format_decimal};

verus! {

/// An `image` crate RGBA buffer (`image::RgbaImage`), held as it is. Verus
/// does not see inside it: what it holds is known only through
/// `rgba_buffer_bytes` and `rgba_buffer_dimensions`, of which the wrappers
/// below speak.
#[verifier::external_body]
pub struct RgbaBuffer {
    pub buffer: ImageBuffer<Rgba<u8>, Vec<u8>>,
}

/// The bytes held by an `image` crate RGBA buffer.
pub uninterp spec fn rgba_buffer_bytes(buffer: RgbaBuffer) -> Seq<u8>;

/// The width and height that an `image` crate RGBA buffer was made with.
pub uninterp spec fn rgba_buffer_dimensions(buffer: RgbaBuffer) -> (u32, u32);

/// Calls `image::ImageBuffer::from_raw`. Its source builds a buffer exactly
/// when `4 * width * height` (computed with checked multiplication) is at
/// most `data.len()`; the buffer keeps `data` as its bytes and `width`,
/// `height` as its dimensions.
#[verifier::external_body]
fn rgba_buffer_from_raw(width: u32, height: u32, data: Vec<u8>) -> (buffer: Option<RgbaBuffer>)
    ensures
        buffer is Some <==> width * height * 4 <= data@.len(),
        buffer matches Some(b) ==> rgba_buffer_bytes(b) == data@ && rgba_buffer_dimensions(b) == (width, height),
{
    match ImageBuffer::from_raw(width, height, data) {
        Some(buffer) => Some(RgbaBuffer { buffer }),
        None => None,
    }
}

/// Calls `image::ImageBuffer::dimensions`, which returns the width and height
/// the buffer was made with.
#[verifier::external_body]
fn rgba_buffer_dimensions_of(buffer: &RgbaBuffer) -> (dims: (u32, u32))
    ensures
        dims == rgba_buffer_dimensions(*buffer),
{
    buffer.buffer.dimensions()
}

/// Calls `image::ImageBuffer::into_raw`, which hands back the bytes the buffer holds.
#[verifier::external_body]
fn rgba_buffer_into_raw(buffer: RgbaBuffer) -> (data: Vec<u8>)
    ensures
        data@ == rgba_buffer_bytes(buffer),
{
    buffer.buffer.into_raw()
}

/// Text of the error for an image whose bytes do not fill its dimensions.
pub open spec fn buffer_too_small_message(width: u32, height: u32) -> Seq<char> {
    "Failed to create image buffer for "@ + decimal(width as nat) + "x"@ + decimal(height as nat)
        + " image"@
}

/// An RGBA image: `height` rows of `width` pixels, four bytes per pixel.
#[derive(Debug, Clone)]
pub struct Image {
    pub width: u32,
    pub height: u32,
    pub rgba_data: Vec<u8>,
}

impl Image {
    /// Makes an image from its dimensions and pixel bytes. Fails with
    /// `ImageError::SizeMismatch` unless there are exactly
    /// `width * height * 4` bytes.
    pub fn new(width: u32, height: u32, rgba_data: Vec<u8>) -> (result: Result<Image, ImageError>)
        requires
            width * height * 4 <= usize::MAX,
        ensures
            match result {
                Ok(img) => {
                    &&& rgba_data@.len() == width * height * 4
                    &&& img.width == width
                    &&& img.height == height
                    &&& img.rgba_data@ == rgba_data@
                },
                Err(e) => {
                    &&& rgba_data@.len() != width * height * 4
                    &&& e matches ImageError::SizeMismatch { expected, actual }
                    &&& expected == width * height * 4
                    &&& actual == rgba_data@.len()
                },
            },
    {
        assert(width * height <= width * height * 4) by (nonlinear_arith);
        let expected_size = (width as usize) * (height as usize) * 4;
        if rgba_data.len() != expected_size {
            return Err(ImageError::SizeMismatch { expected: expected_size, actual: rgba_data.len() });
        }
        Ok(Image { width, height, rgba_data })
    }

    /// Takes over an `image` crate RGBA buffer: its dimensions and its bytes.
    pub fn from_rgba_buffer(buffer: RgbaBuffer) -> (img: Image)
        ensures
            (img.width, img.height) == rgba_buffer_dimensions(buffer),
            img.rgba_data@ == rgba_buffer_bytes(buffer),
    {
        let (width, height) = rgba_buffer_dimensions_of(&buffer);
        let rgba_data = rgba_buffer_into_raw(buffer);
        Image { width, height, rgba_data }
    }

    /// Makes an `image` crate RGBA buffer with the same dimensions and bytes.
    /// Fails with `ImageError::SaveError` when the bytes are fewer than the
    /// dimensions call for.
    pub fn to_rgba_buffer(&self) -> (result: Result<RgbaBuffer, ImageError>)
        ensures
            result is Ok <==> self.width * self.height * 4 <= self.rgba_data@.len(),
            result matches Ok(b) ==> rgba_buffer_bytes(b) == self.rgba_data@
                && rgba_buffer_dimensions(b) == (self.width, self.height),
            result matches Err(e) ==> e matches ImageError::SaveError(m) && m@
                == buffer_too_small_message(self.width, self.height),
    {
        match rgba_buffer_from_raw(self.width, self.height, self.rgba_data.clone()) {
            Some(b) => Ok(b),
            None => {
                let mut m = String::from_str("Failed to create image buffer for ");
                m.append(format_decimal(self.width as u64).as_str());
                m.append("x");
                m.append(format_decimal(self.height as u64).as_str());
                m.append(" image");
                Err(ImageError::SaveError(m))
            },
        }
    }

    /// The pixel bytes.
    pub fn rgba_slice(&self) -> (s: &[u8])
        ensures
            s@ == self.rgba_data@,
    {
        self.rgba_data.as_slice()
    }

    /// The pixel bytes, for changing them in place.
    pub fn rgba_slice_mut(&mut self) -> (s: &mut [u8])
        ensures
            s@ == old(self).rgba_data@,
            final(self).rgba_data@ == final(s)@,
            final(self).width == old(self).width,
            final(self).height == old(self).height,
    {
        self.rgba_data.as_mut_slice()
    }
}

/// Handing an image to the `image` crate and taking the buffer back gives the
/// same image: `from_rgba_buffer` reads back the dimensions and bytes that
/// `to_rgba_buffer` stored.
pub proof fn lemma_rgba_buffer_round_trip(img: Image, buffer: RgbaBuffer, back: Image)
    requires
        rgba_buffer_bytes(buffer) == img.rgba_data@,
        rgba_buffer_dimensions(buffer) == (img.width, img.height),
        (back.width, back.height) == rgba_buffer_dimensions(buffer),
        back.rgba_data@ == rgba_buffer_bytes(buffer),
    ensures
        back.width == img.width,
        back.height == img.height,
        back.rgba_data@ == img.rgba_data@,
{
}

} // verus!
