//! Image frames: construction from acquisition buffers, format queries and
//! conversion to RGB24.

use vstd::prelude::*;
use vstd::string::StringExecFns;

use crate::demosaic::{
    bayer_plane_16bit, bayer_plane_8bit, depth_shift, detect_spec, effective_stride, norm_rows,
    required_len, rows_8bit, short_16bit_message, short_8bit_message, BayerPattern,
};
use crate::error::CameraError;
use crate::text::{dec, hex_fixed, push_decimal, push_hex_fixed};

verus! {

/// One image acquired from a camera.
#[derive(Debug, Clone)]
pub struct Frame {
    /// Image width in pixels.
    pub width: u32,
    /// Image height in pixels.
    pub height: u32,
    /// Pixel format name (such as `BayerGR8`, `Mono8`, `RGB8`).
    pub pixel_format: String,
    /// Bits per pixel.
    pub bits_per_pixel: u32,
    /// Row step in bytes; usually `width × (bpp / 8)`, possibly with padding.
    pub stride: u32,
    /// Raw image data.
    pub data: Vec<u8>,
    /// Camera timestamp (ns, camera clock).
    pub timestamp_ns: u64,
    /// System timestamp (ns, arrival at the host).
    pub system_timestamp_ns: u64,
    /// Frame id (increasing on GigE cameras, 0 when invalid).
    pub frame_id: u64,
}

/// The plain contents of an acquisition buffer, as the camera driver reports them.
pub struct RawBuffer {
    /// Image width as reported (may be non-positive for an empty buffer).
    pub image_width: i32,
    /// Image height as reported.
    pub image_height: i32,
    /// The GenICam pixel format code.
    pub pixel_format: u32,
    /// The image bytes (empty when the buffer holds none).
    pub data: Vec<u8>,
    /// Camera timestamp (ns).
    pub timestamp: u64,
    /// System timestamp (ns).
    pub system_timestamp: u64,
    /// Frame id.
    pub frame_id: u64,
}

/// Bits per pixel encoded in a GenICam pixel format code (bits 16..24).
pub open spec fn pixel_format_bits(code: u32) -> u32 {
    (code >> 16u32) & 0xFFu32
}

/// Bytes per pixel: bits rounded up to whole bytes.
pub open spec fn bytes_per_pixel(bits: u32) -> nat {
    ((bits as nat + 7) / 8) as nat
}

/// The row step of a frame built from a buffer: the data length divided by
/// the rows when the data is longer than the packed image and there is more
/// than one row, else the packed row length.
pub open spec fn buffer_stride(w: nat, h: nat, bits: u32, len: nat) -> u32 {
    if len > w * h * bytes_per_pixel(bits) && h > 1 {
        (len / h) as u32
    } else {
        (w * bytes_per_pixel(bits)) as u32
    }
}

/// The pixel format name of a frame: the given name, or `0x` and eight
/// upper-case hexadecimal digits of the code when the name is empty.
pub open spec fn format_name(name: Seq<char>, code: u32) -> Seq<char> {
    if name.len() == 0 {
        "0x"@ + hex_fixed(code as nat, 8)
    } else {
        name
    }
}

/// The inputs on which building a frame from a buffer stays within 32-bit arithmetic.
pub open spec fn buffer_in_range(b: RawBuffer) -> bool {
    b.image_width > 0 && b.image_height > 0 && b.data@.len() > 0 ==> {
        &&& b.image_width as nat * b.image_height as nat <= u32::MAX
        &&& b.image_width as nat * b.image_height as nat * bytes_per_pixel(
            pixel_format_bits(b.pixel_format),
        ) <= u32::MAX
    }
}

/// What it takes to turn a frame into RGB24.
pub enum RgbConversion {
    /// The RGB24 data itself (three bytes per pixel, R-G-B).
    Rgb(Vec<u8>),
    /// A contiguous 8-bit Bayer plane of `width`×`height` samples with its
    /// pattern, which bilinear demosaicing turns into RGB24.
    Demosaic { plane: Vec<u8>, width: u32, height: u32, pattern: BayerPattern },
}

/// Gray samples widened to RGB24 (R = G = B) for the first `n` pixels;
/// pixels past the end of the data are black.
pub open spec fn gray_rgb(data: Seq<u8>, n: nat) -> Seq<u8>
    decreases n,
{
    if n == 0 {
        Seq::<u8>::empty()
    } else {
        let i = (n - 1) as nat;
        let v = if i < data.len() { data[i as int] } else { 0u8 };
        gray_rgb(data, i) + seq![v, v, v]
    }
}

/// The data cut or zero-padded to exactly `n` bytes.
pub open spec fn fit_len(data: Seq<u8>, n: nat) -> Seq<u8> {
    if n <= data.len() {
        data.take(n as int)
    } else {
        data + Seq::new((n - data.len()) as nat, |i: int| 0u8)
    }
}

/// The message of the error for a Bayer frame of unsupported depth.
pub open spec fn bayer_depth_message(bits: u32) -> Seq<char> {
    "不支持 "@ + dec(bits as nat) + "bpp 的 Bayer 去马赛克"@
}

/// The message of the error for a format that cannot be turned into RGB.
pub open spec fn unsupported_format_message(name: Seq<char>, bits: u32) -> Seq<char> {
    "to_rgb: 不支持的像素格式 "@ + name + " ("@ + dec(bits as nat) + "bpp)"@
}

/// A sample depth that is reduced to 8 bits before demosaicing.
pub open spec fn is_wide_bayer_depth(bits: u32) -> bool {
    bits == 10 || bits == 12 || bits == 16
}

/// The frames whose conversion to RGB stays within machine arithmetic:
/// the row arithmetic of Bayer planes fits in `usize`, and the pixel and
/// byte counts of gray and RGB frames fit in `u32` (and the RGB size in `usize`).
pub open spec fn to_rgb_in_range(f: Frame) -> bool {
    let w = f.width as nat;
    let h = f.height as nat;
    let bits = f.bits_per_pixel;
    match detect_spec(f.pixel_format@) {
        Some(_) => {
            &&& bits == 8 ==> required_len(h, effective_stride(f.stride, w), w) <= usize::MAX
            &&& is_wide_bayer_depth(bits) ==> {
                &&& 2 * w <= usize::MAX
                &&& required_len(h, effective_stride(f.stride, 2 * w), 2 * w) <= usize::MAX
            }
        },
        None => {
            &&& bits == 8 ==> w * h <= u32::MAX && 3 * (w * h) <= usize::MAX
            &&& bits == 24 ==> w * h <= u32::MAX && w * h * 3 <= u32::MAX
        },
    }
}

impl Frame {
    /// The frame of a buffer.
    ///
    /// A buffer without positive width and height, or without data, gives
    /// `InvalidBuffer`. Bits per pixel come from the format code; the row step
    /// is the data length over the rows when the data is longer than the packed
    /// image (and there is more than one row), else the packed row length; an
    /// empty name is replaced by the code in hexadecimal (`0x%08X`).
    pub fn from_buffer(buffer: RawBuffer, pixel_format_name: &str) -> (r: Result<
        Frame,
        CameraError,
    >)
        requires
            buffer_in_range(buffer),
        ensures
            (buffer.image_width <= 0 || buffer.image_height <= 0 || buffer.data@.len() == 0)
                ==> r matches Err(CameraError::InvalidBuffer),
            (buffer.image_width > 0 && buffer.image_height > 0 && buffer.data@.len() > 0) ==> (
            r matches Ok(f) && {
                &&& f.width == buffer.image_width as u32
                &&& f.height == buffer.image_height as u32
                &&& f.pixel_format@ == format_name(pixel_format_name@, buffer.pixel_format)
                &&& f.bits_per_pixel == pixel_format_bits(buffer.pixel_format)
                &&& f.stride == buffer_stride(
                    buffer.image_width as nat,
                    buffer.image_height as nat,
                    pixel_format_bits(buffer.pixel_format),
                    buffer.data@.len(),
                )
                &&& f.data@ == buffer.data@
                &&& f.timestamp_ns == buffer.timestamp
                &&& f.system_timestamp_ns == buffer.system_timestamp
                &&& f.frame_id == buffer.frame_id
            }),
    {
        if buffer.image_width <= 0 || buffer.image_height <= 0 {
            return Err(CameraError::InvalidBuffer);
        }
        let code = buffer.pixel_format;
        let bits: u32 = (code >> 16u32) & 0xFFu32;
        if buffer.data.len() == 0 {
            return Err(CameraError::InvalidBuffer);
        }
        let w = buffer.image_width as u32;
        let h = buffer.image_height as u32;
        let bpb: u32 = bits / 8 + if bits % 8 != 0 { 1 } else { 0 };
        assert(bpb == bytes_per_pixel(bits));
        assert(bits <= 255) by (bit_vector)
            requires
                bits == (code >> 16u32) & 0xFFu32,
        ;
        assert(w * bpb <= w * h * bpb) by (nonlinear_arith)
            requires
                h >= 1,
        ;
        let expected = (w * h * bpb) as usize;
        let stride: u32 = if buffer.data.len() > expected && h > 1 {
            (buffer.data.len() / h as usize) as u32
        } else {
            w * bpb
        };
        let name = if pixel_format_name.is_empty() {
            let mut n = String::from_str("0x");
            push_hex_fixed(&mut n, code, 8);
            n
        } else {
            String::from_str(pixel_format_name)
        };
        Ok(
            Frame {
                width: w,
                height: h,
                pixel_format: name,
                bits_per_pixel: bits,
                stride,
                data: buffer.data,
                timestamp_ns: buffer.timestamp,
                system_timestamp_ns: buffer.system_timestamp,
                frame_id: buffer.frame_id,
            },
        )
    }

    /// Whether the pixel format is a Bayer format (needs demosaicing).
    pub fn is_bayer(&self) -> (r: bool)
        ensures
            r == detect_spec(self.pixel_format@) is Some,
    {
        BayerPattern::detect(self.pixel_format.as_str()).is_some()
    }

    /// Whether the frame is RGB (24 bits per pixel).
    pub fn is_rgb(&self) -> (r: bool)
        ensures
            r == (self.bits_per_pixel == 24),
    {
        self.bits_per_pixel == 24
    }

    /// Whether the frame is gray (8 bits per pixel and not Bayer).
    pub fn is_mono(&self) -> (r: bool)
        ensures
            r == (self.bits_per_pixel == 8 && detect_spec(self.pixel_format@) is None),
    {
        self.bits_per_pixel == 8 && !self.is_bayer()
    }

    /// What it takes to convert the frame to RGB24, chosen by pixel format:
    ///
    /// - Bayer, 8 bits: the rows (`stride` 0 meaning `width`) as a contiguous
    ///   plane for demosaicing; too short data is an error;
    /// - Bayer, 10/12/16 bits: samples shifted to 8 bits and clamped, as a
    ///   contiguous plane for demosaicing; too short data is an error;
    /// - Bayer of another depth: an error;
    /// - 8 bits, not Bayer: gray widened to R = G = B, pixels past the data black;
    /// - 24 bits: the data cut or zero-padded to `width × height × 3` bytes;
    /// - anything else: an error.
    pub fn to_rgb(&self) -> (r: Result<RgbConversion, CameraError>)
        requires
            to_rgb_in_range(*self),
        ensures
            detect_spec(self.pixel_format@) matches Some(p) ==> {
                let w = self.width as nat;
                let h = self.height as nat;
                let bits = self.bits_per_pixel;
                let s8 = effective_stride(self.stride, w);
                let s16 = effective_stride(self.stride, 2 * w);
                &&& bits == 8 ==> {
                    &&& r is Ok <==> self.data@.len() >= required_len(h, s8, w)
                    &&& r matches Ok(c) ==> (c matches RgbConversion::Demosaic {
                        plane,
                        width,
                        height,
                        pattern,
                    } && plane@ == rows_8bit(self.data@, w, s8, h) && width == self.width
                        && height == self.height && pattern == p)
                    &&& r matches Err(e) ==> (e matches CameraError::GenericError(m) && m@
                        == short_8bit_message(required_len(h, s8, w), w, h, s8, self.data@.len()))
                }
                &&& is_wide_bayer_depth(bits) ==> {
                    &&& r is Ok <==> self.data@.len() >= required_len(h, s16, 2 * w)
                    &&& r matches Ok(c) ==> (c matches RgbConversion::Demosaic {
                        plane,
                        width,
                        height,
                        pattern,
                    } && plane@ == norm_rows(self.data@, w, s16, depth_shift(bits), h) && width
                        == self.width && height == self.height && pattern == p)
                    &&& r matches Err(e) ==> (e matches CameraError::GenericError(m) && m@
                        == short_16bit_message(required_len(h, s16, 2 * w), self.data@.len()))
                }
                &&& bits != 8 && !is_wide_bayer_depth(bits) ==> (r matches Err(
                    CameraError::GenericError(m),
                ) && m@ == bayer_depth_message(bits))
            },
            detect_spec(self.pixel_format@) is None ==> {
                let n = self.width as nat * self.height as nat;
                let bits = self.bits_per_pixel;
                &&& bits == 8 ==> (r matches Ok(RgbConversion::Rgb(v)) && v@ == gray_rgb(
                    self.data@,
                    n,
                ))
                &&& bits == 24 ==> (r matches Ok(RgbConversion::Rgb(v)) && v@ == fit_len(
                    self.data@,
                    n * 3,
                ))
                &&& bits != 8 && bits != 24 ==> (r matches Err(CameraError::GenericError(m)) && m@
                    == unsupported_format_message(self.pixel_format@, bits))
            },
    {
        let w = self.width;
        let h = self.height;
        let bits = self.bits_per_pixel;
        if let Some(pattern) = BayerPattern::detect(self.pixel_format.as_str()) {
            if bits == 8 {
                return match bayer_plane_8bit(self.data.as_slice(), w, h, self.stride) {
                    Ok(plane) => Ok(RgbConversion::Demosaic { plane, width: w, height: h, pattern }),
                    Err(e) => Err(e),
                };
            } else if bits == 10 || bits == 12 || bits == 16 {
                return match bayer_plane_16bit(self.data.as_slice(), w, h, self.stride, bits) {
                    Ok(plane) => Ok(RgbConversion::Demosaic { plane, width: w, height: h, pattern }),
                    Err(e) => Err(e),
                };
            } else {
                let mut m = String::from_str("不支持 ");
                push_decimal(&mut m, bits as u64);
                m.append("bpp 的 Bayer 去马赛克");
                return Err(CameraError::GenericError(m));
            }
        }
        if bits == 8 {
            let expected = (w * h) as usize;
            let mut rgb: Vec<u8> = Vec::with_capacity(expected * 3);
            let mut i: usize = 0;
            while i < expected
                invariant
                    i <= expected,
                    expected == self.width as nat * self.height as nat,
                    rgb@ == gray_rgb(self.data@, i as nat),
                decreases expected - i,
            {
                let v: u8 = if i < self.data.len() { self.data[i] } else { 0 };
                rgb.push(v);
                rgb.push(v);
                rgb.push(v);
                assert(rgb@ =~= gray_rgb(self.data@, (i + 1) as nat));
                i = i + 1;
            }
            return Ok(RgbConversion::Rgb(rgb));
        }
        if bits == 24 {
            let expected = (w * h * 3) as usize;
            let mut rgb: Vec<u8> = Vec::new();
            let mut i: usize = 0;
            while i < expected
                invariant
                    i <= expected,
                    expected == self.width as nat * self.height as nat * 3,
                    rgb@ == fit_len(self.data@, expected as nat).take(i as int),
                decreases expected - i,
            {
                let v: u8 = if i < self.data.len() { self.data[i] } else { 0 };
                rgb.push(v);
                assert(rgb@ =~= fit_len(self.data@, expected as nat).take(i + 1));
                i = i + 1;
            }
            assert(rgb@ =~= fit_len(self.data@, expected as nat));
            return Ok(RgbConversion::Rgb(rgb));
        }
        let mut m = String::from_str("to_rgb: 不支持的像素格式 ");
        m.append(self.pixel_format.as_str());
        m.append(" (");
        push_decimal(&mut m, bits as u64);
        m.append("bpp)");
        Err(CameraError::GenericError(m))
    }

    /// Number of bytes of image data.
    pub fn data_size(&self) -> (r: usize)
        ensures
            r == self.data@.len(),
    {
        self.data.len()
    }

    /// Image shape `(height, width, channels)`, channels being bytes per pixel.
    pub fn shape(&self) -> (r: (u32, u32, u32))
        ensures
            r == (self.height, self.width, bytes_per_pixel(self.bits_per_pixel) as u32),
    {
        let b = self.bits_per_pixel;
        (self.height, self.width, b / 8 + if b % 8 != 0 { 1 } else { 0 })
    }
}


/// Law: a Bayer frame is converted at 8, 10, 12 and 16 bits per sample and at
/// no other depth (any other depth is the unsupported-depth error); 10-, 12-
/// and 16-bit samples are brought to 8 bits by a right shift of `depth − 8`,
/// that is 2, 4 and 8 bits.
pub proof fn law_bayer_depths(bits: u32)
    ensures
        (bits == 8 || is_wide_bayer_depth(bits)) <==> (bits == 8 || bits == 10 || bits == 12
            || bits == 16),
        bits == 10 ==> is_wide_bayer_depth(bits) && depth_shift(bits) == 2,
        bits == 12 ==> is_wide_bayer_depth(bits) && depth_shift(bits) == 4,
        bits == 16 ==> is_wide_bayer_depth(bits) && depth_shift(bits) == 8,
{
}

/// Law: a gray frame widened to RGB has three bytes per pixel, and all three
/// bytes of pixel `i` are the gray sample `i` (black past the end of the data).
pub proof fn law_gray_rgb_pixel(data: Seq<u8>, n: nat, i: nat)
    requires
        i < n,
    ensures
        gray_rgb(data, n).len() == 3 * n,
        gray_rgb(data, n)[(3 * i) as int] == (if i < data.len() { data[i as int] } else { 0u8 }),
        gray_rgb(data, n)[(3 * i + 1) as int] == gray_rgb(data, n)[(3 * i) as int],
        gray_rgb(data, n)[(3 * i + 2) as int] == gray_rgb(data, n)[(3 * i) as int],
    decreases n,
{
    lemma_gray_rgb_len(data, n);
    let last = (n - 1) as nat;
    lemma_gray_rgb_len(data, last);
    if i < last {
        law_gray_rgb_pixel(data, last, i);
    }
}

/// Gray widened to RGB for `n` pixels has `3 × n` bytes.
proof fn lemma_gray_rgb_len(data: Seq<u8>, n: nat)
    ensures
        gray_rgb(data, n).len() == 3 * n,
    decreases n,
{
    if n > 0 {
        lemma_gray_rgb_len(data, (n - 1) as nat);
    }
}

} // verus!
