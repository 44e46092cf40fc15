//! Bayer colour filter arrays: pattern detection and the preparation of
//! Bayer planes for demosaicing.
//!
//! The demosaicing itself (bilinear interpolation to RGB24) is OpenCV's
//! `cvtColor`; this module hands it a contiguous 8-bit plane and the pattern.

use vstd::prelude::*;

use vstd::arithmetic::power2::pow2;
use vstd::string::StringExecFns;

use crate::error::CameraError;
use crate::text::{chars_of, dec, push_decimal};

verus! {

// ───────────────────────── Bayer pattern ─────────────────────────

/// Arrangement of the colour filters in the top-left 2×2 cell of a Bayer sensor.
#[derive(Debug, Clone, Copy, PartialEq, Eq, Structural)]
pub enum BayerPattern {
    /// R G / G B
    Rggb,
    /// G R / B G
    Grbg,
    /// G B / R G
    Gbrg,
    /// B G / G R
    Bggr,
}

/// The code of a character after ASCII upper-casing.
pub open spec fn upper_code(c: char) -> nat {
    if 'a' <= c && c <= 'z' {
        (c as nat - 32) as nat
    } else {
        c as nat
    }
}

/// `pat` occurs in `s` at position `i`, comparing `s` ASCII-upper-cased.
pub open spec fn matches_at(s: Seq<char>, pat: Seq<char>, i: int) -> bool {
    &&& 0 <= i
    &&& i + pat.len() <= s.len()
    &&& forall|j: int| 0 <= j < pat.len() ==> #[trigger] upper_code(s[i + j]) == pat[j] as nat
}

/// `pat` occurs somewhere in `s` upper-cased.
pub open spec fn contains_upper(s: Seq<char>, pat: Seq<char>) -> bool {
    exists|i: int| #[trigger] matches_at(s, pat, i)
}

/// The upper-case tag that names a pattern inside a GenICam pixel format name.
pub open spec fn tag(p: BayerPattern) -> Seq<char> {
    match p {
        BayerPattern::Rggb => seq!['B', 'A', 'Y', 'E', 'R', 'R', 'G'],
        BayerPattern::Grbg => seq!['B', 'A', 'Y', 'E', 'R', 'G', 'R'],
        BayerPattern::Gbrg => seq!['B', 'A', 'Y', 'E', 'R', 'G', 'B'],
        BayerPattern::Bggr => seq!['B', 'A', 'Y', 'E', 'R', 'B', 'G'],
    }
}

/// The pattern a pixel format name announces: the first of
/// `BAYERRG`, `BAYERGR`, `BAYERGB`, `BAYERBG` found in the upper-cased name.
pub open spec fn detect_spec(s: Seq<char>) -> Option<BayerPattern> {
    if contains_upper(s, tag(BayerPattern::Rggb)) {
        Some(BayerPattern::Rggb)
    } else if contains_upper(s, tag(BayerPattern::Grbg)) {
        Some(BayerPattern::Grbg)
    } else if contains_upper(s, tag(BayerPattern::Gbrg)) {
        Some(BayerPattern::Gbrg)
    } else if contains_upper(s, tag(BayerPattern::Bggr)) {
        Some(BayerPattern::Bggr)
    } else {
        None
    }
}

fn tag_chars(p: BayerPattern) -> (v: Vec<char>)
    ensures
        v@ == tag(p),
{
    let v = match p {
        BayerPattern::Rggb => vec!['B', 'A', 'Y', 'E', 'R', 'R', 'G'],
        BayerPattern::Grbg => vec!['B', 'A', 'Y', 'E', 'R', 'G', 'R'],
        BayerPattern::Gbrg => vec!['B', 'A', 'Y', 'E', 'R', 'G', 'B'],
        BayerPattern::Bggr => vec!['B', 'A', 'Y', 'E', 'R', 'B', 'G'],
    };
    assert(v@ =~= tag(p));
    v
}

fn upper_matches(c: char, p: char) -> (r: bool)
    ensures
        r == (upper_code(c) == p as nat),
{
    if 'a' <= c && c <= 'z' {
        (c as u32) - 32 == p as u32
    } else {
        c as u32 == p as u32
    }
}

/// Whether `pat` occurs in `s` after ASCII upper-casing of `s`.
fn contains_upper_exec(s: &Vec<char>, pat: &Vec<char>) -> (r: bool)
    ensures
        r == contains_upper(s@, pat@),
{
    if pat.len() > s.len() {
        assert forall|i: int| !matches_at(s@, pat@, i) by {}
        return false;
    }
    if pat.len() == 0 {
        assert(matches_at(s@, pat@, 0));
        return true;
    }
    let n = s.len();
    let last = n - pat.len();
    let mut i: usize = 0;
    while i <= last
        invariant
            last == s@.len() - pat@.len(),
            n == s@.len(),
            pat@.len() >= 1,
            i <= last + 1,
            forall|k: int| 0 <= k < i ==> !#[trigger] matches_at(s@, pat@, k),
        decreases last + 1 - i,
    {
        let mut j: usize = 0;
        while j < pat.len() && upper_matches(s[i + j], pat[j])
            invariant
                i <= last,
                last == s@.len() - pat@.len(),
                n == s@.len(),
                j <= pat@.len(),
                forall|t: int| 0 <= t < j ==> #[trigger] upper_code(s@[i + t]) == pat@[t] as nat,
            decreases pat@.len() - j,
        {
            j = j + 1;
        }
        if j == pat.len() {
            assert(matches_at(s@, pat@, i as int));
            return true;
        }
        assert(!matches_at(s@, pat@, i as int)) by {
            assert(upper_code(s@[i + j]) != pat@[j as int] as nat);
        }
        i = i + 1;
    }
    assert forall|k: int| !matches_at(s@, pat@, k) by {
        if 0 <= k < i {
        }
    }
    false
}

impl BayerPattern {
    /// The Bayer pattern announced by a GenICam pixel format name, compared
    /// case-insensitively; `None` when the name is not a Bayer format.
    ///
    /// Case is folded for ASCII letters only: upper-casing changes no other
    /// character into one of the letters the tags are made of.
    pub fn detect(pixel_format: &str) -> (r: Option<BayerPattern>)
        ensures
            r == detect_spec(pixel_format@),
    {
        let s = chars_of(pixel_format);
        if contains_upper_exec(&s, &tag_chars(BayerPattern::Rggb)) {
            Some(BayerPattern::Rggb)
        } else if contains_upper_exec(&s, &tag_chars(BayerPattern::Grbg)) {
            Some(BayerPattern::Grbg)
        } else if contains_upper_exec(&s, &tag_chars(BayerPattern::Gbrg)) {
            Some(BayerPattern::Gbrg)
        } else if contains_upper_exec(&s, &tag_chars(BayerPattern::Bggr)) {
            Some(BayerPattern::Bggr)
        } else {
            None
        }
    }
}


// ───────────────────────── 8-bit planes ─────────────────────────

/// The row step in bytes: `stride`, or the packed row length when `stride` is 0.
pub open spec fn effective_stride(stride: u32, row_bytes: nat) -> nat {
    if stride == 0 {
        row_bytes
    } else {
        stride as nat
    }
}

/// The number of bytes an image needs: `(h - 1) * stride + row_bytes`, or 0 without rows.
pub open spec fn required_len(h: nat, stride: nat, row_bytes: nat) -> nat {
    if h > 0 {
        ((h - 1) * stride + row_bytes) as nat
    } else {
        0
    }
}

/// The first `n` rows of `w` bytes each, row `y` read from byte `y * stride`, laid end to end.
pub open spec fn rows_8bit(raw: Seq<u8>, w: nat, stride: nat, n: nat) -> Seq<u8>
    decreases n,
{
    if n == 0 {
        Seq::<u8>::empty()
    } else {
        let y = (n - 1) as nat;
        rows_8bit(raw, w, stride, y) + raw.subrange((y * stride) as int, (y * stride + w) as int)
    }
}

/// The message of the error for too short 8-bit Bayer data.
pub open spec fn short_8bit_message(need: nat, w: nat, h: nat, stride: nat, got: nat) -> Seq<char> {
    "demosaic: data too short, need "@ + dec(need) + " bytes ("@ + dec(w) + "x"@ + dec(h)
        + ", stride="@ + dec(stride) + "), got "@ + dec(got)
}

/// The contiguous 8-bit Bayer plane of an image whose rows may be padded.
///
/// `stride` is the row step in bytes (0 means `width`). The data must hold
/// `(height - 1) * stride + width` bytes; the result holds the `height` rows
/// of `width` bytes each, without padding, ready for demosaicing.
pub fn bayer_plane_8bit(raw: &[u8], width: u32, height: u32, stride: u32) -> (r: Result<
    Vec<u8>,
    CameraError,
>)
    requires
        required_len(height as nat, effective_stride(stride, width as nat), width as nat)
            <= usize::MAX,
    ensures
        r is Ok <==> raw@.len() >= required_len(
            height as nat,
            effective_stride(stride, width as nat),
            width as nat,
        ),
        r matches Ok(v) ==> v@ == rows_8bit(
            raw@,
            width as nat,
            effective_stride(stride, width as nat),
            height as nat,
        ),
        r matches Err(e) ==> e matches CameraError::GenericError(m) && m@ == short_8bit_message(
            required_len(height as nat, effective_stride(stride, width as nat), width as nat),
            width as nat,
            height as nat,
            effective_stride(stride, width as nat),
            raw@.len(),
        ),
{
    let w = width as usize;
    let h = height as usize;
    let s: usize = if stride == 0 { w } else { stride as usize };
    let required: usize = if h > 0 { (h - 1) * s + w } else { 0 };
    if raw.len() < required {
        let mut m = String::from_str("demosaic: data too short, need ");
        push_decimal(&mut m, required as u64);
        m.append(" bytes (");
        push_decimal(&mut m, w as u64);
        m.append("x");
        push_decimal(&mut m, h as u64);
        m.append(", stride=");
        push_decimal(&mut m, s as u64);
        m.append("), got ");
        push_decimal(&mut m, raw.len() as u64);
        return Err(CameraError::GenericError(m));
    }
    let mut out: Vec<u8> = Vec::new();
    let mut y: usize = 0;
    while y < h
        invariant
            w == width as nat,
            h == height as nat,
            s == effective_stride(stride, width as nat),
            required == required_len(h as nat, s as nat, w as nat),
            raw@.len() >= required,
            y <= h,
            out@ == rows_8bit(raw@, w as nat, s as nat, y as nat),
        decreases h - y,
    {
        assert(y * s <= (h - 1) * s) by (nonlinear_arith)
            requires
                y < h,
        ;
        let base = y * s;
        let mut x: usize = 0;
        while x < w
            invariant
                w == width as nat,
                h == height as nat,
                y < h,
                base == y * s,
                base + w <= required,
                raw@.len() >= required,
                x <= w,
                out@ == rows_8bit(raw@, w as nat, s as nat, y as nat) + raw@.subrange(
                    base as int,
                    base + x,
                ),
            decreases w - x,
        {
            out.push(raw[base + x]);
            assert(raw@.subrange(base as int, base + x + 1) =~= raw@.subrange(
                base as int,
                base + x,
            ).push(raw@[base + x]));
            x = x + 1;
        }
        assert(rows_8bit(raw@, w as nat, s as nat, (y + 1) as nat) == rows_8bit(
            raw@,
            w as nat,
            s as nat,
            y as nat,
        ) + raw@.subrange(base as int, base + w));
        y = y + 1;
    }
    Ok(out)
}


// ───────────────────────── 10/12/16-bit planes ─────────────────────────

/// A little-endian 16-bit sample.
pub open spec fn le16(lo: u8, hi: u8) -> u16 {
    (lo as nat + 256 * (hi as nat)) as u16
}

/// A 16-bit sample shifted right by `shift` bits and clamped to 255.
pub open spec fn norm_sample(lo: u8, hi: u8, shift: u32) -> u8 {
    let v = le16(lo, hi) >> shift;
    if v > 255 {
        255u8
    } else {
        v as u8
    }
}

/// Row `y` of a 16-bit image reduced to 8 bits: `w` samples of two bytes from byte `y * stride`.
pub open spec fn norm_row(raw: Seq<u8>, w: nat, stride: nat, shift: u32, y: nat) -> Seq<u8> {
    Seq::new(
        w,
        |x: int| norm_sample(raw[y * stride + 2 * x], raw[y * stride + 2 * x + 1], shift),
    )
}

/// The first `n` rows reduced to 8 bits, laid end to end.
pub open spec fn norm_rows(raw: Seq<u8>, w: nat, stride: nat, shift: u32, n: nat) -> Seq<u8>
    decreases n,
{
    if n == 0 {
        Seq::<u8>::empty()
    } else {
        norm_rows(raw, w, stride, shift, (n - 1) as nat) + norm_row(
            raw,
            w,
            stride,
            shift,
            (n - 1) as nat,
        )
    }
}

/// The right shift that brings samples of `bit_depth` bits to 8 bits.
pub open spec fn depth_shift(bit_depth: u32) -> u32 {
    if bit_depth > 8 {
        (bit_depth - 8) as u32
    } else {
        0
    }
}

/// The message of the error for too short 16-bit Bayer data.
pub open spec fn short_16bit_message(need: nat, got: nat) -> Seq<char> {
    "demosaic_16bit: data too short, need "@ + dec(need) + " bytes, got "@ + dec(got)
}

/// The contiguous 8-bit plane of a 10/12/16-bit Bayer image (two bytes per
/// sample, little-endian): each sample is shifted right by `bit_depth - 8`
/// bits (none below 8 bits) and clamped to 255.
///
/// `stride` is the row step in bytes (0 means `2 * width`). The data must
/// hold `(height - 1) * stride + 2 * width` bytes, else the result is the
/// "too short" error. A depth of 24 bits or more cannot be reduced by a
/// 16-bit shift, so it is accepted only where no sample is read.
pub fn bayer_plane_16bit(
    raw: &[u8],
    width: u32,
    height: u32,
    stride: u32,
    bit_depth: u32,
) -> (r: Result<Vec<u8>, CameraError>)
    requires
        required_len(height as nat, effective_stride(stride, 2 * width as nat), 2 * width as nat)
            <= usize::MAX,
        2 * width <= usize::MAX,
        bit_depth < 24 || width == 0 || height == 0 || raw@.len() < required_len(
            height as nat,
            effective_stride(stride, 2 * width as nat),
            2 * width as nat,
        ),
    ensures
        r is Ok <==> raw@.len() >= required_len(
            height as nat,
            effective_stride(stride, 2 * width as nat),
            2 * width as nat,
        ),
        r matches Ok(v) ==> v@ == norm_rows(
            raw@,
            width as nat,
            effective_stride(stride, 2 * width as nat),
            depth_shift(bit_depth),
            height as nat,
        ),
        r matches Err(e) ==> e matches CameraError::GenericError(m) && m@ == short_16bit_message(
            required_len(
                height as nat,
                effective_stride(stride, 2 * width as nat),
                2 * width as nat,
            ),
            raw@.len(),
        ),
{
    let w = width as usize;
    let h = height as usize;
    let row_bytes: usize = w * 2;
    let s: usize = if stride == 0 { row_bytes } else { stride as usize };
    let required: usize = if h > 0 { (h - 1) * s + row_bytes } else { 0 };
    if raw.len() < required {
        let mut m = String::from_str("demosaic_16bit: data too short, need ");
        push_decimal(&mut m, required as u64);
        m.append(" bytes, got ");
        push_decimal(&mut m, raw.len() as u64);
        return Err(CameraError::GenericError(m));
    }
    let shift: u32 = if bit_depth > 8 { bit_depth - 8 } else { 0 };
    let mut out: Vec<u8> = Vec::new();
    let mut y: usize = 0;
    while y < h
        invariant
            w == width as nat,
            h == height as nat,
            row_bytes == 2 * w,
            s == effective_stride(stride, 2 * width as nat),
            required == required_len(h as nat, s as nat, row_bytes as nat),
            raw@.len() >= required,
            shift == depth_shift(bit_depth),
            w > 0 && h > 0 ==> shift < 16,
            y <= h,
            out@ == norm_rows(raw@, w as nat, s as nat, shift, y as nat),
        decreases h - y,
    {
        assert(y * s <= (h - 1) * s) by (nonlinear_arith)
            requires
                y < h,
        ;
        let base = y * s;
        let mut x: usize = 0;
        let ghost before = out@;
        while x < w
            invariant
                w == width as nat,
                row_bytes == 2 * w,
                y < h,
                base == y * s,
                base + row_bytes <= required,
                raw@.len() >= required,
                w > 0 ==> shift < 16,
                x <= w,
                out@ == before + norm_row(raw@, w as nat, s as nat, shift, y as nat).take(x as int),
            decreases w - x,
        {
            let off = base + 2 * x;
            let val: u16 = (raw[off] as u16) + (raw[off + 1] as u16) * 256;
            let v = val >> shift;
            let px: u8 = if v > 255 { 255 } else { v as u8 };
            assert(val == le16(raw@[off as int], raw@[off + 1]));
            out.push(px);
            assert(norm_row(raw@, w as nat, s as nat, shift, y as nat).take(x + 1) =~= norm_row(
                raw@,
                w as nat,
                s as nat,
                shift,
                y as nat,
            ).take(x as int).push(px));
            x = x + 1;
        }
        assert(norm_row(raw@, w as nat, s as nat, shift, y as nat).take(w as int) =~= norm_row(
            raw@,
            w as nat,
            s as nat,
            shift,
            y as nat,
        ));
        y = y + 1;
    }
    Ok(out)
}


// ───────────────────────── laws ─────────────────────────

/// A 16-bit value clamped to 255.
pub open spec fn clamp_255(v: nat) -> nat {
    if v > 255 {
        255
    } else {
        v
    }
}

/// Law: in the 8-bit plane of a Bayer image of depth `d` (below 24 bits),
/// sample `(y, x)` is the little-endian 16-bit value `v` at byte
/// `y × stride + 2x`, divided by `2^(d − 8)` when `d` exceeds 8 bits, and
/// clamped to 255: a 10-bit sample gives `min(v / 4, 255)`, a 12-bit one
/// `min(v / 16, 255)`, a 16-bit one `v / 256`; at 8 bits or fewer, `min(v, 255)`.
pub proof fn law_plane_16bit_depth(
    raw: Seq<u8>,
    w: nat,
    stride: nat,
    d: u32,
    h: nat,
    y: nat,
    x: nat,
)
    requires
        y < h,
        x < w,
        d < 24,
    ensures
        ({
            let v = raw[(y * stride + 2 * x) as int] as nat + 256 * raw[(y * stride + 2 * x
                + 1) as int] as nat;
            let p = norm_rows(raw, w, stride, depth_shift(d), h)[(y * w + x) as int] as nat;
            &&& d > 8 ==> p == clamp_255(v / pow2((d - 8) as nat))
            &&& d <= 8 ==> p == clamp_255(v)
        }),
{
    let lo = raw[(y * stride + 2 * x) as int];
    let hi = raw[(y * stride + 2 * x + 1) as int];
    law_plane_16bit_pixel(raw, w, stride, depth_shift(d), h, y, x);
    lemma_norm_sample_div(lo, hi, depth_shift(d));
    if d <= 8 {
        vstd::arithmetic::power::lemma_pow0(2);
        assert(pow2(0) == 1);
        let v = lo as nat + 256 * hi as nat;
        assert(v / 1 == v) by (nonlinear_arith);
    }
}

/// A sample shifted right by fewer than 16 bits is the 16-bit value divided
/// by `2^shift`, clamped to 255.
proof fn lemma_norm_sample_div(lo: u8, hi: u8, shift: u32)
    requires
        shift < 16,
    ensures
        norm_sample(lo, hi, shift) as nat == clamp_255(
            (lo as nat + 256 * hi as nat) / pow2(shift as nat),
        ),
{
    let v: u16 = le16(lo, hi);
    assert(v as nat == lo as nat + 256 * hi as nat);
    let s16: u16 = shift as u16;
    assert(v >> shift == v >> s16) by (bit_vector)
        requires
            shift < 16,
            s16 == shift as u16,
    ;
    vstd::bits::lemma_u16_shr_is_div(v, s16);
}

/// Law: the 8-bit plane has `h × w` samples, and sample `(y, x)` of the plane
/// (at `y × w + x`) is byte `y × stride + x` of the data.
pub proof fn law_plane_8bit_pixel(raw: Seq<u8>, w: nat, stride: nat, h: nat, y: nat, x: nat)
    requires
        raw.len() >= required_len(h, stride, w),
        y < h,
        x < w,
    ensures
        rows_8bit(raw, w, stride, h).len() == h * w,
        rows_8bit(raw, w, stride, h)[(y * w + x) as int] == raw[(y * stride + x) as int],
    decreases h,
{
    let last = (h - 1) as nat;
    lemma_rows_8bit_len(raw, w, stride, h);
    assert(last * w + w == h * w) by (nonlinear_arith)
        requires
            last + 1 == h,
    ;
    if y < last {
        assert(raw.len() >= required_len(last, stride, w)) by {
            if last > 0 {
                assert((last - 1) * stride <= last * stride) by (nonlinear_arith);
            }
        }
        law_plane_8bit_pixel(raw, w, stride, last, y, x);
        assert(y * w + x < last * w) by (nonlinear_arith)
            requires
                y < last,
                x < w,
        ;
    } else {
        assert(y == last);
    }
}

/// The 8-bit plane of `n` rows has `n × w` samples.
proof fn lemma_rows_8bit_len(raw: Seq<u8>, w: nat, stride: nat, n: nat)
    requires
        raw.len() >= required_len(n, stride, w),
    ensures
        rows_8bit(raw, w, stride, n).len() == n * w,
    decreases n,
{
    if n > 0 {
        let last = (n - 1) as nat;
        if last > 0 {
            assert((last - 1) * stride <= last * stride) by (nonlinear_arith);
        }
        lemma_rows_8bit_len(raw, w, stride, last);
        assert(last * w + w == n * w) by (nonlinear_arith)
            requires
                last + 1 == n,
        ;
        assert(raw.subrange((last * stride) as int, (last * stride + w) as int).len() == w);
        assert(rows_8bit(raw, w, stride, n) == rows_8bit(raw, w, stride, last) + raw.subrange(
            (last * stride) as int,
            (last * stride + w) as int,
        ));
    } else {
        assert(0 * w == 0);
    }
}

/// Law: the plane of a wide Bayer image has `h × w` samples, and sample
/// `(y, x)` is the two-byte sample at `y × stride + 2x`, shifted and clamped.
pub proof fn law_plane_16bit_pixel(
    raw: Seq<u8>,
    w: nat,
    stride: nat,
    shift: u32,
    h: nat,
    y: nat,
    x: nat,
)
    requires
        y < h,
        x < w,
    ensures
        norm_rows(raw, w, stride, shift, h).len() == h * w,
        norm_rows(raw, w, stride, shift, h)[(y * w + x) as int] == norm_sample(
            raw[(y * stride + 2 * x) as int],
            raw[(y * stride + 2 * x + 1) as int],
            shift,
        ),
    decreases h,
{
    let last = (h - 1) as nat;
    lemma_norm_rows_len(raw, w, stride, shift, h);
    lemma_norm_rows_len(raw, w, stride, shift, last);
    if y < last {
        law_plane_16bit_pixel(raw, w, stride, shift, last, y, x);
        assert(y * w + x < last * w) by (nonlinear_arith)
            requires
                y < last,
                x < w,
        ;
    } else {
        assert(y == last);
    }
}

/// The wide plane of `n` rows has `n × w` samples.
proof fn lemma_norm_rows_len(raw: Seq<u8>, w: nat, stride: nat, shift: u32, n: nat)
    ensures
        norm_rows(raw, w, stride, shift, n).len() == n * w,
    decreases n,
{
    if n > 0 {
        let last = (n - 1) as nat;
        lemma_norm_rows_len(raw, w, stride, shift, last);
        assert(last * w + w == n * w) by (nonlinear_arith)
            requires
                last + 1 == n,
        ;
    } else {
        assert(0 * w == 0);
    }
}

/// The character with ASCII lower-case letters made upper case.
pub open spec fn ascii_upper(c: char) -> char {
    if 'a' <= c && c <= 'z' {
        ((c as nat - 32) as nat) as char
    } else {
        c
    }
}

/// Law: detection does not depend on the case of ASCII letters: a name and
/// its ASCII upper-cased form announce the same pattern.
pub proof fn law_detect_ignores_case(s: Seq<char>)
    ensures
        detect_spec(s) == detect_spec(s.map_values(|c: char| ascii_upper(c))),
{
    let u = s.map_values(|c: char| ascii_upper(c));
    assert forall|k: int| 0 <= k < s.len() implies #[trigger] upper_code(u[k]) == upper_code(s[k]) by {
        let c = s[k];
        if 'a' <= c && c <= 'z' {
            assert((((c as nat - 32) as nat) as char) as nat == c as nat - 32);
        }
    }
    assert forall|pat: Seq<char>, i: int| matches_at(s, pat, i) == matches_at(u, pat, i) by {
        if matches_at(s, pat, i) {
            assert forall|j: int| 0 <= j < pat.len() implies #[trigger] upper_code(u[i + j])
                == pat[j] as nat by {
                assert(upper_code(s[i + j]) == pat[j] as nat);
            }
        }
        if matches_at(u, pat, i) {
            assert forall|j: int| 0 <= j < pat.len() implies #[trigger] upper_code(s[i + j])
                == pat[j] as nat by {
                assert(upper_code(u[i + j]) == pat[j] as nat);
            }
        }
    }
    assert forall|pat: Seq<char>| contains_upper(s, pat) == contains_upper(u, pat) by {
        if contains_upper(s, pat) {
            let i = choose|i: int| matches_at(s, pat, i);
            assert(matches_at(u, pat, i));
        }
        if contains_upper(u, pat) {
            let i = choose|i: int| matches_at(u, pat, i);
            assert(matches_at(s, pat, i));
        }
    }
}

} // verus!
