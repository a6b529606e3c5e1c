//! The finished picture as bytes: a plain-text pixmap, and the raw samples
//! that an image encoder takes.
//!
//! Both are built from pixels that are already quantised to one byte for
//! each channel, in row-major order.

use vstd::prelude::*;

verus! {

/// The decimal digits of `n` as ASCII, without leading zeros.
pub open spec fn decimal(n: nat) -> Seq<u8>
    decreases n,
{
    if n < 10 {
        seq![(48 + n) as u8]
    } else {
        decimal(n / 10).push((48 + n % 10) as u8)
    }
}

/// The text of one pixel: its three channels in decimal, each followed by a
/// blank.
pub open spec fn pixel_text(p: (u8, u8, u8)) -> Seq<u8> {
    decimal(p.0 as nat).push(32u8) + decimal(p.1 as nat).push(32u8) + decimal(p.2 as nat).push(
        32u8,
    )
}

/// The text of the first `k` pixels.
pub open spec fn pixels_text(data: Seq<(u8, u8, u8)>, k: nat) -> Seq<u8>
    decreases k,
{
    if k == 0 {
        Seq::empty()
    } else {
        pixels_text(data, (k - 1) as nat) + pixel_text(data[k - 1])
    }
}

/// The header of a plain pixmap: the magic number, the width and the height,
/// and the largest channel value, 255.
pub open spec fn header_text(w: u32, h: u32) -> Seq<u8> {
    seq![80u8, 51u8, 10u8] + decimal(w as nat).push(32u8) + decimal(h as nat).push(10u8) + seq![
        50u8,
        53u8,
        53u8,
        10u8,
    ]
}

/// The whole pixmap: the header, then every pixel.
pub open spec fn pixmap_text(data: Seq<(u8, u8, u8)>, w: u32, h: u32) -> Seq<u8> {
    header_text(w, h) + pixels_text(data, data.len())
}

/// The first `k` pixels as raw samples, three bytes each.
pub open spec fn samples(data: Seq<(u8, u8, u8)>, k: nat) -> Seq<u8>
    decreases k,
{
    if k == 0 {
        Seq::empty()
    } else {
        samples(data, (k - 1) as nat).push(data[k - 1].0).push(data[k - 1].1).push(data[k - 1].2)
    }
}

/// Appends the decimal digits of `n`.
pub fn push_decimal(out: &mut Vec<u8>, n: u32)
    ensures
        final(out)@ == old(out)@ + decimal(n as nat),
    decreases n,
{
    if n < 10 {
        out.push(48 + n as u8);
        proof {
            assert(final(out)@ =~= old(out)@ + decimal(n as nat));
        }
    } else {
        push_decimal(out, n / 10);
        out.push(48 + (n % 10) as u8);
        proof {
            assert(out@ =~= old(out)@ + decimal(n as nat));
        }
    }
}

/// A picture in the plain-text pixmap format.
#[derive(Debug)]
pub struct PPM(Vec<u8>);

impl View for PPM {
    type V = Seq<u8>;

    closed spec fn view(&self) -> Seq<u8> {
        self.0@
    }
}

impl PPM {
    /// Writes out a picture of `w` by `h` pixels.
    pub fn new(data: &Vec<(u8, u8, u8)>, w: u32, h: u32) -> (ppm: PPM)
        ensures
            ppm@ == pixmap_text(data@, w, h),
    {
        let mut out: Vec<u8> = Vec::new();
        out.push(80);
        out.push(51);
        out.push(10);
        push_decimal(&mut out, w);
        out.push(32);
        push_decimal(&mut out, h);
        out.push(10);
        out.push(50);
        out.push(53);
        out.push(53);
        out.push(10);
        proof {
            assert(out@ =~= header_text(w, h));
        }
        let mut i: usize = 0;
        while i < data.len()
            invariant
                i <= data.len(),
                out@ == header_text(w, h) + pixels_text(data@, i as nat),
            decreases data.len() - i,
        {
            let ghost before = out@;
            let p = data[i];
            push_decimal(&mut out, p.0 as u32);
            out.push(32);
            push_decimal(&mut out, p.1 as u32);
            out.push(32);
            push_decimal(&mut out, p.2 as u32);
            out.push(32);
            proof {
                assert(out@ =~= before + pixel_text(p));
                assert(out@ =~= header_text(w, h) + pixels_text(data@, (i + 1) as nat));
            }
            i += 1;
        }
        PPM(out)
    }

    /// The bytes of the picture.
    pub fn data(&self) -> (bytes: &[u8])
        ensures
            bytes@ == self@,
    {
        self.0.as_slice()
    }
}

/// A picture as the raw samples of an 8-bit RGB image, with its size.
#[derive(Debug)]
pub struct PNG {
    data: Vec<u8>,
    w: u32,
    h: u32,
}

impl PNG {
    /// The samples, three bytes for each pixel.
    pub closed spec fn bytes(&self) -> Seq<u8> {
        self.data@
    }

    /// The width and the height in pixels.
    pub closed spec fn size(&self) -> (u32, u32) {
        (self.w, self.h)
    }

    /// Lays out a picture of `w` by `h` pixels.
    pub fn new(data: &Vec<(u8, u8, u8)>, w: u32, h: u32) -> (png: PNG)
        ensures
            png.bytes() == samples(data@, data@.len()),
            png.size() == (w, h),
    {
        let mut rgb: Vec<u8> = Vec::new();
        let mut i: usize = 0;
        while i < data.len()
            invariant
                i <= data.len(),
                rgb@ == samples(data@, i as nat),
            decreases data.len() - i,
        {
            let p = data[i];
            rgb.push(p.0);
            rgb.push(p.1);
            rgb.push(p.2);
            i += 1;
        }
        PNG { data: rgb, w, h }
    }

    /// The samples of the picture.
    pub fn data(&self) -> (bytes: &[u8])
        ensures
            bytes@ == self.bytes(),
    {
        self.data.as_slice()
    }

    /// The width in pixels.
    pub fn width(&self) -> (w: u32)
        ensures
            w == self.size().0,
    {
        self.w
    }

    /// The height in pixels.
    pub fn height(&self) -> (h: u32)
        ensures
            h == self.size().1,
    {
        self.h
    }
}

/// The raw samples hold three bytes for each pixel, and the three bytes at
/// `3 * i` are the channels of pixel `i`.
pub proof fn samples_are_interleaved(data: Seq<(u8, u8, u8)>, k: nat, i: int)
    requires
        0 <= i < k <= data.len(),
    ensures
        samples(data, k).len() == 3 * k,
        samples(data, k)[3 * i] == data[i].0,
        samples(data, k)[3 * i + 1] == data[i].1,
        samples(data, k)[3 * i + 2] == data[i].2,
    decreases k,
{
    samples_len(data, (k - 1) as nat);
    if i < k - 1 {
        samples_are_interleaved(data, (k - 1) as nat, i);
    }
}

proof fn samples_len(data: Seq<(u8, u8, u8)>, k: nat)
    ensures
        samples(data, k).len() == 3 * k,
    decreases k,
{
    if k > 0 {
        samples_len(data, (k - 1) as nat);
    }
}

} // verus!
