//! Frames to and from pictures: what the QR encoder is handed to show a
//! frame, the luminance of a camera picture, and the frames among what was
//! read off a picture.

use vstd::prelude::*;
use vstd::slice::slice_to_vec;
use crate::frame::{sequence_of, well_formed, Frame};
use crate::log::Log;
use crate::message::views;
use crate::receiver::{malformed_text, next_offset, unexpected_frame_text};
use crate::source::offset_after;
use crate::text::label_number;

verus! {

/// Modules across the largest QR code, its quiet zone of four modules on
/// either side included.
pub const LARGEST_CODE: u32 = 185;

/// The glyph of a light module.
pub const LIGHT_GLYPH: char = '\u{2588}';

/// The glyph of a dark module.
pub const DARK_GLYPH: char = ' ';

/// How much of a QR code may be lost and the code still be read; more of it
/// leaves less room for data.
#[derive(Clone, Copy, Debug, PartialEq, Eq, Structural)]
pub enum ErrorCorrection {
    /// About 7% may be lost.
    L,
    /// About 15% may be lost.
    M,
    /// About 25% may be lost.
    Q,
    /// About 30% may be lost.
    H,
}

/// How a glyph block is laid out.
#[derive(Clone, Copy, Debug, PartialEq, Eq, Structural)]
pub struct Layout {
    /// Glyphs across a module.
    pub width: u32,
    /// Glyphs down a module.
    pub height: u32,
    /// Whether the code has its quiet zone around it.
    pub quiet_zone: bool,
    /// The glyph of a light module.
    pub light: char,
    /// The glyph of a dark module.
    pub dark: char,
}

/// What the QR encoder is handed for one frame.
#[derive(Debug)]
pub struct Rendering {
    /// The bytes that the QR code is to hold.
    pub data: Vec<u8>,
    /// How much of the code may be lost.
    pub level: ErrorCorrection,
    /// How the glyph block of the code is laid out.
    pub layout: Layout,
}

/// Whether a glyph block of modules `width` by `height` glyphs large can be
/// laid out for any QR code: its width and height in glyphs fit 32 bits,
/// and the bytes of its glyphs, four at most for each, and of its line
/// feeds fit a buffer.
pub open spec fn fits_canvas(width: u32, height: u32) -> bool {
    &&& LARGEST_CODE * at_least_one(width) <= u32::MAX
    &&& LARGEST_CODE * at_least_one(height) <= u32::MAX
    &&& 5 * ((LARGEST_CODE * at_least_one(width)) * (LARGEST_CODE * at_least_one(height)))
        <= isize::MAX
}

/// `n`, or 1 in place of 0: a module is never less than one glyph large.
pub open spec fn at_least_one(n: u32) -> u32 {
    if n == 0 {
        1
    } else {
        n
    }
}

/// Says how frames are turned into glyph blocks for the display.
pub struct Encoder {
    width: u32,
    height: u32,
    quiet_zone: bool,
}

impl Encoder {
    /// Glyphs across a module.
    pub closed spec fn module_width(&self) -> u32 {
        self.width
    }

    /// Glyphs down a module.
    pub closed spec fn module_height(&self) -> u32 {
        self.height
    }

    /// Whether the block has the quiet zone around the code.
    pub closed spec fn has_quiet_zone(&self) -> bool {
        self.quiet_zone
    }

    /// An encoder for modules `width` glyphs wide and `height` glyphs high,
    /// with or without the quiet zone around the code.
    pub fn new(width: u32, height: u32, quiet_zone: bool) -> (encoder: Self)
        ensures
            encoder.module_width() == width,
            encoder.module_height() == height,
            encoder.has_quiet_zone() == quiet_zone,
    {
        Encoder { width, height, quiet_zone }
    }

    /// How the encoder lays a glyph block out: light modules as full blocks,
    /// dark ones as spaces.
    pub open spec fn layout(&self) -> Layout {
        Layout {
            width: self.module_width(),
            height: self.module_height(),
            quiet_zone: self.has_quiet_zone(),
            light: LIGHT_GLYPH,
            dark: DARK_GLYPH,
        }
    }

    /// Whether the encoder's modules are small enough for the glyph block of
    /// any QR code to be laid out.
    pub fn fits(&self) -> (yes: bool)
        ensures
            yes == fits_canvas(self.module_width(), self.module_height()),
    {
        let width: u128 = if self.width == 0 {
            1
        } else {
            self.width as u128
        };
        let height: u128 = if self.height == 0 {
            1
        } else {
            self.height as u128
        };
        let across: u128 = LARGEST_CODE as u128 * width;
        let down: u128 = LARGEST_CODE as u128 * height;
        assert(across == 185 * width && down == 185 * height);
        assert(across * down <= 0x1_0000_0000_0000 * 0x1_0000_0000_0000) by (nonlinear_arith)
            requires
                across <= 0x1_0000_0000_0000,
                down <= 0x1_0000_0000_0000,
        ;
        across <= u32::MAX as u128 && down <= u32::MAX as u128 && 5 * (across * down)
            <= isize::MAX as u128
    }

    /// What the QR encoder is to render for `frame`: the bytes of the frame,
    /// at the lowest error correction level, which leaves the most room for
    /// them, in the encoder's layout.
    pub fn encode(&self, frame: &Frame) -> (rendering: Rendering)
        ensures
            rendering.data@ == frame@,
            rendering.level == ErrorCorrection::L,
            rendering.layout == self.layout(),
    {
        Rendering {
            data: slice_to_vec(frame.as_bytes()),
            level: ErrorCorrection::L,
            layout: Layout {
                width: self.width,
                height: self.height,
                quiet_zone: self.quiet_zone,
                light: LIGHT_GLYPH,
                dark: DARK_GLYPH,
            },
        }
    }
}

/// A picture as the camera gives it: rows of pixels from the top, each
/// pixel three bytes, red, green and blue.
pub struct RgbImage {
    width: u32,
    height: u32,
    pixels: Vec<u8>,
}

impl RgbImage {
    /// Pixels across.
    pub closed spec fn width(&self) -> u32 {
        self.width
    }

    /// Pixels down.
    pub closed spec fn height(&self) -> u32 {
        self.height
    }

    /// The bytes of the pixels.
    pub closed spec fn pixels(&self) -> Seq<u8> {
        self.pixels@
    }

    /// There are three bytes for each pixel.
    pub closed spec fn wf(&self) -> bool {
        self.pixels@.len() == 3 * self.width * self.height
    }

    /// A picture of `width` by `height` pixels, where `pixels` holds three
    /// bytes for each of them.
    pub fn new(width: u32, height: u32, pixels: Vec<u8>) -> (image: Option<Self>)
        ensures
            image is Some <==> pixels@.len() == 3 * width * height,
            image matches Some(picture) ==> {
                &&& picture.wf()
                &&& picture.width() == width
                &&& picture.height() == height
                &&& picture.pixels() == pixels@
            },
    {
        assert(width * height <= 0x1_0000_0000 * 0x1_0000_0000) by (nonlinear_arith)
            requires
                width <= 0x1_0000_0000,
                height <= 0x1_0000_0000,
        ;
        let area: u128 = width as u128 * (height as u128);
        assert(3 * width * height == 3 * area) by (nonlinear_arith)
            requires
                area == width * height,
        ;
        if pixels.len() as u128 == 3 * area {
            Some(RgbImage { width, height, pixels })
        } else {
            None
        }
    }
}

/// The 8-bit luminance of a picture of `width` by `height` pixels whose
/// bytes are `rgb`: one byte for each pixel, rows from the top.
pub uninterp spec fn luma_of(width: u32, height: u32, rgb: Seq<u8>) -> Seq<u8>;

/// `image::ImageBuffer::from_raw` for pixels of type `Rgb<u8>`, then
/// `image::DynamicImage::into_luma8` on the picture and `into_raw` on what
/// that gives. Trusted: a buffer of three bytes a pixel is taken, the
/// luminance is given the name `luma_of`, and it has one byte a pixel.
#[verifier::external_body]
fn to_luma(width: u32, height: u32, rgb: Vec<u8>) -> (luma: Option<Vec<u8>>)
    requires
        rgb@.len() == 3 * width * height,
    ensures
        luma is Some,
        luma matches Some(pixels) ==> pixels@ == luma_of(width, height, rgb@),
        luma matches Some(pixels) ==> pixels@.len() == width * height,
{
    match image::ImageBuffer::<image::Rgb<u8>, Vec<u8>>::from_raw(width, height, rgb) {
        Some(buffer) => Some(image::DynamicImage::ImageRgb8(buffer).into_luma8().into_raw()),
        None => None,
    }
}

impl RgbImage {
    /// The picture's 8-bit luminance: one byte for each pixel, rows from the
    /// top.
    pub fn into_luma8(self) -> (luma: Vec<u8>)
        requires
            self.wf(),
        ensures
            luma@ == luma_of(self.width(), self.height(), self.pixels()),
            luma@.len() == self.width() * self.height(),
    {
        let RgbImage { width, height, pixels } = self;
        match to_luma(width, height, pixels) {
            Some(luma) => luma,
            // Not reached: a picture of three bytes a pixel has a luminance.
            None => Vec::new(),
        }
    }
}

/// What was read off one QR code in a picture, the bytes of the code or how
/// reading it failed, with its bytes and its text as sequences.
pub open spec fn scan_view(scan: Result<Vec<u8>, String>) -> Result<Seq<u8>, Seq<char>> {
    match scan {
        Ok(payload) => Ok(payload@),
        Err(text) => Err(text@),
    }
}

/// What was read off the QR codes of one picture, as sequences.
pub open spec fn scan_views(scans: Seq<Result<Vec<u8>, String>>) -> Seq<
    Result<Seq<u8>, Seq<char>>,
> {
    Seq::new(scans.len(), |i: int| scan_view(scans[i]))
}

/// What the decoder makes of a row of scan entries.
pub struct Sifting {
    /// The sequence number that the decoder expects afterwards.
    pub expected_frame: usize,
    /// The frames that it lets through, in order.
    pub frames: Seq<Seq<u8>>,
    /// The lines that it writes to the log, in order.
    pub lines: Seq<Seq<char>>,
}

/// What a decoder that expects the sequence number `expected_frame` makes of
/// `scans`: a frame with that number is let through and the next number is
/// expected; for any other entry a line goes to the log.
pub open spec fn sifted(expected_frame: usize, scans: Seq<Result<Seq<u8>, Seq<char>>>) -> Sifting
    decreases scans.len(),
{
    if scans.len() == 0 {
        Sifting { expected_frame, frames: seq![], lines: seq![] }
    } else {
        let before = sifted(expected_frame, scans.drop_last());
        match scans.last() {
            Ok(payload) => {
                if !well_formed(payload) {
                    Sifting {
                        expected_frame: before.expected_frame,
                        frames: before.frames,
                        lines: before.lines.push(malformed_text()),
                    }
                } else if sequence_of(payload) == before.expected_frame {
                    Sifting {
                        expected_frame: offset_after(before.expected_frame),
                        frames: before.frames.push(payload),
                        lines: before.lines,
                    }
                } else {
                    Sifting {
                        expected_frame: before.expected_frame,
                        frames: before.frames,
                        lines: before.lines.push(unexpected_frame_text(sequence_of(payload))),
                    }
                }
            },
            Err(text) => Sifting {
                expected_frame: before.expected_frame,
                frames: before.frames,
                lines: before.lines.push(text),
            },
        }
    }
}

/// Lets the frames through that were read off the pictures of the camera,
/// each sequence number once and in order.
pub struct Decoder {
    expected_frame: usize,
    log: Log,
}

impl Decoder {
    /// The sequence number of the one frame that is let through next.
    pub closed spec fn expected_frame(&self) -> usize {
        self.expected_frame
    }

    /// The lines in the decoder's log that wait to be collected.
    pub closed spec fn lines(&self) -> Seq<Seq<char>> {
        self.log@
    }

    /// A decoder that expects the first frame and writes to `log`.
    pub fn new(log: Log) -> (decoder: Self)
        ensures
            decoder.expected_frame() == 0,
            decoder.lines() == log@,
    {
        Decoder { expected_frame: 0, log }
    }

    /// Hands out the lines that wait in the log, oldest first.
    pub fn drain_log(&mut self) -> (lines: Vec<String>)
        ensures
            final(self).lines() == Seq::<Seq<char>>::empty(),
            final(self).expected_frame() == old(self).expected_frame(),
            lines@.len() == old(self).lines().len(),
            forall|i: int|
                0 <= i < lines@.len() ==> (#[trigger] lines@[i])@ == old(self).lines()[i],
    {
        self.log.drain()
    }

    /// The frames among `scans` that are let through. `scans` holds what was
    /// read off one picture, an entry for each QR code that was found in it:
    /// the bytes of the code, or how reading it failed. A frame with the
    /// expected sequence number is let through and the next number is
    /// expected; for any other entry a line goes to the log.
    pub fn decode(&mut self, scans: Vec<Result<Vec<u8>, String>>) -> (frames: Vec<Frame>)
        ensures
            final(self).expected_frame() == sifted(
                old(self).expected_frame(),
                scan_views(scans@),
            ).expected_frame,
            views(frames@) == sifted(
                old(self).expected_frame(),
                scan_views(scans@),
            ).frames,
            final(self).lines() == old(self).lines() + sifted(
                old(self).expected_frame(),
                scan_views(scans@),
            ).lines,
    {
        let ghost all = scan_views(scans@);
        let ghost mut taken: int = 0;
        let mut queue = scans;
        let mut frames: Vec<Frame> = Vec::new();
        while queue.len() > 0
            invariant
                0 <= taken <= all.len(),
                scan_views(queue@) == all.subrange(taken, all.len() as int),
                self.expected_frame() == sifted(
                    old(self).expected_frame(),
                    all.subrange(0, taken),
                ).expected_frame,
                views(frames@) == sifted(
                    old(self).expected_frame(),
                    all.subrange(0, taken),
                ).frames,
                self.lines() == old(self).lines() + sifted(
                    old(self).expected_frame(),
                    all.subrange(0, taken),
                ).lines,
            decreases queue.len(),
        {
            let ghost waiting = scan_views(queue@);
            assert(waiting.len() == queue@.len());
            let entry = queue.remove(0);
            proof {
                assert(scan_view(entry) == waiting[0]);
                assert forall|j: int| 0 <= j < queue@.len() implies #[trigger] scan_views(
                    queue@,
                )[j] == all[taken + 1 + j] by {
                    assert(scan_views(queue@)[j] == waiting[j + 1]);
                }
                assert(all.subrange(0, taken + 1).drop_last() == all.subrange(0, taken));
            }
            match entry {
                Ok(payload) => {
                    let frame = Frame::new(payload);
                    if !frame.is_well_formed() {
                        self.log.log(String::from_str("Malformed frame"));
                    } else if frame.get_sequence() == self.expected_frame {
                        self.expected_frame = next_offset(self.expected_frame);
                        frames.push(frame);
                    } else {
                        self.log.log(label_number("Unexpected frame ", frame.get_sequence()));
                    }
                },
                Err(text) => {
                    self.log.log(text);
                },
            }
            proof {
                taken = taken + 1;
            }
        }
        assert(all.subrange(0, all.len() as int) == all);
        frames
    }
}

} // verus!
