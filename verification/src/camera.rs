//! The camera ingest: which mode the camera is set to, and what becomes of
//! what is read off each picture that it takes.

use vstd::prelude::*;
use crate::codec::{scan_views, sifted, Decoder};
use crate::frame::Frame;
use crate::message::views;

verus! {

/// The lowest frame rate, in pictures a second, that the ingest accepts.
pub const MIN_FRAME_RATE: u32 = 30;

/// The size of a picture in pixels.
#[derive(Clone, Copy, Debug, PartialEq, Eq, Structural)]
pub struct Resolution {
    pub width: u32,
    pub height: u32,
}

/// A resolution that the camera offers, with the frame rates that it offers
/// at that resolution.
#[derive(Debug)]
pub struct CameraMode {
    pub resolution: Resolution,
    pub frame_rates: Vec<u32>,
}

/// What the camera is set to.
#[derive(Clone, Copy, Debug, PartialEq, Eq, Structural)]
pub struct CameraFormat {
    pub resolution: Resolution,
    pub frame_rate: u32,
}

impl Resolution {
    /// The number of pixels.
    pub open spec fn area(self) -> int {
        self.width * self.height
    }
}

/// The largest of the rates; 0 where there is none.
pub open spec fn top_rate(rates: Seq<u32>) -> u32
    decreases rates.len(),
{
    if rates.len() == 0 {
        0
    } else if rates.last() > top_rate(rates.drop_last()) {
        rates.last()
    } else {
        top_rate(rates.drop_last())
    }
}

impl CameraMode {
    /// Whether the mode offers a frame rate that the ingest accepts.
    pub open spec fn fast_enough(&self) -> bool {
        top_rate(self.frame_rates@) >= MIN_FRAME_RATE
    }

    /// The format of this mode at its largest frame rate.
    pub open spec fn at_top_rate(&self) -> CameraFormat {
        CameraFormat { resolution: self.resolution, frame_rate: top_rate(self.frame_rates@) }
    }
}

/// Whether `format` is the choice among `modes`: the mode at `at` at its
/// largest frame rate, where that mode is fast enough, no fast enough mode
/// has more pixels, and none before it has as many.
pub open spec fn is_choice(modes: Seq<CameraMode>, at: int, format: CameraFormat) -> bool {
    &&& 0 <= at < modes.len()
    &&& modes[at].fast_enough()
    &&& format == modes[at].at_top_rate()
    &&& forall|other: int|
        0 <= other < modes.len() && (#[trigger] modes[other]).fast_enough()
            ==> modes[other].resolution.area() <= format.resolution.area()
    &&& forall|other: int|
        0 <= other < at && (#[trigger] modes[other]).fast_enough()
            ==> modes[other].resolution.area() < format.resolution.area()
}

/// The largest of the rates, if there is any.
pub fn max_frame_rate(rates: &Vec<u32>) -> (max: Option<u32>)
    ensures
        max == if rates@.len() == 0 {
            None
        } else {
            Some(top_rate(rates@))
        },
{
    if rates.len() == 0 {
        return None;
    }
    let mut top: u32 = 0;
    let mut i: usize = 0;
    while i < rates.len()
        invariant
            i <= rates.len(),
            top == top_rate(rates@.subrange(0, i as int)),
        decreases rates.len() - i,
    {
        assert(rates@.subrange(0, i + 1).drop_last() == rates@.subrange(0, i as int));
        if rates[i] > top {
            top = rates[i];
        }
        i += 1;
    }
    assert(rates@.subrange(0, rates@.len() as int) == rates@);
    Some(top)
}

/// The mode to set the camera to: of the modes that offer at least
/// `MIN_FRAME_RATE` pictures a second, the one with the most pixels, at its
/// largest frame rate; of several with as many pixels, the first. `None`
/// where no mode is fast enough.
pub fn select_format(modes: &Vec<CameraMode>) -> (choice: Option<CameraFormat>)
    ensures
        match choice {
            Some(format) => exists|at: int| is_choice(modes@, at, format),
            None => forall|at: int| 0 <= at < modes@.len() ==> !(#[trigger] modes@[at]).fast_enough(),
        },
{
    let mut choice: Option<CameraFormat> = None;
    let ghost mut chosen_at: int = 0;
    let mut i: usize = 0;
    while i < modes.len()
        invariant
            i <= modes.len(),
            match choice {
                Some(format) => is_choice(modes@.subrange(0, i as int), chosen_at, format),
                None => forall|at: int|
                    0 <= at < i ==> !(#[trigger] modes@[at]).fast_enough(),
            },
        decreases modes.len() - i,
    {
        let ghost seen = modes@.subrange(0, i as int);
        let ghost more = modes@.subrange(0, i + 1);
        let mode = &modes[i];
        let top = max_frame_rate(&mode.frame_rates);
        match top {
            Some(rate) => {
                if rate >= MIN_FRAME_RATE {
                    let larger = match choice {
                        Some(format) => pixels(mode.resolution) > pixels(format.resolution),
                        None => true,
                    };
                    if larger {
                        choice = Some(CameraFormat { resolution: mode.resolution, frame_rate: rate });
                        proof {
                            chosen_at = i as int;
                        }
                    }
                }
            },
            None => {},
        }
        proof {
            assert forall|at: int| 0 <= at < i implies #[trigger] more[at] == seen[at] by {}
            match choice {
                Some(format) => {
                    assert(is_choice(more, chosen_at, format)) by {
                        assert forall|other: int|
                            0 <= other < more.len() && (#[trigger] more[other]).fast_enough()
                            implies more[other].resolution.area() <= format.resolution.area() by {}
                        assert forall|other: int|
                            0 <= other < chosen_at && (#[trigger] more[other]).fast_enough()
                            implies more[other].resolution.area() < format.resolution.area() by {}
                    }
                },
                None => {},
            }
        }
        i += 1;
    }
    assert(modes@.subrange(0, modes@.len() as int) == modes@);
    choice
}

/// The number of pixels of a resolution.
pub fn pixels(resolution: Resolution) -> (count: u64)
    ensures
        count == resolution.area(),
{
    assert(resolution.width * resolution.height <= 0xFFFF_FFFF * 0xFFFF_FFFF) by (nonlinear_arith)
        requires
            resolution.width <= 0xFFFF_FFFF,
            resolution.height <= 0xFFFF_FFFF,
    ;
    resolution.width as u64 * (resolution.height as u64)
}

/// The ingest task: it takes what is read off each picture of the camera and
/// hands on the frames among it, until it is told to stop.
pub struct Camera {
    codec: Decoder,
    done: bool,
}

impl Camera {
    /// The decoder that lets the frames through.
    pub closed spec fn codec(&self) -> Decoder {
        self.codec
    }

    /// Whether the task was told to stop.
    pub closed spec fn done(&self) -> bool {
        self.done
    }

    /// A task that lets frames through with `codec`.
    pub fn new(codec: Decoder) -> (camera: Self)
        ensures
            camera.codec() == codec,
            !camera.done(),
    {
        Camera { codec, done: false }
    }

    /// Takes what was read off one picture, an entry for each QR code found
    /// in it: the frames that the decoder lets through are to go to the
    /// receiver task, in their order. `None` where there is none.
    pub fn ingest(&mut self, scans: Vec<Result<Vec<u8>, String>>) -> (found: Option<Vec<Frame>>)
        ensures
            final(self).done() == old(self).done(),
            ({
                let sifting = sifted(old(self).codec().expected_frame(), scan_views(scans@));
                &&& final(self).codec().expected_frame() == sifting.expected_frame
                &&& final(self).codec().lines() == old(self).codec().lines() + sifting.lines
                &&& match found {
                    Some(frames) => frames@.len() > 0 && views(frames@) == sifting.frames,
                    None => sifting.frames.len() == 0,
                }
            }),
    {
        let frames = self.codec.decode(scans);
        if frames.len() == 0 {
            None
        } else {
            Some(frames)
        }
    }

    /// Hands out the lines that wait in the decoder's log, oldest first.
    pub fn drain_log(&mut self) -> (lines: Vec<String>)
        ensures
            final(self).done() == old(self).done(),
            final(self).codec().lines() == Seq::<Seq<char>>::empty(),
            final(self).codec().expected_frame() == old(self).codec().expected_frame(),
            lines@.len() == old(self).codec().lines().len(),
            forall|i: int|
                0 <= i < lines@.len() ==> (#[trigger] lines@[i])@ == old(self).codec().lines()[i],
    {
        self.codec.drain_log()
    }

    /// Tells the task to stop after the picture at hand.
    pub fn stop(&mut self)
        ensures
            final(self).done(),
            final(self).codec() == old(self).codec(),
    {
        self.done = true;
    }

    /// Whether the task is to stop.
    pub fn is_done(&self) -> (done: bool)
        ensures
            done == self.done(),
    {
        self.done
    }
}

} // verus!
