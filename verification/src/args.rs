//! The settings of an endpoint.

use vstd::prelude::*;
use crate::codec::Encoder;

verus! {

/// What the command line sets.
#[derive(Debug)]
pub struct Args {
    /// Send data from standard input.
    pub send: bool,
    /// Send data from this file; empty for none.
    pub input_file: String,
    /// The largest number of bytes in a segment.
    pub fragment_size: u16,
    /// Glyphs across a module of the QR code.
    pub scale_width: u8,
    /// Glyphs down a module of the QR code.
    pub scale_height: u8,
    /// Whether the QR code is shown without its quiet zone.
    pub hide_quiet_zone: bool,
    /// Receive data and write it to standard output.
    pub receive: bool,
    /// Receive data and write it to this file; empty for none.
    pub output_file: String,
}

impl Args {
    /// Whether the endpoint is the one that holds the stream: it was told to
    /// send, or it has a file to send.
    pub fn is_sender(&self) -> (yes: bool)
        ensures
            yes == (self.send || self.input_file@.len() > 0),
    {
        self.send || !is_empty(&self.input_file)
    }

    /// Whether the stream comes from a file.
    pub fn reads_file(&self) -> (yes: bool)
        ensures
            yes == (self.input_file@.len() > 0),
    {
        !is_empty(&self.input_file)
    }

    /// The encoder that these settings ask for.
    pub fn encoder(&self) -> (encoder: Encoder)
        ensures
            encoder.module_width() == self.scale_width,
            encoder.module_height() == self.scale_height,
            encoder.has_quiet_zone() == !self.hide_quiet_zone,
    {
        Encoder::new(self.scale_width as u32, self.scale_height as u32, !self.hide_quiet_zone)
    }
}

/// Whether `text` has no characters.
fn is_empty(text: &String) -> (yes: bool)
    ensures
        yes == (text@.len() == 0),
{
    text.as_str().unicode_len() == 0
}

} // verus!
