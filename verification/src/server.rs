//! The server's side of a framebuffer update: a builder that collects
//! rectangles and writes them out as one message.
use vstd::prelude::*;
use crate::protocol::Message;
use crate::protocol::encoding::{Encoding, Rectangle};
use crate::protocol::pixel::{CopyRect, PixelFormat, Rect};
use crate::protocol::s2c::{S2C, S2CView};
use crate::wire::put_bytes;
use crate::Result;

verus! {

/// The wire form of the header of a rectangle that covers `rect`.
pub open spec fn rectangle_header(rect: Rect, encoding: Encoding) -> Seq<u8> {
    Rectangle::encoding(
        Rectangle {
            x_position: rect.left,
            y_position: rect.top,
            width: rect.width,
            height: rect.height,
            encoding,
        },
    )->Ok_0
}

/// How many bytes the pixels of `rect` take in `format`.
pub open spec fn raw_length(format: PixelFormat, rect: Rect) -> nat {
    (rect.width as nat) * (rect.height as nat) * ((format.bits_per_pixel / 8) as nat)
}

/// A framebuffer update in the making: the rectangles added so far, already
/// in their wire form.
#[derive(Debug)]
pub struct FramebufferUpdate {
    pixel_format: PixelFormat,
    count: u16,
    bytes: Vec<u8>,
}

impl FramebufferUpdate {
    /// The pixel format that raw pixels are taken to be in.
    pub closed spec fn format(&self) -> PixelFormat {
        self.pixel_format
    }

    /// How many rectangles the update holds.
    pub closed spec fn count(&self) -> nat {
        self.count as nat
    }

    /// The rectangles of the update, headers and payloads, as they go on the
    /// wire.
    pub closed spec fn payload(&self) -> Seq<u8> {
        self.bytes@
    }

    /// The whole update as it goes on the wire: the message head with the
    /// number of rectangles, then the rectangles.
    pub open spec fn wire(&self) -> Seq<u8> {
        S2C::encoding(S2CView::FramebufferUpdate { count: self.count() as u16 })->Ok_0
            + self.payload()
    }

    /// An update without rectangles, for pixels in `pixel_format`.
    pub fn new(pixel_format: &PixelFormat) -> (update: FramebufferUpdate)
        ensures
            update.format() == *pixel_format,
            update.count() == 0,
            update.payload() == Seq::<u8>::empty(),
    {
        FramebufferUpdate { pixel_format: *pixel_format, count: 0, bytes: Vec::new() }
    }

    /// The pixel format that raw pixels are taken to be in.
    pub fn pixel_format(&self) -> (format: PixelFormat)
        ensures
            format == self.format(),
    {
        self.pixel_format
    }

    /// How many rectangles the update holds.
    pub fn rectangles(&self) -> (count: u16)
        ensures
            count == self.count(),
    {
        self.count
    }

    /// Adds a rectangle of raw pixels. The pixels are in the update's pixel
    /// format, row by row, and there are exactly as many as `rect` holds.
    pub fn add_raw_pixels(&mut self, rect: Rect, pixels: &[u8])
        requires
            old(self).count() < 0xFFFF,
            pixels@.len() == raw_length(old(self).format(), rect),
        ensures
            final(self).format() == old(self).format(),
            final(self).count() == old(self).count() + 1,
            final(self).payload() == old(self).payload() + rectangle_header(rect, Encoding::Raw)
                + pixels@,
    {
        let header = Rectangle {
            x_position: rect.left,
            y_position: rect.top,
            width: rect.width,
            height: rect.height,
            encoding: Encoding::Raw,
        };
        let _ = header.write_to(&mut self.bytes);
        put_bytes(&mut self.bytes, pixels);
        self.count = self.count + 1;
    }

    /// Adds a rectangle that the client fills by copying from the place
    /// (`src_x_position`, `src_y_position`) of its own framebuffer.
    pub fn add_copy_rect(&mut self, dst: Rect, src_x_position: u16, src_y_position: u16)
        requires
            old(self).count() < 0xFFFF,
        ensures
            final(self).format() == old(self).format(),
            final(self).count() == old(self).count() + 1,
            final(self).payload() == old(self).payload() + rectangle_header(
                dst,
                Encoding::CopyRect,
            ) + CopyRect::encoding(CopyRect { src_x_position, src_y_position })->Ok_0,
    {
        let header = Rectangle {
            x_position: dst.left,
            y_position: dst.top,
            width: dst.width,
            height: dst.height,
            encoding: Encoding::CopyRect,
        };
        let _ = header.write_to(&mut self.bytes);
        let _ = CopyRect { src_x_position, src_y_position }.write_to(&mut self.bytes);
        self.count = self.count + 1;
    }

    /// Appends the whole update to `writer`: the message head with the
    /// number of rectangles, then the rectangles in the order they were
    /// added.
    pub fn send_to(&self, writer: &mut Vec<u8>) -> (r: Result<()>)
        ensures
            r is Ok,
            final(writer)@ == old(writer)@ + self.wire(),
    {
        let _ = S2C::FramebufferUpdate { count: self.count }.write_to(writer);
        put_bytes(writer, self.bytes.as_slice());
        assert(writer@ =~= old(writer)@ + self.wire());
        Ok(())
    }
}

} // verus!
