//! The macOS capturer's platform-independent part.
//!
//! A `Display` holds what CoreGraphics reports for one display; a
//! `Capturer` waits (up to a timeout) for the display stream's callback to
//! deliver a frame through a `FrameSlot`, instead of polling, and hands the
//! frame downstream as a `PixelBuffer` of the capturer's size.
use crate::frame_slot::FrameSlot;
use std::sync::Arc;
use std::time::Duration;
use vstd::prelude::*;

verus! {

/// The character of a decimal digit.
pub open spec fn digit_char(d: nat) -> char {
    (48 + d) as char
}

/// The decimal representation of `n`, without leading zeros.
pub open spec fn decimal_digits(n: nat) -> Seq<char>
    decreases n,
{
    if n < 10 {
        seq![digit_char(n)]
    } else {
        decimal_digits(n / 10).push(digit_char(n % 10))
    }
}

/// The one-character string of a decimal digit.
fn digit_str(d: u32) -> (r: &'static str)
    requires
        d < 10,
    ensures
        r@ == seq![digit_char(d as nat)],
{
    proof {
        reveal_strlit("0");
        reveal_strlit("1");
        reveal_strlit("2");
        reveal_strlit("3");
        reveal_strlit("4");
        reveal_strlit("5");
        reveal_strlit("6");
        reveal_strlit("7");
        reveal_strlit("8");
        reveal_strlit("9");
    }
    if d == 0 {
        "0"
    } else if d == 1 {
        "1"
    } else if d == 2 {
        "2"
    } else if d == 3 {
        "3"
    } else if d == 4 {
        "4"
    } else if d == 5 {
        "5"
    } else if d == 6 {
        "6"
    } else if d == 7 {
        "7"
    } else if d == 8 {
        "8"
    } else {
        "9"
    }
}

/// `n` written in decimal.
fn decimal(n: u32) -> (r: String)
    ensures
        r@ == decimal_digits(n as nat),
    decreases n,
{
    if n < 10 {
        String::from_str(digit_str(n))
    } else {
        let mut s = decimal(n / 10);
        s.append(digit_str(n % 10));
        s
    }
}

/// A display as CoreGraphics reports it.
pub struct Display {
    id: u32,
    width: usize,
    height: usize,
    origin: (i32, i32),
    online: bool,
    primary: bool,
}

impl Display {
    pub closed spec fn spec_id(&self) -> u32 {
        self.id
    }

    pub closed spec fn spec_width(&self) -> usize {
        self.width
    }

    pub closed spec fn spec_height(&self) -> usize {
        self.height
    }

    pub closed spec fn spec_origin(&self) -> (i32, i32) {
        self.origin
    }

    pub closed spec fn spec_online(&self) -> bool {
        self.online
    }

    pub closed spec fn spec_primary(&self) -> bool {
        self.primary
    }

    /// The display with the given CoreGraphics id, size in pixels, origin
    /// in global display coordinates, and online and main-display flags.
    pub fn new(
        id: u32,
        width: usize,
        height: usize,
        origin: (i32, i32),
        online: bool,
        primary: bool,
    ) -> (r: Display)
        ensures
            r.spec_id() == id,
            r.spec_width() == width,
            r.spec_height() == height,
            r.spec_origin() == origin,
            r.spec_online() == online,
            r.spec_primary() == primary,
    {
        Display { id, width, height, origin, online, primary }
    }

    pub fn width(&self) -> (r: usize)
        ensures
            r == self.spec_width(),
    {
        self.width
    }

    pub fn height(&self) -> (r: usize)
        ensures
            r == self.spec_height(),
    {
        self.height
    }

    /// The display's name: its CoreGraphics id in decimal.
    pub fn name(&self) -> (r: String)
        ensures
            r@ == decimal_digits(self.spec_id() as nat),
    {
        decimal(self.id)
    }

    pub fn is_online(&self) -> (r: bool)
        ensures
            r == self.spec_online(),
    {
        self.online
    }

    /// The display's origin in global display coordinates.
    pub fn origin(&self) -> (r: (i32, i32))
        ensures
            r == self.spec_origin(),
    {
        self.origin
    }

    pub fn is_primary(&self) -> (r: bool)
        ensures
            r == self.spec_primary(),
    {
        self.primary
    }
}

/// The pixel layout of captured frames.
#[derive(Clone, Copy, PartialEq, Eq, Structural, Debug)]
pub enum Pixfmt {
    BGRA,
}

/// Why no frame came back.
#[derive(Clone, Copy, PartialEq, Eq, Structural, Debug)]
pub enum CaptureError {
    /// No frame arrived within the timeout.
    WouldBlock,
}

/// A captured frame with the size of the display it came from.
pub struct PixelBuffer<F> {
    frame: F,
    width: usize,
    height: usize,
}

impl<F> PixelBuffer<F> {
    pub closed spec fn spec_frame(&self) -> F {
        self.frame
    }

    pub closed spec fn spec_width(&self) -> usize {
        self.width
    }

    pub closed spec fn spec_height(&self) -> usize {
        self.height
    }

    /// The captured frame.
    pub fn frame(&self) -> (r: &F)
        ensures
            *r == self.spec_frame(),
    {
        &self.frame
    }

    pub fn width(&self) -> (r: usize)
        ensures
            r == self.spec_width(),
    {
        self.width
    }

    pub fn height(&self) -> (r: usize)
        ensures
            r == self.spec_height(),
    {
        self.height
    }

    /// Frames arrive as BGRA.
    pub fn pixfmt(&self) -> (r: Pixfmt)
        ensures
            r == Pixfmt::BGRA,
    {
        Pixfmt::BGRA
    }
}

/// `Arc::clone`: another handle to the same slot.
#[verifier::external_body]
fn share<F>(slot: &Arc<FrameSlot<F>>) -> (r: Arc<FrameSlot<F>>)
    ensures
        r == *slot,
{
    Arc::clone(slot)
}

/// Captures one display: the display stream's callback puts each new frame
/// into the slot, and `frame` takes it out.
#[verifier::reject_recursive_types(F)]
pub struct Capturer<F> {
    slot: Arc<FrameSlot<F>>,
    width: usize,
    height: usize,
}

impl<F> Capturer<F> {
    pub closed spec fn spec_width(&self) -> usize {
        self.width
    }

    pub closed spec fn spec_height(&self) -> usize {
        self.height
    }

    /// The slot the capture callback stores frames through.
    pub closed spec fn spec_slot(&self) -> Arc<FrameSlot<F>> {
        self.slot
    }

    /// A capturer for the display, with an empty slot.
    pub fn new(display: Display) -> (r: Self)
        ensures
            r.spec_width() == display.spec_width(),
            r.spec_height() == display.spec_height(),
    {
        Capturer { slot: Arc::new(FrameSlot::new()), width: display.width(), height: display.height() }
    }

    /// The handle the display stream's callback stores frames through.
    pub fn producer(&self) -> (r: Arc<FrameSlot<F>>)
        ensures
            r == self.spec_slot(),
    {
        share(&self.slot)
    }

    pub fn width(&self) -> (r: usize)
        ensures
            r == self.spec_width(),
    {
        self.width
    }

    pub fn height(&self) -> (r: usize)
        ensures
            r == self.spec_height(),
    {
        self.height
    }

    /// Wait up to `timeout` for the capture callback to deliver a frame;
    /// `WouldBlock` when none arrived. Whatever the slot's `take` hands out
    /// goes through `frame_result` with the capturer's size.
    pub fn frame(&mut self, timeout: Duration) -> (r: Result<PixelBuffer<F>, CaptureError>)
        ensures
            *final(self) == *old(self),
            r matches Ok(pb) ==> pb.spec_width() == old(self).spec_width() && pb.spec_height()
                == old(self).spec_height(),
            r matches Err(e) ==> e == CaptureError::WouldBlock,
    {
        let taken = self.slot.take(timeout);
        frame_result(taken, self.width(), self.height())
    }
}

/// What `Capturer::frame` hands on for what it took from the slot: a pixel
/// buffer of the capturer's size around a delivered frame, `WouldBlock` when
/// none was delivered.
pub fn frame_result<F>(taken: Option<F>, width: usize, height: usize) -> (r: Result<
    PixelBuffer<F>,
    CaptureError,
>)
    ensures
        taken is None ==> r == Err::<PixelBuffer<F>, CaptureError>(CaptureError::WouldBlock),
        taken matches Some(f) ==> (r matches Ok(pb) && pb.spec_frame() == f && pb.spec_width()
            == width && pb.spec_height() == height),
{
    match taken {
        Some(frame) => Ok(PixelBuffer { frame, width, height }),
        None => Err(CaptureError::WouldBlock),
    }
}

} // verus!
