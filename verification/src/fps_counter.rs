//! The FPS overlay counter: turns the last frame time into the ASCII message
//! drawn in the corner of the window, and remembers whether the overlay is
//! currently shown.
//!
//! The message is held as ASCII bytes and rebuilt each frame from the frame
//! time in microseconds: `fps: <whole>.<hundredths>` with the rate truncated
//! to hundredths, or `fps: N/A` when no time has passed.

use vstd::prelude::*;

verus! {

/// The ASCII decimal digits of `n`, most significant first.
pub open spec fn dec_ascii(n: nat) -> Seq<u8>
    decreases n,
{
    if n < 10 {
        seq![(48 + n) as u8]
    } else {
        dec_ascii(n / 10).push((48 + n % 10) as u8)
    }
}

/// The overlay message for a frame that took `dt_us` microseconds: the rate
/// in frames per second with two (truncated) decimal places.
pub open spec fn fps_message(dt_us: nat) -> Seq<u8> {
    if dt_us == 0 {
        seq![102u8, 112u8, 115u8, 58u8, 32u8, 78u8, 47u8, 65u8]  // "fps: N/A"
    } else {
        let hundredths = 100_000_000 as nat / dt_us;
        seq![102u8, 112u8, 115u8, 58u8, 32u8]  // "fps: "
         + dec_ascii(hundredths / 100) + seq![46u8]  // "."
         + seq![(48 + (hundredths / 10) % 10) as u8, (48 + hundredths % 10) as u8]
    }
}

/// Append the ASCII decimal digits of `n`.
fn push_decimal(out: &mut Vec<u8>, n: u64)
    ensures
        final(out)@ == old(out)@ + dec_ascii(n as nat),
    decreases n,
{
    if n < 10 {
        out.push(48 + n as u8);
        proof {
            assert(out@ =~= old(out)@ + dec_ascii(n as nat));
        }
    } else {
        push_decimal(out, n / 10);
        out.push(48 + (n % 10) as u8);
        proof {
            assert(out@ =~= old(out)@ + dec_ascii(n as nat));
        }
    }
}

/// The FPS overlay state.
#[derive(Debug)]
pub struct FpsCounter {
    show_fps: bool,
    message_buf: Vec<u8>,
}

impl FpsCounter {
    /// Is the overlay currently shown?
    pub closed spec fn spec_show_fps(self) -> bool {
        self.show_fps
    }

    /// The current message bytes.
    pub closed spec fn spec_message(self) -> Seq<u8> {
        self.message_buf@
    }

    /// A counter that starts visible with an empty message.
    pub fn new() -> (r: FpsCounter)
        ensures
            r.spec_show_fps(),
            r.spec_message().len() == 0,
    {
        FpsCounter { show_fps: true, message_buf: Vec::new() }
    }

    /// Toggle the overlay's visibility.
    pub fn toggle_show_fps(&mut self)
        ensures
            final(self).spec_show_fps() == !old(self).spec_show_fps(),
            final(self).spec_message() == old(self).spec_message(),
    {
        self.show_fps = !self.show_fps;
    }

    /// Rebuild the message from the last frame time, in microseconds.
    pub fn update_fps(&mut self, dt_us: u64)
        ensures
            final(self).spec_message() == fps_message(dt_us as nat),
            final(self).spec_show_fps() == old(self).spec_show_fps(),
    {
        self.message_buf.clear();
        self.message_buf.push(102);
        self.message_buf.push(112);
        self.message_buf.push(115);
        self.message_buf.push(58);
        self.message_buf.push(32);
        if dt_us == 0 {
            self.message_buf.push(78);
            self.message_buf.push(47);
            self.message_buf.push(65);
            proof {
                assert(self.message_buf@ =~= fps_message(dt_us as nat));
            }
        } else {
            let hundredths: u64 = 100_000_000 / dt_us;
            let ghost before = self.message_buf@;
            push_decimal(&mut self.message_buf, hundredths / 100);
            self.message_buf.push(46);
            self.message_buf.push(48 + ((hundredths / 10) % 10) as u8);
            self.message_buf.push(48 + (hundredths % 10) as u8);
            proof {
                assert(self.message_buf@ =~= fps_message(dt_us as nat));
            }
        }
    }

    /// The current message bytes, for the driver to draw.
    pub fn message(&self) -> (r: &Vec<u8>)
        ensures
            r@ == self.spec_message(),
    {
        &self.message_buf
    }

    /// The text section to queue this frame, or nothing while the overlay is
    /// hidden: the message at the fixed overlay anchor, double-size, white.
    pub fn queue_text(&self) -> (r: Option<TextSection<'_>>)
        ensures
            match r {
                Some(section) => self.spec_show_fps() && section.text@ == self.spec_message()
                    && section.x_mf == 5000 && section.y_mf == 5000 && section.scale_mf == 64_000
                    && section.color_pm == [1000u16, 1000u16, 1000u16, 1000u16],
                None => !self.spec_show_fps(),
            },
    {
        if self.show_fps {
            Some(
                TextSection {
                    text: &self.message_buf,
                    x_mf: 5000,
                    y_mf: 5000,
                    scale_mf: 64_000,
                    color_pm: [1000, 1000, 1000, 1000],
                },
            )
        } else {
            None
        }
    }
}

/// One queued overlay text run: message bytes, anchor position and scale in
/// thousandths of a pixel, and an RGBA colour in thousandths.
#[derive(Debug)]
pub struct TextSection<'a> {
    pub text: &'a Vec<u8>,
    pub x_mf: i64,
    pub y_mf: i64,
    pub scale_mf: i64,
    pub color_pm: [u16; 4],
}

} // verus!
