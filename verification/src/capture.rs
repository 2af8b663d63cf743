//! The capture gate: what the global input hook decides about each raw
//! event, and the outbound queue it feeds. The hook itself (the platform's
//! interception callback) lives outside this crate and must do nothing but
//! call [`CaptureSource::handle_event`] and obey its verdict.

use vstd::prelude::*;
use crate::codec::{encode_pointer_event, sp_encode_ptr};
use crate::protocol::PointerEvent;

verus! {

/// A raw input event as the capture gate sees it: the designated toggle
/// hotkey, any other key press, a pointer move, or anything else.
#[derive(Clone, Copy, PartialEq, Eq, Structural, Debug)]
pub enum InputEvent {
    Key { toggle: bool },
    PointerMove { x: i32, y: i32 },
    Other,
}

/// The capture state and the outbound queue of pointer events, first in,
/// first out.
pub struct CaptureSource {
    pub capturing: bool,
    pub queue: Vec<PointerEvent>,
}

impl CaptureSource {
    /// A fresh gate: capture off, nothing queued.
    pub fn new() -> (r: Self)
        ensures
            !r.capturing,
            r.queue@ == Seq::<PointerEvent>::empty(),
    {
        CaptureSource { capturing: false, queue: Vec::new() }
    }

    /// Decide one raw event; the result says whether the caller must
    /// suppress its local delivery.
    ///
    /// - The toggle hotkey flips the capture state, is never suppressed,
    ///   and never enqueues.
    /// - While capture is off, every event passes through unsuppressed and
    ///   nothing is ever enqueued.
    /// - While capture is on, a pointer move is suppressed and enqueued
    ///   exactly once; every other event is suppressed and not enqueued.
    pub fn handle_event(&mut self, ev: InputEvent) -> (suppress: bool)
        ensures
            ev matches InputEvent::Key { toggle: true } ==> final(self).capturing == !old(
                self,
            ).capturing && !suppress && final(self).queue@ == old(self).queue@,
            !(ev matches InputEvent::Key { toggle: true }) ==> final(self).capturing == old(
                self,
            ).capturing,
            !old(self).capturing && !(ev matches InputEvent::Key { toggle: true }) ==> !suppress
                && final(self).queue@ == old(self).queue@,
            old(self).capturing ==> (ev matches InputEvent::PointerMove { x, y } ==> suppress
                && final(self).queue@ == old(self).queue@.push(PointerEvent { x, y })),
            old(self).capturing && !(ev matches InputEvent::PointerMove { .. }) && !(
            ev matches InputEvent::Key { toggle: true }) ==> suppress && final(self).queue@ == old(
                self,
            ).queue@,
    {
        match ev {
            InputEvent::Key { toggle } => {
                if toggle {
                    self.capturing = !self.capturing;
                    false
                } else {
                    self.capturing
                }
            },
            InputEvent::PointerMove { x, y } => {
                if self.capturing {
                    self.queue.push(PointerEvent { x, y });
                    true
                } else {
                    false
                }
            },
            InputEvent::Other => self.capturing,
        }
    }

    /// Hand the consumer the oldest queued pointer event, in enqueue order.
    pub fn next_outbound(&mut self) -> (r: Option<PointerEvent>)
        ensures
            final(self).capturing == old(self).capturing,
            old(self).queue@.len() == 0 ==> r is None && final(self).queue@ == old(self).queue@,
            old(self).queue@.len() > 0 ==> r == Some(old(self).queue@[0]) && final(self).queue@
                == old(self).queue@.drop_first(),
    {
        if self.queue.len() == 0 {
            None
        } else {
            let e = self.queue.remove(0);
            proof {
                assert(self.queue@ =~= old(self).queue@.drop_first());
            }
            Some(e)
        }
    }

    /// The next relay message to send: the oldest queued pointer event,
    /// serialized; events leave in enqueue order.
    pub fn next_outbound_text(&mut self) -> (r: Option<String>)
        ensures
            final(self).capturing == old(self).capturing,
            old(self).queue@.len() == 0 ==> r is None && final(self).queue@ == old(self).queue@,
            old(self).queue@.len() > 0 ==> (r matches Some(t) && t@ == sp_encode_ptr(
                old(self).queue@[0],
            )) && final(self).queue@ == old(self).queue@.drop_first(),
    {
        match self.next_outbound() {
            None => None,
            Some(e) => Some(encode_pointer_event(e)),
        }
    }
}

/// Turn capture on or off, leaving the queue alone.
pub fn set_capture(src: &mut CaptureSource, on: bool)
    ensures
        final(src).capturing == on,
        final(src).queue@ == old(src).queue@,
{
    src.capturing = on;
}

/// Whether capture is on.
pub fn is_capture_on(src: &CaptureSource) -> (r: bool)
    ensures
        r == src.capturing,
{
    src.capturing
}

} // verus!
