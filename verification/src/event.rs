//! The events that an element can be made to listen for.
use vstd::prelude::*;

verus! {

/// What can happen to an element while a page is in use.
#[derive(Clone, Copy, Debug)]
pub enum HtmlEvent {
    Click,
    MouseOver,
    Scroll,
    Change,
    KeyDown,
    KeyUp,
}

/// A wish to be told of an event.
#[derive(Clone, Copy, Debug)]
pub struct HtmlEventListener {
    pub event: HtmlEvent,
}

} // verus!
