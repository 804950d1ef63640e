//! The scheduler's unit of delivery: a timestamped background or text
//! change for a consumer to render.

use vstd::prelude::*;

use crate::kfn_ini::eff::{AnimEntry, TextEntry};

verus! {

/// Representing the states, that the player has to implement and display.
#[derive(Debug, Clone, PartialEq)]
pub struct Event {
    pub event_type: EventType,
    pub time: usize,
}

#[derive(Debug, Clone, PartialEq)]
pub enum EventType {
    Background(AnimEntry),
    Animation(AnimEntry),
    Text(TextEntry),
    Idle,
}

} // verus!
