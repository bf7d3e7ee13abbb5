//! The engine's entry points and the event model, in one place.

pub use crate::capture::record;
pub use crate::event::{Event, MouseEventButton, MouseEventMove, RecordedEvents};
pub use crate::replay::start_playback;
