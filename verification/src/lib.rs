//! Keeps a mirror calendar equal to a source calendar: the event model, the
//! calendar record codec, the value-based diff and the decisions of the
//! periodic driver.

pub mod clock;
pub mod codec;
pub mod diff;
pub mod driver;
pub mod event;
pub mod index;
pub mod mirror;
pub mod record;
pub mod source;
pub mod text;
