//! Streaming audio capture and recognition pipeline.
//!
//! The library is the verified core of a push-to-transcribe recorder: a
//! sample converter with saturating gain, a bounded drop-on-full frame
//! queue between the realtime capture callback and the consumer, a
//! recognizer driver that chunks samples for the speech decoder, and the
//! session state machine that ties them together. The operating-system
//! audio stream and the speech decoder themselves live outside, in the
//! application shell, which drives these components.

pub mod convert;
pub mod driver;
pub mod queue;
pub mod session;
pub mod sink;
