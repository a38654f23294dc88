//! The browser native-messaging host: the length-prefixed message framing
//! shared by both wire legs, and the relay's decisions. Reading and writing
//! the streams, and parsing message bodies into typed values, is left to the
//! caller.

pub mod codec;
pub mod relay;
