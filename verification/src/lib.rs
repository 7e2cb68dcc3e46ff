//! A minimal railway block-signalling authority.
//!
//! Trains enter a single track at block 0, are authorised to move forward
//! block by block, and leave once they have reached the last block.  The
//! crate decides, for every textual request, whether it is granted and how the
//! registry of trains changes.
//!
//! [`handle_message`] is the entry point: it takes one message and the
//! registry, applies the request and returns the text to send back.  It never
//! fails: whatever the message, the answer is one of the texts of
//! [`Outcome`], and a request that is refused leaves the registry as it was.
//!
//! The modules, from the leaves up:
//! - [`outcome`]: the answers and their texts;
//! - [`train`]: one train, its class and its moves;
//! - [`message`]: the wire grammar;
//! - [`registry`]: the queue of trains and the requests that change it.

pub mod message;
pub mod outcome;
pub mod registry;
pub mod train;

pub use message::{parse_block, parse_message, split, Command};
pub use outcome::Outcome;
pub use registry::{
    find, handle_forward, handle_message, handle_register, unregister, TRACKLENGTH,
};
pub use train::{Train, TrainClass, INTSPEED, TERSPEED, TGVSPEED};
