//! A small publish/subscribe broker over TCP. Clients subscribe to named
//! keys, publish values on them, and unsubscribe; every publish is written
//! as `<key> <value>` to each current subscriber of its key.
//!
//! - `reader`: the read loop of one readable event, as a state machine.
//! - `protocol`: the wire grammar and the registry commands a message gives.
//! - `subs`: the subscription registry, one command at a time.
//! - `reactor`: the event loop's decisions on ids, reads and writes.
pub mod protocol;
pub mod reactor;
pub mod reader;
pub mod subs;
