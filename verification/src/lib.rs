//! Zero-copy traversal of resource records inside a raw DNS message.
//!
//! The crate walks the answer, name-server and additional sections of a
//! packet by pure byte-offset arithmetic: a name cursor and a record cursor
//! compute where each record ends, a section iterator steps from record to
//! record, and a response iterator hides OPT pseudo-records from the
//! additional section.  Every offset computation is bounds-checked and
//! specified against a mathematical model of the wire format.

pub mod cursor;
pub mod errors;
pub mod packet;
pub mod response_iterator;
pub mod rr_iterator;
