use vstd::prelude::*;

verus! {

/// Failure kinds for traversal over a raw DNS message buffer.
///
/// Every cursor and iterator of this crate reports a structural problem
/// with the buffer through one of these kinds; no error is ever swallowed
/// or turned into a silent end-of-section.
#[derive(Clone, Copy, PartialEq, Eq, Structural, Debug)]
pub enum DnsError {
    /// A read at the current offset needs more bytes than remain in the buffer.
    PacketTooSmall,
    /// A CLASS value outside the supported set; reserved for callers that
    /// check classes, never produced by the traversal itself.
    UnsupportedClass,
    /// A name's label or compression-pointer encoding is structurally malformed.
    InvalidName,
    /// A structural field, such as RDLENGTH, implies a span past the end of
    /// the buffer, or header counts are inconsistent with the buffer length.
    InvalidPacket,
    /// An invariant expected to hold inside this crate was violated.
    InternalError,
}

} // verus!
