use vstd::prelude::*;

verus! {

/// The recoverable failure conditions that the codec surfaces to its
/// callers.  Decoding never returns a half-populated message: it yields a
/// fully formed value or one of these errors.
#[derive(Clone, Copy, Debug, PartialEq, Eq, Structural)]
pub enum Error {
    /// The packet is shorter than the fixed header, carries a wrong magic
    /// cookie, or declares an attribute that would read past its end.
    MalformedPacket,
    /// An address attribute's value is too short for its declared family,
    /// or the family is not the supported IPv4 one.
    MalformedAttribute,
    /// An extra attribute was requested with a type outside the supported
    /// set.
    UnsupportedAttributeType,
    /// A variable-length attribute payload exceeds its protocol-defined
    /// maximum size.
    SizeExceeded,
}

} // verus!
