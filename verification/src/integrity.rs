use vstd::prelude::*;

verus! {

/// The message-integrity attribute's 20-byte HMAC value.  Computing and
/// checking the digest is outside this codec's scope; the type only names
/// the payload that such an attribute carries.
#[derive(Clone, Debug)]
pub struct MessageIntegrity(pub Vec<u8>);

pub const MESSAGE_INTEGRITY_SIZE: usize = 20;

} // verus!
