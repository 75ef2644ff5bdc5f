use crate::attribute::{Attribute, AttributeType, AttrView, ATTR_ERROR_CODE};
use crate::error::Error;
use crate::message::{Message, Setter};
use vstd::prelude::*;

verus! {

pub const ERROR_CODE_MODULO: u16 = 100;

pub const MAX_REASON_PHRASE_BYTES: usize = 763;

/// A protocol error code between 300 and 699, carried by an error-code
/// attribute as a class digit (the hundreds) and a two-digit number.
#[derive(Clone, Copy, Debug, PartialEq, Eq, Structural)]
pub struct ErrorCode(pub u16);

pub const CODE_TRY_ALTERNATE: u16 = 300;

pub const CODE_BAD_REQUEST: u16 = 400;

pub const CODE_UNAUTHORIZED: u16 = 401;

pub const CODE_UNKNOWN_ATTRIBUTE: u16 = 420;

pub const CODE_STALE_NONCE: u16 = 438;

pub const CODE_SERVER_ERROR: u16 = 500;

/// An error-code attribute before framing: the numeric code and the
/// human-readable reason phrase that follows it on the wire.
#[derive(Clone, Debug)]
pub struct ErrorCodeAttribute {
    pub code: ErrorCode,
    pub reason: Vec<u8>,
}

impl Setter for ErrorCodeAttribute {
    /// An error-code attribute can be framed when its reason phrase stays
    /// within the protocol's maximum.
    open spec fn spec_can_set(&self) -> bool {
        self.reason@.len() <= 763
    }

    /// The record's value: two reserved zero bytes, the class digit, the
    /// two-digit number, then the reason phrase.
    open spec fn spec_attribute(&self) -> AttrView {
        AttrView {
            typ: ATTR_ERROR_CODE,
            length: (4 + self.reason@.len()) as u16,
            value: seq![
                0u8,
                0u8,
                ((self.code.0 / 100) % 256) as u8,
                (self.code.0 % 100) as u8,
            ] + self.reason@,
        }
    }

    open spec fn spec_error(&self) -> Error {
        Error::SizeExceeded
    }

    fn set_extra_attribute(&self, m: &mut Message) -> (r: Result<(), Error>) {
        if self.reason.len() > MAX_REASON_PHRASE_BYTES {
            return Err(Error::SizeExceeded);
        }
        let mut raw: Vec<u8> = Vec::new();
        raw.push(0);
        raw.push(0);
        raw.push(((self.code.0 / ERROR_CODE_MODULO) % 256) as u8);
        raw.push((self.code.0 % ERROR_CODE_MODULO) as u8);
        let ghost header = raw@;
        let mut i: usize = 0;
        while i < self.reason.len()
            invariant
                i <= self.reason@.len(),
                raw@ == header + self.reason@.take(i as int),
            decreases self.reason@.len() - i,
        {
            raw.push(self.reason[i]);
            proof {
                assert(self.reason@.take(i + 1) =~= self.reason@.take(i as int).push(
                    self.reason@[i as int],
                ));
                assert(raw@ =~= header + self.reason@.take(i + 1));
            }
            i = i + 1;
        }
        proof {
            assert(self.reason@.take(self.reason@.len() as int) =~= self.reason@);
        }
        let length = raw.len() as u16;
        let attribute = Attribute::new(AttributeType(ATTR_ERROR_CODE), length, raw);
        let ghost av = attribute@;
        let ghost mapped_old = m@.attributes;
        m.attributes.push(attribute);
        proof {
            assert(av.value =~= self.spec_attribute().value);
            assert(m@.attributes =~= mapped_old.push(self.spec_attribute()));
        }
        Ok(())
    }
}

} // verus!
