use crate::error::Error;
use crate::message::{Message, Setter};
use vstd::prelude::*;
use vstd::string::StrSliceExecFns;

verus! {

pub const MAX_NONCE_BYTES: usize = 763;

pub const MAX_REALM_BYTES: usize = 763;

/// A 16-bit attribute type code.  The registry below lists the codes this
/// crate knows; decoding preserves unrecognized codes verbatim so that a
/// forwarded message keeps them intact.
#[derive(Clone, Copy, Debug, PartialEq, Eq, Structural)]
pub struct AttributeType(pub u16);

pub const ATTR_USERNAME: u16 = 0x0006;

pub const ATTR_MESSAGE_INTEGRITY: u16 = 0x0008;

pub const ATTR_ERROR_CODE: u16 = 0x0009;

pub const ATTR_UNKNOWN_ATTRIBUTES: u16 = 0x000A;

pub const ATTR_REALM: u16 = 0x0014;

pub const ATTR_NONCE: u16 = 0x0015;

pub const ATTR_REQUESTED_TRANSPORT: u16 = 0x0019;

pub const ATTR_XORMAPPED_ADDRESS: u16 = 0x0020;

pub const ATTR_FINGERPRINT: u16 = 0x8028;

impl AttributeType {
    /// Whether this code is one of the registry's known codes.
    pub open spec fn spec_is_registered(self) -> bool {
        self.0 == 0x0006 || self.0 == 0x0008 || self.0 == 0x0009 || self.0 == 0x000A
            || self.0 == 0x0014 || self.0 == 0x0015 || self.0 == 0x0019 || self.0 == 0x0020
            || self.0 == 0x8028
    }

    /// Whether this code is one of the registry's known codes.
    pub fn is_registered(self) -> (r: bool)
        ensures
            r == self.spec_is_registered(),
    {
        self.0 == 0x0006 || self.0 == 0x0008 || self.0 == 0x0009 || self.0 == 0x000A
            || self.0 == 0x0014 || self.0 == 0x0015 || self.0 == 0x0019 || self.0 == 0x0020
            || self.0 == 0x8028
    }

    /// The registry code this one stands for: itself when known, and the
    /// unknown-attributes marker for every unrecognized code.
    pub fn registry_type(self) -> (r: AttributeType)
        ensures
            self.spec_is_registered() ==> r == self,
            !self.spec_is_registered() ==> r == (AttributeType(0x000A)),
    {
        if self.is_registered() {
            self
        } else {
            AttributeType(ATTR_UNKNOWN_ATTRIBUTES)
        }
    }
}

/// The mathematical shape of one type-length-value record: a type code, the
/// unpadded byte length of the value, and the value bytes themselves.
#[verifier::ext_equal]
pub ghost struct AttrView {
    pub typ: u16,
    pub length: u16,
    pub value: Seq<u8>,
}

impl AttrView {
    /// A record is well formed when its declared length matches its value.
    pub open spec fn wf(self) -> bool {
        self.value.len() == self.length as nat
    }
}

/// One type-length-value record.  `length` is always the unpadded byte
/// length of `value`; the 0-3 zero bytes that align a record on the wire
/// are a framing concern and never part of the value.
#[derive(Clone, Debug)]
pub struct Attribute {
    pub typ: AttributeType,
    pub length: u16,
    pub value: Vec<u8>,
}

impl View for Attribute {
    type V = AttrView;

    open spec fn view(&self) -> AttrView {
        AttrView { typ: self.typ.0, length: self.length, value: self.value@ }
    }
}

impl Attribute {
    pub fn new(typ: AttributeType, length: u16, value: Vec<u8>) -> (r: Attribute)
        requires
            value@.len() == length as nat,
        ensures
            r@ == (AttrView { typ: typ.0, length: length, value: value@ }),
            r@.wf(),
    {
        Attribute { typ, length, value }
    }
}

/// A text-valued extension attribute - a realm or a nonce - before
/// framing: the type code it should carry and the text itself.
#[derive(Clone, Debug)]
pub struct TextAttribute {
    pub attr: AttributeType,
    pub text: String,
}

impl TextAttribute {
    pub fn new(attr: AttributeType, text: String) -> (r: TextAttribute)
        ensures
            r.attr == attr,
            r.text@ == text@,
    {
        TextAttribute { attr, text }
    }
}

pub type Nonce = TextAttribute;

pub type Realm = TextAttribute;

impl Setter for TextAttribute {
    /// A text attribute can be framed when its type is nonce or realm and
    /// its UTF-8 bytes stay within the protocol's maximum.
    open spec fn spec_can_set(&self) -> bool {
        (self.attr.0 == ATTR_NONCE || self.attr.0 == ATTR_REALM)
            && vstd::utf8::encode_utf8(self.text@).len() <= 763
    }

    open spec fn spec_attribute(&self) -> AttrView {
        AttrView {
            typ: self.attr.0,
            length: vstd::utf8::encode_utf8(self.text@).len() as u16,
            value: vstd::utf8::encode_utf8(self.text@),
        }
    }

    open spec fn spec_error(&self) -> Error {
        if self.attr.0 == ATTR_NONCE || self.attr.0 == ATTR_REALM {
            Error::SizeExceeded
        } else {
            Error::UnsupportedAttributeType
        }
    }

    fn set_extra_attribute(&self, m: &mut Message) -> (r: Result<(), Error>) {
        let max_len: usize = if self.attr.0 == ATTR_NONCE {
            MAX_NONCE_BYTES
        } else if self.attr.0 == ATTR_REALM {
            MAX_REALM_BYTES
        } else {
            return Err(Error::UnsupportedAttributeType);
        };
        let bytes = self.text.as_str().as_bytes_vec();
        if bytes.len() > max_len {
            return Err(Error::SizeExceeded);
        }
        let length = bytes.len() as u16;
        let attribute = Attribute::new(self.attr, length, bytes);
        let ghost mapped_old = m@.attributes;
        m.attributes.push(attribute);
        proof {
            assert(m@.attributes =~= mapped_old.push(self.spec_attribute()));
        }
        Ok(())
    }
}

/// The value length rounded up to the next multiple of four: the number of
/// bytes a record's value occupies on the wire, alignment padding included.
pub open spec fn spec_padded_len(l: int) -> int {
    if l % 4 == 0 {
        l
    } else {
        (l / 4 + 1) * 4
    }
}

/// The full on-wire size of a record with unpadded value length `l`: the
/// 4-byte type-and-length header plus the padded value.
pub open spec fn spec_attr_stride(l: int) -> int {
    4 + spec_padded_len(l)
}

pub proof fn lemma_padded_len_bounds(l: int)
    requires
        0 <= l,
    ensures
        l <= spec_padded_len(l) < l + 4,
        spec_padded_len(l) % 4 == 0,
{
}

/// A sequence of `n` zero bytes.
pub open spec fn spec_zeros(n: int) -> Seq<u8> {
    Seq::new(n as nat, |i: int| 0u8)
}

/// The wire bytes of one record: big-endian type code, big-endian unpadded
/// length, the value, then the zero bytes that align the record on a
/// 4-byte boundary.
pub open spec fn spec_encode_attribute(a: AttrView) -> Seq<u8> {
    crate::message::spec_u16_be(a.typ) + crate::message::spec_u16_be(a.length) + a.value
        + spec_zeros(spec_padded_len(a.length as int) - a.length as int)
}

/// The padding law: a well-formed record with unpadded length `L` encodes
/// to exactly `4 + L` bytes when `L` is a multiple of four, and to
/// `4 + 4 * (L / 4 + 1)` bytes otherwise.
pub proof fn lemma_attribute_stride(a: AttrView)
    requires
        a.wf(),
    ensures
        spec_encode_attribute(a).len() == spec_attr_stride(a.length as int),
        a.length % 4 == 0 ==> spec_encode_attribute(a).len() == 4 + a.length as int,
        a.length % 4 != 0 ==> spec_encode_attribute(a).len() == 4 + 4 * (a.length as int / 4 + 1),
{
    lemma_padded_len_bounds(a.length as int);
}

/// The encoded stride of an attribute: its 4-byte header plus its value
/// rounded up to the next multiple of four.
pub fn attribute_stride(length: u16) -> (r: usize)
    ensures
        r == spec_attr_stride(length as int),
        4 <= r <= 4 + 0x10000,
{
    if length % 4 == 0 {
        4 + length as usize
    } else {
        4 + ((length as usize / 4) + 1) * 4
    }
}

} // verus!
