use crate::attribute::{
    spec_attr_stride, spec_encode_attribute, spec_padded_len, Attribute, AttributeType, AttrView,
};
use crate::error::Error;
use rand::Rng;
use vstd::prelude::*;

verus! {

/// The fixed 32-bit constant at offset 4 of every packet, telling this
/// protocol's traffic apart from unrelated datagrams and serving as XOR key
/// material for mapped addresses.
pub const MAGIC_COOKIE: u32 = 0x2112A442;

pub const MESSAGE_HEADER_SIZE: usize = 20;

pub const TRANSACTION_ID_SIZE: usize = 12;

/// A 12-bit code naming the message's semantic operation.
#[derive(Clone, Copy, Debug, PartialEq, Eq, Structural)]
pub struct Method(pub u16);

pub const METHOD_BINDING: u16 = 0x001;

pub const METHOD_ALLOCATE: u16 = 0x003;

/// A 2-bit code telling a request, an indication, a success response and
/// an error response apart.
#[derive(Clone, Copy, Debug, PartialEq, Eq, Structural)]
pub struct MethodClass(pub u8);

pub const CLASS_REQUEST: u8 = 0x00;

pub const CLASS_INDICATION: u8 = 0x01;

pub const CLASS_SUCCESS: u8 = 0x02;

pub const CLASS_ERROR: u8 = 0x03;

/// The mathematical shape of a message: method and class codes, the
/// transaction id bytes, and the attribute records in order.
#[verifier::ext_equal]
pub ghost struct MsgView {
    pub method: u16,
    pub class: u8,
    pub transaction_id: Seq<u8>,
    pub attributes: Seq<AttrView>,
}

impl MsgView {
    /// A message is well formed when its method fits in 12 bits, its class
    /// in 2 bits, its transaction id is exactly 12 bytes, and every
    /// attribute's declared length matches its value.
    pub open spec fn wf(self) -> bool {
        &&& self.method < 0x1000
        &&& self.class < 4
        &&& self.transaction_id.len() == 12
        &&& forall|i: int|
            0 <= i < self.attributes.len() ==> (#[trigger] self.attributes[i]).wf()
    }
}

/// One protocol message: method, class, transaction id and an ordered
/// sequence of attributes, encoded in construction order.
#[derive(Debug)]
pub struct Message {
    pub method: Method,
    pub class: MethodClass,
    pub attributes: Vec<Attribute>,
    pub transaction_id: [u8; TRANSACTION_ID_SIZE],
}

impl View for Message {
    type V = MsgView;

    open spec fn view(&self) -> MsgView {
        MsgView {
            method: self.method.0,
            class: self.class.0,
            transaction_id: self.transaction_id@,
            attributes: self.attributes@.map_values(|a: Attribute| a@),
        }
    }
}

// The 16-bit message type interleaves the 12-bit method M and the 2-bit
// class C as |M11..M7|C1|M6..M4|C0|M3..M0|: method bits 0-3 pass through,
// bits 4-6 shift left by one, bits 7-11 shift left by two, class bit 0
// lands on type bit 4 and class bit 1 on type bit 8.
/// The 16-bit type field that the wire carries for `method` and `class`.
pub open spec fn spec_encode_message_type(method: u16, class: u8) -> u16 {
    (method & 0xf) | ((method & 0x70) << 1) | ((method & 0xf80) << 2) | (((class as u16)
        & 0x1) << 4) | (((class as u16) & 0x2) << 7)
}

/// The method that a 16-bit type field carries.
pub open spec fn spec_decode_method(t: u16) -> u16 {
    (t & 0xf) | ((t >> 1) & 0x70) | ((t >> 2) & 0xf80)
}

/// The class that a 16-bit type field carries.
pub open spec fn spec_decode_class(t: u16) -> u8 {
    (((t >> 4) & 0x1) | ((t >> 7) & 0x2)) as u8
}

/// Decoding a type field undoes encoding exactly, for every 12-bit method
/// and 2-bit class; the encoded field keeps its top two bits clear.
pub proof fn lemma_message_type_roundtrip(method: u16, class: u8)
    by (bit_vector)
    requires
        method < 0x1000,
        class < 4,
    ensures
        spec_decode_method(spec_encode_message_type(method, class)) == method,
        spec_decode_class(spec_encode_message_type(method, class)) == class,
        spec_encode_message_type(method, class) < 0x4000,
{
}

/// The big-endian bytes of a 16-bit value.
pub open spec fn spec_u16_be(x: u16) -> Seq<u8> {
    seq![(x / 256) as u8, (x % 256) as u8]
}

/// The 16-bit value read big-endian from two bytes.
pub open spec fn spec_be16(hi: u8, lo: u8) -> u16 {
    ((hi as u16) * 256 + (lo as u16)) as u16
}

/// Reading back the big-endian bytes of a 16-bit value gives the value.
pub proof fn lemma_be16_of_u16_be(x: u16)
    ensures
        spec_be16(spec_u16_be(x)[0], spec_u16_be(x)[1]) == x,
{
    assert(x as int == 256 * (x as int / 256) + x as int % 256);
}

/// The four big-endian bytes of the magic cookie.
pub open spec fn spec_cookie_bytes() -> Seq<u8> {
    seq![0x21u8, 0x12u8, 0xA4u8, 0x42u8]
}

/// Write the big-endian bytes of `x` after the bytes of `out`.
fn push_u16_be(out: &mut Vec<u8>, x: u16)
    ensures
        final(out)@ == old(out)@ + spec_u16_be(x),
{
    out.push((x / 256) as u8);
    out.push((x % 256) as u8);
    assert(out@ =~= old(out)@ + spec_u16_be(x));
}

/// Read two bytes as one big-endian 16-bit value.
fn read_u16_be(hi: u8, lo: u8) -> (r: u16)
    ensures
        r == spec_be16(hi, lo),
{
    (hi as u16) * 256 + (lo as u16)
}

/// The wire bytes of a sequence of records, in order.
pub open spec fn spec_encode_attributes(attrs: Seq<AttrView>) -> Seq<u8>
    decreases attrs.len(),
{
    if attrs.len() == 0 {
        Seq::empty()
    } else {
        spec_encode_attribute(attrs[0]) + spec_encode_attributes(attrs.skip(1))
    }
}

/// The message length carried in the header: the summed on-wire size of
/// all records, the fixed header excluded.
pub open spec fn spec_message_length(attrs: Seq<AttrView>) -> int
    decreases attrs.len(),
{
    if attrs.len() == 0 {
        0
    } else {
        spec_attr_stride(attrs[0].length as int) + spec_message_length(attrs.skip(1))
    }
}

/// The length computation unrolls over construction order: appending one
/// record grows the message length by exactly that record's padded
/// stride.  Callers use this to account for the length field as they
/// build a message.
pub proof fn lemma_message_length_push(attrs: Seq<AttrView>, a: AttrView)
    ensures
        spec_message_length(attrs.push(a)) == spec_message_length(attrs) + spec_attr_stride(
            a.length as int,
        ),
    decreases attrs.len(),
{
    let p = attrs.push(a);
    if attrs.len() == 0 {
        assert(p[0] == a);
        assert(p.skip(1) =~= Seq::<AttrView>::empty());
        assert(spec_message_length(p.skip(1)) == 0);
    } else {
        assert(p[0] == attrs[0]);
        assert(p.skip(1) =~= attrs.skip(1).push(a));
        lemma_message_length_push(attrs.skip(1), a);
    }
}

pub proof fn lemma_message_length_nonneg(attrs: Seq<AttrView>)
    ensures
        spec_message_length(attrs) >= 0,
    decreases attrs.len(),
{
    if attrs.len() > 0 {
        lemma_message_length_nonneg(attrs.skip(1));
        crate::attribute::lemma_padded_len_bounds(attrs[0].length as int);
    }
}

/// A well-formed sequence of records encodes to exactly as many bytes as
/// the message length the header declares for it.
pub proof fn lemma_encode_attributes_len(attrs: Seq<AttrView>)
    requires
        forall|i: int| 0 <= i < attrs.len() ==> (#[trigger] attrs[i]).wf(),
    ensures
        spec_encode_attributes(attrs).len() == spec_message_length(attrs),
    decreases attrs.len(),
{
    if attrs.len() > 0 {
        assert(forall|i: int|
            0 <= i < attrs.skip(1).len() ==> (#[trigger] attrs.skip(1)[i]).wf());
        lemma_encode_attributes_len(attrs.skip(1));
        crate::attribute::lemma_attribute_stride(attrs[0]);
    }
}

/// The full wire packet of a message: the 20-byte header - type field,
/// declared length, magic cookie, transaction id - followed by the
/// records.
pub open spec fn spec_encode(m: MsgView) -> Seq<u8> {
    spec_u16_be(spec_encode_message_type(m.method, m.class)) + spec_u16_be(
        spec_message_length(m.attributes) as u16,
    ) + spec_cookie_bytes() + m.transaction_id + spec_encode_attributes(m.attributes)
}

/// The records read from the attribute region `b` of a packet, walked
/// front to back with the same padded stride that encoding uses.  `None`
/// when a record's header is cut short, when a declared length would read
/// past the end, or when the cursor cannot land exactly on the end.
pub open spec fn spec_parse_attributes(b: Seq<u8>) -> Option<Seq<AttrView>>
    decreases b.len(),
{
    if b.len() == 0 {
        Some(Seq::empty())
    } else if b.len() < 4 {
        None
    } else {
        let l = spec_be16(b[2], b[3]);
        let stride = spec_attr_stride(l as int);
        if b.len() < stride {
            None
        } else {
            match spec_parse_attributes(b.skip(stride)) {
                None => None,
                Some(rest) => Some(
                    seq![
                        (AttrView {
                            typ: spec_be16(b[0], b[1]),
                            length: l,
                            value: b.subrange(4, 4 + l as int),
                        }),
                    ] + rest,
                ),
            }
        }
    }
}

/// A parsed prefix joined onto the outcome of parsing the rest.
pub open spec fn spec_prepend_parsed(pre: Seq<AttrView>, o: Option<Seq<AttrView>>) -> Option<
    Seq<AttrView>,
> {
    match o {
        None => None,
        Some(rest) => Some(pre + rest),
    }
}

/// Whether `p` is long enough for the fixed header and carries the magic
/// cookie at offset 4.
pub open spec fn spec_header_ok(p: Seq<u8>) -> bool {
    p.len() >= 20 && p[4] == 0x21 && p[5] == 0x12 && p[6] == 0xA4 && p[7] == 0x42
}

/// The message a wire packet carries: `None` exactly when the packet is
/// shorter than the header, its magic cookie is wrong, or its attribute
/// region does not parse.
pub open spec fn spec_decode(p: Seq<u8>) -> Option<MsgView> {
    if !spec_header_ok(p) {
        None
    } else {
        match spec_parse_attributes(p.skip(20)) {
            None => None,
            Some(attrs) => Some(
                MsgView {
                    method: spec_decode_method(spec_be16(p[0], p[1])),
                    class: spec_decode_class(spec_be16(p[0], p[1])),
                    transaction_id: p.subrange(8, 20),
                    attributes: attrs,
                },
            ),
        }
    }
}

/// The method and class masks keep a decoded message well formed: the
/// method fits in 12 bits and the class in 2.
proof fn lemma_decoded_type_ranges(t: u16)
    by (bit_vector)
    ensures
        spec_decode_method(t) < 0x1000,
        spec_decode_class(t) < 4,
{
}

/// Parsing consumes an encoded record sequence exactly and goes on with
/// whatever follows it: the attribute region `encode(attrs) ++ rest`
/// parses to `attrs` joined onto the outcome of parsing `rest`.
pub proof fn lemma_parse_encode_attributes(attrs: Seq<AttrView>, rest: Seq<u8>)
    requires
        forall|i: int| 0 <= i < attrs.len() ==> (#[trigger] attrs[i]).wf(),
    ensures
        spec_parse_attributes(spec_encode_attributes(attrs) + rest) == spec_prepend_parsed(
            attrs,
            spec_parse_attributes(rest),
        ),
    decreases attrs.len(),
{
    if attrs.len() == 0 {
        assert(spec_encode_attributes(attrs) + rest =~= rest);
        if spec_parse_attributes(rest) is Some {
            assert(attrs + spec_parse_attributes(rest)->Some_0 =~= spec_parse_attributes(
                rest,
            )->Some_0);
        }
    } else {
        let a0 = attrs[0];
        let tail = attrs.skip(1);
        assert(forall|i: int| 0 <= i < tail.len() ==> (#[trigger] tail[i]).wf());
        lemma_parse_encode_attributes(tail, rest);
        let e0 = spec_encode_attribute(a0);
        let erest = spec_encode_attributes(tail) + rest;
        let b = spec_encode_attributes(attrs) + rest;
        assert(b =~= e0 + erest);
        crate::attribute::lemma_attribute_stride(a0);
        crate::attribute::lemma_padded_len_bounds(a0.length as int);
        let stride = spec_attr_stride(a0.length as int);
        lemma_be16_of_u16_be(a0.typ);
        lemma_be16_of_u16_be(a0.length);
        assert(b[0] == spec_u16_be(a0.typ)[0]);
        assert(b[1] == spec_u16_be(a0.typ)[1]);
        assert(b[2] == spec_u16_be(a0.length)[0]);
        assert(b[3] == spec_u16_be(a0.length)[1]);
        assert(spec_be16(b[0], b[1]) == a0.typ);
        assert(spec_be16(b[2], b[3]) == a0.length);
        assert(b.len() == stride + erest.len());
        assert(b.subrange(4, 4 + a0.length as int) =~= a0.value);
        assert(b.skip(stride) =~= erest);
        if spec_parse_attributes(rest) is None {
            assert(spec_parse_attributes(b) is None);
        } else {
            let r = spec_parse_attributes(rest)->Some_0;
            let parsed0 = AttrView {
                typ: spec_be16(b[0], b[1]),
                length: spec_be16(b[2], b[3]),
                value: b.subrange(4, 4 + spec_be16(b[2], b[3]) as int),
            };
            assert(parsed0 =~= a0);
            assert(spec_parse_attributes(erest) == Some(tail + r));
            assert(spec_parse_attributes(b) == Some(seq![parsed0] + (tail + r)));
            assert(seq![a0] + (tail + r) =~= attrs + r);
        }
    }
}

/// Round trip: a well-formed message survives encoding and decoding
/// unchanged - method, class, transaction id, and the attribute list in
/// its original order.
pub proof fn lemma_encode_decode_roundtrip(m: MsgView)
    requires
        m.wf(),
    ensures
        spec_decode(spec_encode(m)) == Some(m),
{
    let p = spec_encode(m);
    let t = spec_encode_message_type(m.method, m.class);
    let header = spec_u16_be(t) + spec_u16_be(spec_message_length(m.attributes) as u16)
        + spec_cookie_bytes() + m.transaction_id;
    assert(header.len() == 20);
    assert(p[0] == spec_u16_be(t)[0]);
    assert(p[1] == spec_u16_be(t)[1]);
    assert(p[4] == 0x21 && p[5] == 0x12 && p[6] == 0xA4 && p[7] == 0x42);
    lemma_be16_of_u16_be(t);
    lemma_message_type_roundtrip(m.method, m.class);
    assert(p.subrange(8, 20) =~= m.transaction_id);
    assert(p.skip(20) =~= spec_encode_attributes(m.attributes) + Seq::<u8>::empty());
    lemma_parse_encode_attributes(m.attributes, Seq::<u8>::empty());
    assert(m.attributes + Seq::<AttrView>::empty() =~= m.attributes);
    assert(spec_decode(p)->Some_0 =~~= m);
}

/// Cookie rejection: a buffer at least as long as the header whose four
/// bytes at offset 4 are anything but the magic cookie decodes to nothing.
pub proof fn lemma_magic_cookie_rejection(p: Seq<u8>)
    requires
        p.len() >= 20,
        !(p[4] == 0x21 && p[5] == 0x12 && p[6] == 0xA4 && p[7] == 0x42),
    ensures
        spec_decode(p) is None,
{
}

/// Parsing is compositional: a region that parses to some records,
/// extended by further bytes, parses to those records joined onto the
/// outcome of parsing the extension.
pub proof fn lemma_parse_attributes_append(c: Seq<u8>, tail: Seq<u8>)
    requires
        spec_parse_attributes(c) is Some,
    ensures
        spec_parse_attributes(c + tail) == spec_prepend_parsed(
            spec_parse_attributes(c)->Some_0,
            spec_parse_attributes(tail),
        ),
    decreases c.len(),
{
    if c.len() == 0 {
        assert(c + tail =~= tail);
        if spec_parse_attributes(tail) is Some {
            assert(Seq::<AttrView>::empty() + spec_parse_attributes(tail)->Some_0
                =~= spec_parse_attributes(tail)->Some_0);
        }
    } else {
        let l = spec_be16(c[2], c[3]);
        let stride = spec_attr_stride(l as int);
        crate::attribute::lemma_padded_len_bounds(l as int);
        let b = c + tail;
        assert(b[0] == c[0] && b[1] == c[1] && b[2] == c[2] && b[3] == c[3]);
        assert(b.subrange(4, 4 + l as int) =~= c.subrange(4, 4 + l as int));
        assert(b.skip(stride) =~= c.skip(stride) + tail);
        lemma_parse_attributes_append(c.skip(stride), tail);
        let attrs = spec_parse_attributes(c)->Some_0;
        let rest = spec_parse_attributes(c.skip(stride))->Some_0;
        if spec_parse_attributes(tail) is Some {
            let t = spec_parse_attributes(tail)->Some_0;
            assert(seq![attrs[0]] + (rest + t) =~= (seq![attrs[0]] + rest) + t);
        }
    }
}

/// Truncation rejection: however many sound records open the attribute
/// region, a final record whose header is cut short or whose declared
/// length runs past the end of the packet makes the whole packet decode
/// to nothing.
pub proof fn lemma_truncation_rejection(p: Seq<u8>, prefix: Seq<u8>, tail: Seq<u8>)
    requires
        spec_header_ok(p),
        p.skip(20) == prefix + tail,
        spec_parse_attributes(prefix) is Some,
        tail.len() > 0,
        tail.len() >= 4 ==> tail.len() < spec_attr_stride(spec_be16(tail[2], tail[3]) as int),
    ensures
        spec_decode(p) is None,
{
    assert(spec_parse_attributes(tail) is None);
    lemma_parse_attributes_append(prefix, tail);
}

/// Relies on `rand`'s thread-local generator (`rand::thread_rng` and
/// `Rng::fill`) to draw 12 random bytes.  Nothing is assumed of the values
/// drawn.
#[verifier::external_body]
fn random_transaction_id() -> [u8; TRANSACTION_ID_SIZE] {
    let mut id = [0u8; TRANSACTION_ID_SIZE];
    rand::thread_rng().fill(&mut id[..]);
    id
}

/// The capability to frame one extra attribute and append it to a
/// message, used for extension attributes such as realm, nonce and
/// error-code.  An implementor says through `spec_can_set` on which of
/// its values it succeeds, through `spec_attribute` which record it then
/// appends, and through `spec_error` what it reports otherwise.
pub trait Setter {
    /// Whether this setter's data can be framed as an attribute.
    spec fn spec_can_set(&self) -> bool;

    /// The record appended on success.
    spec fn spec_attribute(&self) -> AttrView;

    /// The error reported on failure.
    spec fn spec_error(&self) -> Error;

    /// Append this setter's attribute to `m`, or report why it cannot;
    /// on failure `m` is left unchanged.
    fn set_extra_attribute(&self, m: &mut Message) -> (r: Result<(), Error>)
        ensures
            self.spec_can_set() ==> r is Ok && final(m)@.attributes == old(m)@.attributes.push(
                self.spec_attribute(),
            ) && self.spec_attribute().wf(),
            !self.spec_can_set() ==> r is Err && r->Err_0 == self.spec_error()
                && final(m)@.attributes == old(m)@.attributes,
            final(m).method == old(m).method,
            final(m).class == old(m).class,
            final(m).transaction_id == old(m).transaction_id,
    ;
}

/// The capability to read an attribute's content back out of a decoded
/// message; collaborators implement it for the records they understand.
pub trait Getter {
    fn get_from(&mut self, m: &Message) -> Result<(), Error>;
}

impl Message {
    /// A fresh message with the given method and class, no attributes yet,
    /// and a newly drawn random transaction id.
    pub fn new(method: Method, class: MethodClass) -> (r: Message)
        ensures
            r.method == method,
            r.class == class,
            r@.method == method.0,
            r@.class == class.0,
            r@.attributes.len() == 0,
            r@.transaction_id.len() == 12,
    {
        let random_transaction_id = random_transaction_id();
        let r = Message {
            method,
            class,
            attributes: Vec::new(),
            transaction_id: random_transaction_id,
        };
        assert(r@.attributes =~= Seq::<AttrView>::empty());
        r
    }

    /// Whether some attribute of this message has type `t`.
    pub fn contains(&self, t: AttributeType) -> (r: bool)
        ensures
            r == exists|i: int|
                0 <= i < self@.attributes.len() && (#[trigger] self@.attributes[i]).typ == t.0,
    {
        let mut i: usize = 0;
        while i < self.attributes.len()
            invariant
                i <= self.attributes.len(),
                forall|j: int| 0 <= j < i ==> (#[trigger] self@.attributes[j]).typ != t.0,
            decreases self.attributes.len() - i,
        {
            if self.attributes[i].typ == t {
                assert(self@.attributes[i as int].typ == t.0);
                return true;
            }
            i = i + 1;
        }
        false
    }

    /// Let `setter` append its extra attribute to this message; the
    /// message is unchanged when the setter reports an error.
    pub fn set_extra_attribute<S: Setter>(&mut self, setter: &S) -> (r: Result<(), Error>)
        ensures
            setter.spec_can_set() ==> r is Ok
                && final(self)@.attributes == old(self)@.attributes.push(setter.spec_attribute())
                && setter.spec_attribute().wf(),
            !setter.spec_can_set() ==> r is Err && r->Err_0 == setter.spec_error()
                && final(self)@.attributes == old(self)@.attributes,
            final(self).method == old(self).method,
            final(self).class == old(self).class,
            final(self).transaction_id == old(self).transaction_id,
    {
        match setter.set_extra_attribute(self) {
            Ok(()) => Ok(()),
            Err(e) => Err(e),
        }
    }

    /// Append an XOR-mapped-address attribute advertising the IPv4
    /// address `ip` and `port`, masked as the wire format demands.
    pub fn set_xor_mapped_address(&mut self, ip: [u8; 4], port: u16)
        ensures
            final(self)@.attributes == old(self)@.attributes.push(
                (AttrView {
                    typ: crate::attribute::ATTR_XORMAPPED_ADDRESS,
                    length: 8,
                    value: crate::xor_addr::spec_xor_mapped_value(ip@, port),
                }),
            ),
            final(self).method == old(self).method,
            final(self).class == old(self).class,
            final(self).transaction_id == old(self).transaction_id,
    {
        let ghost mapped_old = self@.attributes;
        assert(MAGIC_COOKIE >> 16 == 0x2112u32) by (bit_vector);
        let xport = port ^ ((MAGIC_COOKIE >> 16) as u16);
        let mut raw: Vec<u8> = Vec::new();
        raw.push(0);
        raw.push(crate::xor_addr::FAMILY_IPV4);
        raw.push((xport / 256) as u8);
        raw.push((xport % 256) as u8);
        raw.push(ip[0] ^ 0x21);
        raw.push(ip[1] ^ 0x12);
        raw.push(ip[2] ^ 0xA4);
        raw.push(ip[3] ^ 0x42);
        assert(raw@ =~= crate::xor_addr::spec_xor_mapped_value(ip@, port));
        let attribute = Attribute::new(
            AttributeType(crate::attribute::ATTR_XORMAPPED_ADDRESS),
            8,
            raw,
        );
        self.attributes.push(attribute);
        proof {
            assert(self@.attributes =~= mapped_old.push(
                AttrView {
                    typ: crate::attribute::ATTR_XORMAPPED_ADDRESS,
                    length: 8,
                    value: crate::xor_addr::spec_xor_mapped_value(ip@, port),
                },
            ));
        }
    }

    /// The 16-bit type field of this message's header.
    pub fn build_message_type(&self) -> (r: u16)
        ensures
            r == spec_encode_message_type(self.method.0, self.class.0),
    {
        let method = self.method.0;
        let right_bits = method & 0xf;
        let center_bits = (method & 0x70) << 1;
        let left_bits = (method & 0xf80) << 2;
        let class = self.class.0 as u16;
        let c0 = (class & 0x1) << 4;
        let c1 = (class & 0x2) << 7;
        right_bits | center_bits | left_bits | c0 | c1
    }
    /// The summed on-wire size of this message's attributes: the length
    /// field of its header.
    pub fn build_message_length(&self) -> (r: u16)
        requires
            spec_message_length(self@.attributes) <= 0xFFFF,
        ensures
            r as int == spec_message_length(self@.attributes),
    {
        let ghost avs = self@.attributes;
        let mut total: usize = 0;
        let mut i: usize = 0;
        proof {
            assert(avs.skip(0) =~= avs);
        }
        while i < self.attributes.len()
            invariant
                i <= self.attributes.len(),
                avs == self@.attributes,
                avs.len() == self.attributes@.len(),
                spec_message_length(avs) <= 0xFFFF,
                total as int + spec_message_length(avs.skip(i as int)) == spec_message_length(
                    avs,
                ),
            decreases self.attributes.len() - i,
        {
            proof {
                assert(avs[i as int] == self.attributes@[i as int]@);
                assert(avs.skip(i as int)[0] == avs[i as int]);
                assert(avs.skip(i as int).skip(1) =~= avs.skip(i as int + 1));
                lemma_message_length_nonneg(avs.skip(i as int + 1));
            }
            let stride = crate::attribute::attribute_stride(self.attributes[i].length);
            total = total + stride;
            i = i + 1;
        }
        proof {
            assert(avs.skip(avs.len() as int) =~= Seq::<AttrView>::empty());
        }
        total as u16
    }

    /// The complete wire packet of this message: the 20-byte header, then
    /// each attribute in construction order, each advanced by its padded
    /// stride.
    pub fn encode_to_packet(&self) -> (r: Vec<u8>)
        requires
            self@.wf(),
            spec_message_length(self@.attributes) <= 0xFFFF,
        ensures
            r@ == spec_encode(self@),
            r@.len() == 20 + spec_message_length(self@.attributes),
    {
        let ghost m = self@;
        let ghost header = spec_u16_be(spec_encode_message_type(m.method, m.class)) + spec_u16_be(
            spec_message_length(m.attributes) as u16,
        ) + spec_cookie_bytes() + m.transaction_id;
        let mut raw: Vec<u8> = Vec::new();
        let message_type = self.build_message_type();
        push_u16_be(&mut raw, message_type);
        let message_length = self.build_message_length();
        push_u16_be(&mut raw, message_length);
        raw.push(0x21);
        raw.push(0x12);
        raw.push(0xA4);
        raw.push(0x42);
        let mut i: usize = 0;
        while i < TRANSACTION_ID_SIZE
            invariant
                i <= 12,
                m == self@,
                raw@ == spec_u16_be(spec_encode_message_type(m.method, m.class)) + spec_u16_be(
                    spec_message_length(m.attributes) as u16,
                ) + spec_cookie_bytes() + m.transaction_id.take(i as int),
            decreases 12 - i,
        {
            raw.push(self.transaction_id[i]);
            proof {
                assert(m.transaction_id.take(i + 1) =~= m.transaction_id.take(i as int).push(
                    m.transaction_id[i as int],
                ));
                assert(raw@ =~= spec_u16_be(spec_encode_message_type(m.method, m.class))
                    + spec_u16_be(spec_message_length(m.attributes) as u16) + spec_cookie_bytes()
                    + m.transaction_id.take(i + 1));
            }
            i = i + 1;
        }
        proof {
            assert(m.transaction_id.take(12) =~= m.transaction_id);
            assert(raw@ =~= header);
            assert(m.attributes.skip(0) =~= m.attributes);
        }
        let mut k: usize = 0;
        while k < self.attributes.len()
            invariant
                k <= self.attributes.len(),
                m == self@,
                m.attributes.len() == self.attributes@.len(),
                self@.wf(),
                raw@ + spec_encode_attributes(m.attributes.skip(k as int)) == spec_encode(m),
            decreases self.attributes.len() - k,
        {
            let ghost base = raw@;
            let ghost a = m.attributes[k as int];
            proof {
                assert(a == self.attributes@[k as int]@);
                assert(m.attributes.skip(k as int)[0] == a);
                assert(m.attributes.skip(k as int).skip(1) =~= m.attributes.skip(k as int + 1));
            }
            let typ = self.attributes[k].typ.0;
            push_u16_be(&mut raw, typ);
            let length = self.attributes[k].length;
            push_u16_be(&mut raw, length);
            let mut j: usize = 0;
            while j < self.attributes[k].value.len()
                invariant
                    k < self.attributes@.len(),
                    j <= self.attributes@[k as int].value@.len(),
                    a == self.attributes@[k as int]@,
                    raw@ == base + spec_u16_be(a.typ) + spec_u16_be(a.length) + a.value.take(
                        j as int,
                    ),
                decreases self.attributes@[k as int].value@.len() - j,
            {
                raw.push(self.attributes[k].value[j]);
                proof {
                    assert(a.value.take(j + 1) =~= a.value.take(j as int).push(
                        a.value[j as int],
                    ));
                    assert(raw@ =~= base + spec_u16_be(a.typ) + spec_u16_be(a.length)
                        + a.value.take(j + 1));
                }
                j = j + 1;
            }
            proof {
                assert(a.value.take(a.value.len() as int) =~= a.value);
                crate::attribute::lemma_padded_len_bounds(a.length as int);
            }
            let stride = crate::attribute::attribute_stride(length);
            let pad = stride - 4 - (length as usize);
            let mut p: usize = 0;
            while p < pad
                invariant
                    p <= pad,
                    a.wf(),
                    pad == spec_padded_len(a.length as int) - a.length as int,
                    raw@ == base + spec_u16_be(a.typ) + spec_u16_be(a.length) + a.value
                        + crate::attribute::spec_zeros(p as int),
                decreases pad - p,
            {
                raw.push(0);
                proof {
                    assert(crate::attribute::spec_zeros(p + 1)
                        =~= crate::attribute::spec_zeros(p as int).push(0u8));
                    assert(raw@ =~= base + spec_u16_be(a.typ) + spec_u16_be(a.length) + a.value
                        + crate::attribute::spec_zeros(p + 1));
                }
                p = p + 1;
            }
            proof {
                assert(raw@ =~= base + spec_encode_attribute(a));
                assert(base + spec_encode_attribute(a) + spec_encode_attributes(
                    m.attributes.skip(k as int + 1),
                ) =~= base + (spec_encode_attribute(a) + spec_encode_attributes(
                    m.attributes.skip(k as int + 1),
                )));
            }
            k = k + 1;
        }
        proof {
            assert(m.attributes.skip(m.attributes.len() as int) =~= Seq::<AttrView>::empty());
            assert(raw@ + Seq::<u8>::empty() =~= raw@);
            lemma_encode_attributes_len(m.attributes);
        }
        raw
    }

    /// Rebuild a message from a wire packet.  Succeeds exactly on the
    /// packets whose header and attribute framing are sound, and then
    /// returns the message those bytes spell; every failure reports a
    /// malformed packet.
    pub fn decode_from_packet(packet: &Vec<u8>) -> (r: Result<Message, Error>)
        ensures
            r is Ok <==> spec_decode(packet@) is Some,
            r is Ok ==> r->Ok_0@ == spec_decode(packet@)->Some_0,
            r is Ok ==> r->Ok_0@.wf(),
            r is Err ==> r->Err_0 == Error::MalformedPacket,
    {
        let n = packet.len();
        if n < MESSAGE_HEADER_SIZE {
            return Err(Error::MalformedPacket);
        }
        if !(packet[4] == 0x21 && packet[5] == 0x12 && packet[6] == 0xA4 && packet[7] == 0x42) {
            return Err(Error::MalformedPacket);
        }
        let t16 = read_u16_be(packet[0], packet[1]);
        let (method, class) = decode_message_type(t16);
        let mut transaction_id = [0u8; TRANSACTION_ID_SIZE];
        let mut i: usize = 0;
        while i < TRANSACTION_ID_SIZE
            invariant
                i <= 12,
                n == packet@.len(),
                n >= 20,
                forall|j: int| 0 <= j < i ==> transaction_id@[j] == packet@[8 + j],
            decreases 12 - i,
        {
            transaction_id[i] = packet[8 + i];
            i = i + 1;
        }
        proof {
            assert(transaction_id@ =~= packet@.subrange(8, 20));
        }
        let mut attributes: Vec<Attribute> = Vec::new();
        let mut cursor: usize = MESSAGE_HEADER_SIZE;
        proof {
            assert(attributes@.map_values(|a: Attribute| a@) =~= Seq::<AttrView>::empty());
            assert(Seq::<AttrView>::empty() + spec_parse_attributes(packet@.skip(20))->Some_0
                =~= spec_parse_attributes(packet@.skip(20))->Some_0);
        }
        while cursor < n
            invariant
                20 <= cursor <= n,
                n == packet@.len(),
                spec_prepend_parsed(
                    attributes@.map_values(|a: Attribute| a@),
                    spec_parse_attributes(packet@.skip(cursor as int)),
                ) == spec_parse_attributes(packet@.skip(20)),
                forall|q: int|
                    0 <= q < attributes@.len() ==> (#[trigger] attributes@[q]@).wf(),
            decreases n - cursor,
        {
            let ghost b = packet@.skip(cursor as int);
            let ghost mapped_old = attributes@.map_values(|a: Attribute| a@);
            proof {
                assert(b.len() == n - cursor);
            }
            if n - cursor < 4 {
                proof {
                    assert(spec_parse_attributes(b) is None);
                }
                return Err(Error::MalformedPacket);
            }
            proof {
                assert(b[0] == packet@[cursor as int]);
                assert(b[1] == packet@[cursor as int + 1]);
                assert(b[2] == packet@[cursor as int + 2]);
                assert(b[3] == packet@[cursor as int + 3]);
            }
            let t = read_u16_be(packet[cursor], packet[cursor + 1]);
            let l = read_u16_be(packet[cursor + 2], packet[cursor + 3]);
            let stride = crate::attribute::attribute_stride(l);
            proof {
                crate::attribute::lemma_padded_len_bounds(l as int);
            }
            if n - cursor < stride {
                proof {
                    assert(spec_parse_attributes(b) is None);
                }
                return Err(Error::MalformedPacket);
            }
            let mut value: Vec<u8> = Vec::new();
            let mut j: usize = 0;
            while j < l as usize
                invariant
                    j <= l as usize,
                    n == packet@.len(),
                    cursor + stride <= n,
                    stride == spec_attr_stride(l as int),
                    4 + l as int <= stride,
                    value@ =~= packet@.subrange(cursor as int + 4, cursor as int + 4 + j as int),
                decreases l as usize - j,
            {
                value.push(packet[cursor + 4 + j]);
                j = j + 1;
            }
            let attribute = Attribute { typ: AttributeType(t), length: l, value };
            let ghost av = attribute@;
            proof {
                assert(av.wf());
                assert(av.value =~= b.subrange(4, 4 + l as int));
                assert(b.skip(stride as int) =~= packet@.skip(cursor as int + stride as int));
                assert(spec_parse_attributes(b) == spec_prepend_parsed(
                    seq![av],
                    spec_parse_attributes(packet@.skip(cursor as int + stride as int)),
                ));
            }
            attributes.push(attribute);
            proof {
                assert(attributes@.map_values(|a: Attribute| a@) =~= mapped_old.push(av));
                let rest_parse = spec_parse_attributes(
                    packet@.skip(cursor as int + stride as int),
                );
                if rest_parse is Some {
                    assert(mapped_old + (seq![av] + rest_parse->Some_0) =~= mapped_old.push(av)
                        + rest_parse->Some_0);
                }
            }
            cursor = cursor + stride;
        }
        proof {
            assert(packet@.skip(n as int) =~= Seq::<u8>::empty());
            assert(attributes@.map_values(|a: Attribute| a@) + Seq::<AttrView>::empty()
                =~= attributes@.map_values(|a: Attribute| a@));
            lemma_decoded_type_ranges(t16);
        }
        let message = Message { method, class, attributes, transaction_id };
        proof {
            assert(message@ =~~= spec_decode(packet@)->Some_0);
        }
        Ok(message)
    }

}

/// The method and class that a 16-bit type field carries.
pub fn decode_message_type(t: u16) -> (r: (Method, MethodClass))
    ensures
        r.0.0 == spec_decode_method(t),
        r.1.0 == spec_decode_class(t),
{
    let method = (t & 0xf) | ((t >> 1) & 0x70) | ((t >> 2) & 0xf80);
    let class_bits = ((t >> 4) & 0x1) | ((t >> 7) & 0x2);
    assert(((t >> 4) & 0x1) | ((t >> 7) & 0x2) < 256) by (bit_vector);
    (Method(method), MethodClass(class_bits as u8))
}

} // verus!
