use stun::attribute::{Attribute, AttributeType, ATTR_UNKNOWN_ATTRIBUTES, ATTR_XORMAPPED_ADDRESS};
use stun::error::Error;
use stun::message::{
    decode_message_type, Message, Method, MethodClass, CLASS_ERROR, CLASS_INDICATION,
    CLASS_REQUEST, CLASS_SUCCESS, METHOD_ALLOCATE, METHOD_BINDING,
};

fn fresh(method: u16, class: u8) -> Message {
    Message {
        method: Method(method),
        class: MethodClass(class),
        attributes: Vec::new(),
        transaction_id: [0u8; 12],
    }
}

#[test]
fn message_type_codes_match_registry() {
    assert_eq!(fresh(METHOD_BINDING, CLASS_REQUEST).build_message_type(), 0x0001);
    assert_eq!(fresh(METHOD_BINDING, CLASS_INDICATION).build_message_type(), 0x0011);
    assert_eq!(fresh(METHOD_BINDING, CLASS_SUCCESS).build_message_type(), 0x0101);
    assert_eq!(fresh(METHOD_BINDING, CLASS_ERROR).build_message_type(), 0x0111);
    assert_eq!(fresh(METHOD_ALLOCATE, CLASS_REQUEST).build_message_type(), 0x0003);
    assert_eq!(fresh(METHOD_ALLOCATE, CLASS_SUCCESS).build_message_type(), 0x0103);
}

#[test]
fn message_type_roundtrips_for_every_pair() {
    for &method in &[METHOD_BINDING, METHOD_ALLOCATE] {
        for &class in &[CLASS_REQUEST, CLASS_INDICATION, CLASS_SUCCESS, CLASS_ERROR] {
            let t = fresh(method, class).build_message_type();
            let (m, c) = decode_message_type(t);
            assert_eq!(m, Method(method));
            assert_eq!(c, MethodClass(class));
        }
    }
}

#[test]
fn binding_request_packet_is_bare_header() {
    let m = Message::new(Method(METHOD_BINDING), MethodClass(CLASS_REQUEST));
    let p = m.encode_to_packet();
    assert_eq!(p.len(), 20);
    assert_eq!(&p[0..2], &[0x00, 0x01]);
    assert_eq!(&p[2..4], &[0x00, 0x00]);
    assert_eq!(&p[4..8], &[0x21, 0x12, 0xA4, 0x42]);
    assert_eq!(&p[8..20], &m.transaction_id[..]);
}

#[test]
fn roundtrip_preserves_message_and_attribute_order() {
    let mut m = fresh(METHOD_ALLOCATE, CLASS_ERROR);
    m.transaction_id = [9, 8, 7, 6, 5, 4, 3, 2, 1, 0, 11, 12];
    m.attributes.push(Attribute::new(AttributeType(0x0014), 3, vec![b'a', b'b', b'c']));
    m.attributes.push(Attribute::new(AttributeType(0x0019), 4, vec![17, 0, 0, 0]));
    let p = m.encode_to_packet();
    let d = Message::decode_from_packet(&p).unwrap();
    assert_eq!(d.method, Method(METHOD_ALLOCATE));
    assert_eq!(d.class, MethodClass(CLASS_ERROR));
    assert_eq!(d.transaction_id, m.transaction_id);
    assert_eq!(d.attributes.len(), 2);
    assert_eq!(d.attributes[0].typ, AttributeType(0x0014));
    assert_eq!(d.attributes[0].length, 3);
    assert_eq!(d.attributes[0].value, vec![b'a', b'b', b'c']);
    assert_eq!(d.attributes[1].typ, AttributeType(0x0019));
    assert_eq!(d.attributes[1].length, 4);
    assert_eq!(d.attributes[1].value, vec![17, 0, 0, 0]);
}

#[test]
fn roundtrip_of_empty_value_attribute() {
    let mut m = fresh(METHOD_BINDING, CLASS_SUCCESS);
    m.attributes.push(Attribute::new(AttributeType(0x0006), 0, Vec::new()));
    let p = m.encode_to_packet();
    assert_eq!(p.len(), 24);
    let d = Message::decode_from_packet(&p).unwrap();
    assert_eq!(d.attributes.len(), 1);
    assert_eq!(d.attributes[0].length, 0);
    assert!(d.attributes[0].value.is_empty());
}

#[test]
fn encoded_message_length_counts_padded_strides() {
    let mut m = fresh(METHOD_BINDING, CLASS_REQUEST);
    m.attributes.push(Attribute::new(AttributeType(0x0014), 5, vec![1, 2, 3, 4, 5]));
    m.attributes.push(Attribute::new(AttributeType(0x0015), 8, vec![0; 8]));
    assert_eq!(m.build_message_length(), 24);
    let p = m.encode_to_packet();
    assert_eq!(p.len(), 44);
    assert_eq!(&p[2..4], &[0x00, 24]);
    // the three padding zeros of the first attribute precede the second
    assert_eq!(&p[29..32], &[0, 0, 0]);
    assert_eq!(&p[32..34], &[0x00, 0x15]);
}

#[test]
fn short_packet_is_malformed() {
    let p = vec![0u8; 19];
    assert_eq!(Message::decode_from_packet(&p).err(), Some(Error::MalformedPacket));
}

#[test]
fn wrong_magic_cookie_is_rejected() {
    let m = Message::new(Method(METHOD_BINDING), MethodClass(CLASS_REQUEST));
    let mut p = m.encode_to_packet();
    p[4] = 0x22;
    assert_eq!(Message::decode_from_packet(&p).err(), Some(Error::MalformedPacket));
    let mut q = m.encode_to_packet();
    q[7] = 0x00;
    assert_eq!(Message::decode_from_packet(&q).err(), Some(Error::MalformedPacket));
}

#[test]
fn truncated_final_attribute_is_rejected() {
    let mut m = fresh(METHOD_BINDING, CLASS_REQUEST);
    m.attributes.push(Attribute::new(AttributeType(0x0014), 4, vec![1, 2, 3, 4]));
    let mut p = m.encode_to_packet();
    // declare 16 value bytes where only 4 follow
    p[22] = 0x00;
    p[23] = 0x10;
    assert_eq!(Message::decode_from_packet(&p).err(), Some(Error::MalformedPacket));
}

#[test]
fn attribute_region_cut_inside_header_is_rejected() {
    let m = Message::new(Method(METHOD_BINDING), MethodClass(CLASS_REQUEST));
    let mut p = m.encode_to_packet();
    // two stray bytes cannot hold a type-and-length header
    p.push(0x00);
    p.push(0x14);
    assert_eq!(Message::decode_from_packet(&p).err(), Some(Error::MalformedPacket));
}

#[test]
fn missing_padding_bytes_are_rejected() {
    let m = Message::new(Method(METHOD_BINDING), MethodClass(CLASS_REQUEST));
    let mut p = m.encode_to_packet();
    // one value byte whose record should stride eight bytes, cut at five
    p.push(0x00);
    p.push(0x14);
    p.push(0x00);
    p.push(0x01);
    p.push(0xAB);
    assert_eq!(Message::decode_from_packet(&p).err(), Some(Error::MalformedPacket));
}

#[test]
fn unknown_attribute_type_code_is_preserved() {
    let mut m = fresh(METHOD_BINDING, CLASS_SUCCESS);
    m.attributes.push(Attribute::new(AttributeType(0x7777), 4, vec![1, 2, 3, 4]));
    let p = m.encode_to_packet();
    let d = Message::decode_from_packet(&p).unwrap();
    assert_eq!(d.attributes[0].typ, AttributeType(0x7777));
    assert!(!d.attributes[0].typ.is_registered());
    assert_eq!(d.attributes[0].typ.registry_type(), AttributeType(ATTR_UNKNOWN_ATTRIBUTES));
    assert_eq!(d.attributes[0].value, vec![1, 2, 3, 4]);
}

#[test]
fn contains_finds_only_present_types() {
    let mut m = fresh(METHOD_BINDING, CLASS_SUCCESS);
    assert!(!m.contains(AttributeType(ATTR_XORMAPPED_ADDRESS)));
    m.set_xor_mapped_address([127, 0, 0, 1], 80);
    assert!(m.contains(AttributeType(ATTR_XORMAPPED_ADDRESS)));
    assert!(!m.contains(AttributeType(0x0014)));
}

#[test]
fn fresh_messages_draw_distinct_transaction_ids() {
    let a = Message::new(Method(METHOD_BINDING), MethodClass(CLASS_REQUEST));
    let b = Message::new(Method(METHOD_BINDING), MethodClass(CLASS_REQUEST));
    // twelve random bytes colliding twice in a row is beyond unlikely
    assert_ne!(a.transaction_id, b.transaction_id);
}
