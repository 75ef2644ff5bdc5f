use stun::attribute::{
    attribute_stride, Attribute, AttributeType, TextAttribute, ATTR_ERROR_CODE, ATTR_NONCE,
    ATTR_REALM, ATTR_USERNAME,
};
use stun::error::Error;
use stun::error_code::{ErrorCode, ErrorCodeAttribute, CODE_STALE_NONCE};
use stun::message::{Message, Method, MethodClass, CLASS_ERROR, CLASS_SUCCESS, METHOD_BINDING};

#[test]
fn stride_follows_the_padding_rule() {
    // 4 + L for aligned L, else 4 + 4 * (L / 4 + 1)
    assert_eq!(attribute_stride(0), 4);
    assert_eq!(attribute_stride(1), 8);
    assert_eq!(attribute_stride(2), 8);
    assert_eq!(attribute_stride(3), 8);
    assert_eq!(attribute_stride(4), 8);
    assert_eq!(attribute_stride(5), 12);
    assert_eq!(attribute_stride(7), 12);
    assert_eq!(attribute_stride(8), 12);
    assert_eq!(attribute_stride(20), 24);
}

#[test]
fn attribute_new_keeps_its_fields() {
    let a = Attribute::new(AttributeType(ATTR_REALM), 3, vec![1, 2, 3]);
    assert_eq!(a.typ, AttributeType(ATTR_REALM));
    assert_eq!(a.length, 3);
    assert_eq!(a.value, vec![1, 2, 3]);
}

#[test]
fn realm_text_attribute_is_framed_unpadded() {
    let mut m = Message::new(Method(METHOD_BINDING), MethodClass(CLASS_ERROR));
    let realm = TextAttribute::new(AttributeType(ATTR_REALM), String::from("example.org"));
    assert_eq!(m.set_extra_attribute(&realm), Ok(()));
    assert_eq!(m.attributes.len(), 1);
    assert_eq!(m.attributes[0].typ, AttributeType(ATTR_REALM));
    assert_eq!(m.attributes[0].length, 11);
    assert_eq!(m.attributes[0].value, b"example.org".to_vec());
}

#[test]
fn nonce_text_attribute_roundtrips() {
    let mut m = Message::new(Method(METHOD_BINDING), MethodClass(CLASS_ERROR));
    let nonce = TextAttribute::new(AttributeType(ATTR_NONCE), String::from("obMatJos2"));
    assert_eq!(m.set_extra_attribute(&nonce), Ok(()));
    let p = m.encode_to_packet();
    let d = Message::decode_from_packet(&p).unwrap();
    assert_eq!(d.attributes.len(), 1);
    assert_eq!(d.attributes[0].typ, AttributeType(ATTR_NONCE));
    assert_eq!(d.attributes[0].value, b"obMatJos2".to_vec());
}

#[test]
fn text_attribute_of_unsupported_type_is_refused() {
    let mut m = Message::new(Method(METHOD_BINDING), MethodClass(CLASS_ERROR));
    let t = TextAttribute::new(AttributeType(ATTR_USERNAME), String::from("alice"));
    assert_eq!(m.set_extra_attribute(&t), Err(Error::UnsupportedAttributeType));
    assert_eq!(m.attributes.len(), 0);
}

#[test]
fn oversized_text_attribute_is_refused() {
    let mut m = Message::new(Method(METHOD_BINDING), MethodClass(CLASS_ERROR));
    let long = "x".repeat(764);
    let t = TextAttribute::new(AttributeType(ATTR_REALM), long);
    assert_eq!(m.set_extra_attribute(&t), Err(Error::SizeExceeded));
    assert_eq!(m.attributes.len(), 0);
}

#[test]
fn text_attribute_at_the_maximum_is_accepted() {
    let mut m = Message::new(Method(METHOD_BINDING), MethodClass(CLASS_ERROR));
    let long = "x".repeat(763);
    let t = TextAttribute::new(AttributeType(ATTR_NONCE), long);
    assert_eq!(m.set_extra_attribute(&t), Ok(()));
    assert_eq!(m.attributes[0].length, 763);
}

#[test]
fn error_code_attribute_splits_class_and_number() {
    let mut m = Message::new(Method(METHOD_BINDING), MethodClass(CLASS_ERROR));
    let e = ErrorCodeAttribute {
        code: ErrorCode(CODE_STALE_NONCE),
        reason: b"Stale Nonce".to_vec(),
    };
    assert_eq!(m.set_extra_attribute(&e), Ok(()));
    let a = &m.attributes[0];
    assert_eq!(a.typ, AttributeType(ATTR_ERROR_CODE));
    assert_eq!(a.length, 15);
    assert_eq!(&a.value[0..4], &[0, 0, 4, 38]);
    assert_eq!(&a.value[4..], &b"Stale Nonce"[..]);
}

#[test]
fn error_code_attribute_with_long_reason_is_refused() {
    let mut m = Message::new(Method(METHOD_BINDING), MethodClass(CLASS_ERROR));
    let e = ErrorCodeAttribute { code: ErrorCode(500), reason: vec![b'!'; 764] };
    assert_eq!(m.set_extra_attribute(&e), Err(Error::SizeExceeded));
    assert_eq!(m.attributes.len(), 0);
}

#[test]
fn registered_codes_are_recognized() {
    for code in [0x0006u16, 0x0008, 0x0009, 0x000A, 0x0014, 0x0015, 0x0019, 0x0020, 0x8028] {
        assert!(AttributeType(code).is_registered());
        assert_eq!(AttributeType(code).registry_type(), AttributeType(code));
    }
    assert!(!AttributeType(0x0030).is_registered());
}

#[test]
fn error_code_attribute_survives_a_roundtrip() {
    let mut m = Message::new(Method(METHOD_BINDING), MethodClass(CLASS_SUCCESS));
    let e = ErrorCodeAttribute { code: ErrorCode(400), reason: b"Bad Request".to_vec() };
    assert_eq!(m.set_extra_attribute(&e), Ok(()));
    let p = m.encode_to_packet();
    let d = Message::decode_from_packet(&p).unwrap();
    assert_eq!(d.attributes[0].typ, AttributeType(ATTR_ERROR_CODE));
    assert_eq!(&d.attributes[0].value[0..4], &[0, 0, 4, 0]);
}
