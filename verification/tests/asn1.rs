//! The BER runtime.

use iec61850::asn1::{
    append_base128, append_bit_string, append_float32, append_float64, append_int, append_oid,
    append_tag, append_tlv, append_uint, application_constructed, application_primitive, bool_elem,
    cons, context_constructed, context_primitive, decode_bit_string, decode_bool, decode_float,
    decode_int, decode_oid, decode_uint, int_elem, int_size, oid_elem, prim, raw_content, raw_tlv,
    read_base128, tag_size, tlv_size, uint_elem, uint_size, Base128Read, BitString, Class, Decoder,
    Element, Error, FloatBits, Oid, Tag, MAX_DEPTH, TAG_BIT_STRING, TAG_BOOLEAN, TAG_GENERAL_TIME,
    TAG_GRAPHIC_STRING, TAG_INTEGER, TAG_NULL, TAG_OCTET_STRING, TAG_OID, TAG_SEQUENCE, TAG_SET,
    TAG_UTF8_STRING, TAG_VISIBLE_STRING,
};

#[test]
fn expect_reports_the_offset_of_the_mismatched_element() {
    let mut buf = Vec::new();
    append_tlv(&mut buf, TAG_NULL(), &[]);
    append_tlv(&mut buf, TAG_INTEGER(), &[7]);
    let mut d = Decoder::new(&buf);
    d.skip().unwrap();
    let err = d.expect(TAG_BOOLEAN()).unwrap_err();
    match err {
        Error::Unexpected { got, offset, .. } => {
            assert_eq!(got, TAG_INTEGER());
            assert_eq!(offset, 2, "offset should point at the element, not past it");
        }
        other => panic!("unexpected error: {}", other.to_text()),
    }
}

#[test]
fn optional_does_not_consume_on_mismatch() {
    let mut buf = Vec::new();
    append_tlv(&mut buf, TAG_INTEGER(), &[1]);
    let mut d = Decoder::new(&buf);
    assert!(d.optional(TAG_BOOLEAN()).unwrap().is_none());
    assert_eq!(d.offset(), 0);
    assert_eq!(d.optional(TAG_INTEGER()).unwrap(), Some(&[1u8][..]));
    assert!(!d.more());
}

#[test]
fn indefinite_length_constructed_is_scanned_to_end_of_contents() {
    // SEQUENCE (indefinite) { INTEGER 1, NULL } EOC
    let buf = [0x30, 0x80, 0x02, 0x01, 0x01, 0x05, 0x00, 0x00, 0x00];
    let mut d = Decoder::new(&buf);
    let (tag, content) = d.read_tlv().unwrap();
    assert_eq!(tag, TAG_SEQUENCE());
    assert_eq!(content, &[0x02, 0x01, 0x01, 0x05, 0x00]);
    assert!(!d.more());
}

#[test]
fn truncated_input_is_an_error_not_a_panic() {
    // Every prefix of a valid encoding must fail cleanly.
    let mut buf = Vec::new();
    append_tlv(&mut buf, TAG_SEQUENCE(), &[0x02, 0x01, 0x01]);
    for n in 0..buf.len() {
        let mut d = Decoder::new(&buf[..n]);
        assert!(d.read_tlv().is_err());
    }
}

#[test]
fn nesting_beyond_max_depth_is_rejected() {
    // Deeply nested indefinite-length elements must not blow the stack.
    let mut buf = Vec::new();
    for _ in 0..MAX_DEPTH + 8 {
        buf.extend_from_slice(&[0x30, 0x80]);
    }
    let mut d = Decoder::new(&buf);
    assert!(matches!(d.read_tlv(), Err(Error::TooDeep { .. })));
}

#[test]
fn size_matches_the_encoded_length() {
    let el = cons(
        TAG_SEQUENCE(),
        vec![
            int_elem(TAG_INTEGER(), 42),
            prim(TAG_VISIBLE_STRING(), b"hello".to_vec()),
            cons(context_constructed(0), vec![bool_elem(TAG_BOOLEAN(), true)]),
        ],
    );
    assert_eq!(el.size(), el.encode().len());
}

#[test]
fn raw_content_wraps_pre_encoded_octets_without_re_parsing() {
    let inner = cons(TAG_SEQUENCE(), vec![int_elem(TAG_INTEGER(), 1)]).encode();
    let outer = raw_content(context_constructed(0), inner.clone());
    let mut expected = Vec::new();
    append_tlv(&mut expected, context_constructed(0), &inner);
    assert_eq!(outer.encode(), expected);
}

#[test]
fn verbatim_children_are_spliced_with_no_wrapper() {
    let child = int_elem(TAG_INTEGER(), 5).encode();
    let el = cons(TAG_SEQUENCE(), vec![raw_tlv(child.clone())]);
    let mut expected = Vec::new();
    append_tlv(&mut expected, TAG_SEQUENCE(), &child);
    assert_eq!(el.encode(), expected);
    assert_eq!(el.size(), expected.len());
}

#[test]
fn add_opt_skips_absent_optional_fields() {
    let with = Element::seq(TAG_SEQUENCE()).add_opt(Some(int_elem(TAG_INTEGER(), 1)));
    let without = Element::seq(TAG_SEQUENCE()).add_opt(None);
    assert_eq!(with.encode(), vec![0x30, 0x03, 0x02, 0x01, 0x01]);
    assert_eq!(without.encode(), vec![0x30, 0x00]);
}

#[test]
fn cons_forces_the_constructed_bit() {
    // A caller passing a primitive tag to cons still gets a constructed
    // element.
    let el = cons(context_primitive(3), vec![prim(TAG_NULL(), vec![])]);
    assert_eq!(el.encode()[0], 0xa3);
}

#[test]
fn tag_round_trip_low_and_high_numbers() {
    for t in [
        TAG_INTEGER(),
        context_primitive(0),
        context_constructed(30),
        // High tag number form, as used by the MMS file services [72].
        context_constructed(72),
        application_constructed(1),
        Tag::new(Class::Private, false, 0x3fff),
    ] {
        let mut buf = Vec::new();
        append_tag(&mut buf, t);
        assert_eq!(buf.len(), tag_size(t), "tag_size disagrees for {}", t.to_text());
        let d = Decoder::new(&buf);
        // A bare tag with no length is truncated, but peek only reads the tag.
        assert_eq!(d.peek().unwrap(), t);
    }
}

#[test]
fn length_round_trip_across_forms() {
    for n in [0usize, 1, 0x7f, 0x80, 0xff, 0x100, 0xffff, 0x1_0000] {
        let mut buf = Vec::new();
        append_tlv(&mut buf, TAG_OCTET_STRING(), &vec![0u8; n]);
        assert_eq!(buf.len(), tlv_size(TAG_OCTET_STRING(), n));
        let mut d = Decoder::new(&buf);
        let (tag, content) = d.read_tlv().unwrap();
        assert_eq!(tag, TAG_OCTET_STRING());
        assert_eq!(content.len(), n);
    }
}

#[test]
fn oids_round_trip_including_the_combined_first_arcs() {
    // The MMS abstract syntax OID, as sent in every presentation CP.
    for arcs in [
        vec![1u32, 0, 9506, 2, 1],
        vec![2, 2, 1, 0, 1],
        vec![1, 3, 6, 1, 4, 1, 99999],
        vec![0, 0],
    ] {
        let o = Oid::new(arcs.clone());
        let mut buf = Vec::new();
        append_oid(&mut buf, &o);
        assert_eq!(decode_oid(&buf).unwrap(), o, "round trip failed for {}", o.to_text());
    }
}

#[test]
fn joint_iso_itu_first_arc_above_79_is_clamped_correctly() {
    // First octet 0x81 0x34 = 180 -> arc 2, then 180 - 80 = 100.
    let o = Oid::new(vec![2u32, 100, 3]);
    let mut buf = Vec::new();
    append_oid(&mut buf, &o);
    assert_eq!(decode_oid(&buf).unwrap(), o);
}

#[test]
fn display_uses_dotted_notation() {
    assert_eq!(Oid::new(vec![1u32, 0, 9506, 2, 1]).to_text(), "1.0.9506.2.1");
}

#[test]
fn malformed_oids_are_rejected() {
    assert!(decode_oid(&[]).is_err());
    assert!(decode_oid(&[0x80]).is_err(), "truncated final arc");
    assert!(decode_oid(&[0x80, 0x80, 0x80, 0x80, 0x80, 0x00]).is_err());
}

#[test]
fn integers_round_trip_at_the_width_boundaries() {
    for v in [
        0i64, 1, -1, 127, -128, 128, -129, 32767, -32768, i64::MAX, i64::MIN,
    ] {
        let mut buf = Vec::new();
        append_int(&mut buf, v);
        assert_eq!(buf.len(), int_size(v), "int_size disagrees for {v}");
        assert_eq!(decode_int(&buf).unwrap(), v);
    }
}

#[test]
fn unsigned_values_get_a_leading_zero_when_the_top_bit_is_set() {
    let mut buf = Vec::new();
    append_uint(&mut buf, 0x80);
    assert_eq!(buf, vec![0x00, 0x80], "must not read back as negative");
    assert_eq!(decode_uint(&buf).unwrap(), 0x80);

    for v in [0u64, 1, 0x7f, 0x80, 0xffff, u64::MAX] {
        let mut b = Vec::new();
        append_uint(&mut b, v);
        assert_eq!(b.len(), uint_size(v));
        assert_eq!(decode_uint(&b).unwrap(), v);
    }
}

#[test]
fn bit_strings_round_trip_with_padding() {
    // The 13-bit Quality bit string is the motivating case.
    let mut bs = BitString::new(13);
    bs.set_bit(0, true);
    bs.set_bit(12, true);
    let mut buf = Vec::new();
    append_bit_string(&mut buf, &bs);
    assert_eq!(buf[0], 3, "13 bits in 2 octets leaves 3 padding bits");
    let back = decode_bit_string(&buf).unwrap();
    assert_eq!(back.length, 13);
    assert!(back.bit(0) && back.bit(12) && !back.bit(1));
}

#[test]
fn bit_string_u32_conversion_is_symmetric() {
    let bs = BitString::from_u32(0b1_0000_0000_0101, 13);
    assert_eq!(bs.to_u32(), 0b1_0000_0000_0101);
    assert!(bs.bit(0) && bs.bit(2) && bs.bit(12));
}

/// The number that a floating-point value of either width stands for.
fn number(bits: FloatBits) -> f64 {
    match bits {
        FloatBits::Single(b) => f64::from(f32::from_bits(b)),
        FloatBits::Double(b) => f64::from_bits(b),
    }
}

#[test]
fn mms_floats_round_trip_at_both_widths() {
    let mut buf = Vec::new();
    append_float32(&mut buf, 230.4f32.to_bits());
    assert_eq!(buf.len(), 5);
    assert_eq!(buf[0], 8, "exponent width octet for f32");
    assert!((number(decode_float(&buf).unwrap()) - 230.4).abs() < 1e-4);

    let mut buf = Vec::new();
    append_float64(&mut buf, (-1.5e300f64).to_bits());
    assert_eq!(buf.len(), 9);
    assert_eq!(buf[0], 11, "exponent width octet for f64");
    assert_eq!(number(decode_float(&buf).unwrap()), -1.5e300);
}

#[test]
fn malformed_primitives_are_rejected() {
    assert!(decode_int(&[]).is_err());
    assert!(decode_uint(&[]).is_err());
    assert!(decode_bool(&[1, 2]).is_err());
    assert!(decode_bit_string(&[]).is_err());
    assert!(decode_bit_string(&[8]).is_err(), "padding > 7");
    assert!(decode_float(&[0; 4]).is_err());
}

#[test]
fn exact_encodings_of_small_values() {
    assert_eq!(int_elem(TAG_INTEGER(), -129).encode(), [0x02, 0x02, 0xff, 0x7f]);
    assert_eq!(uint_elem(context_primitive(5), 128).encode(), [0x85, 0x02, 0x00, 0x80]);
    assert_eq!(bool_elem(TAG_BOOLEAN(), true).encode(), [0x01, 0x01, 0xff]);
    assert_eq!(
        oid_elem(TAG_OID(), &Oid::new(vec![1, 0, 9506, 2, 1])).encode(),
        [0x06, 0x05, 0x28, 0xca, 0x22, 0x02, 0x01]
    );
    assert_eq!(application_primitive(1).to_text(), "[APPLICATION 1 primitive]");
}

#[test]
fn a_length_takes_the_shortest_form() {
    for (n, head) in [
        (0x7fusize, vec![0x04u8, 0x7f]),
        (0x80, vec![0x04, 0x81, 0x80]),
        (0x100, vec![0x04, 0x82, 0x01, 0x00]),
        (0x1_0000, vec![0x04, 0x83, 0x01, 0x00, 0x00]),
    ] {
        let mut buf = Vec::new();
        append_tlv(&mut buf, TAG_OCTET_STRING(), &vec![0u8; n]);
        assert_eq!(&buf[..head.len()], &head[..]);
    }
}

#[test]
fn the_largest_tag_number_takes_five_octets_behind_the_first() {
    let t = Tag::new(Class::ContextSpecific, true, u32::MAX);
    let mut buf = Vec::new();
    append_tag(&mut buf, t);
    assert_eq!(buf, [0xbf, 0x8f, 0xff, 0xff, 0xff, 0x7f]);
    assert_eq!(tag_size(t), 6);
    assert_eq!(Decoder::new(&buf).peek().unwrap(), t);
}

#[test]
fn base128_numbers_round_trip() {
    for v in [0u32, 1, 127, 128, 16383, 16384, u32::MAX] {
        let mut buf = Vec::new();
        append_base128(&mut buf, v);
        match read_base128(&buf, 0) {
            Base128Read::Value { v: value, off } => {
                assert_eq!(value, v);
                assert_eq!(off, buf.len());
            }
            _ => panic!("{v} does not read back"),
        }
    }
}

#[test]
fn elements_with_children_keep_their_order() {
    let el = Element::seq(TAG_SEQUENCE())
        .add(int_elem(TAG_INTEGER(), 1))
        .add_all(vec![int_elem(TAG_INTEGER(), 2), int_elem(TAG_INTEGER(), 3)]);
    let bytes = el.encode();
    assert_eq!(bytes, [0x30, 9, 2, 1, 1, 2, 1, 2, 2, 1, 3]);
    let mut d = Decoder::new(&bytes);
    let inner = d.expect(TAG_SEQUENCE()).unwrap();
    let mut d = Decoder::new(inner);
    for want in 1..=3 {
        assert_eq!(decode_int(d.expect(TAG_INTEGER()).unwrap()).unwrap(), want);
    }
    assert!(!d.more());
    assert_eq!(el.content_size(), 9);
    assert_eq!(el.tag(), Some(TAG_SEQUENCE()));
}

#[test]
fn each_decoding_error_has_an_input() {
    let err = Decoder::new(&[]).peek().unwrap_err();
    assert!(matches!(err, Error::Truncated { offset: 0, .. }), "{}", err.to_text());
    let err = Decoder::new(&[0x02, 0x05, 0x01]).read_tlv().unwrap_err();
    assert!(matches!(err, Error::Truncated { .. }), "{}", err.to_text());
    let err = Decoder::new(&[0x1f, 0x80, 0x80, 0x80, 0x80, 0x80, 0x80]).peek().unwrap_err();
    assert!(matches!(err, Error::BadTag { .. }), "{}", err.to_text());
    let err = Decoder::new(&[0x02, 0x80]).read_tlv().unwrap_err();
    assert!(matches!(err, Error::BadLength { .. }), "{}", err.to_text());
    let err = Decoder::new(&[0x30, 0x80].repeat(MAX_DEPTH + 1)).read_tlv().unwrap_err();
    assert!(matches!(err, Error::TooDeep { .. }), "{}", err.to_text());
    let err = Decoder::new(&[0x05, 0x00]).expect(TAG_INTEGER()).unwrap_err();
    assert_eq!(
        err.to_text(),
        "asn1: expected [UNIVERSAL 2 primitive], got [UNIVERSAL 5 primitive] at offset 0"
    );
    let err = decode_bool(&[1, 2]).unwrap_err();
    assert!(matches!(err, Error::BadValue { .. }), "{}", err.to_text());
}

#[test]
fn the_universal_tags_have_their_octets() {
    for (tag, octet) in [
        (TAG_BOOLEAN(), 0x01),
        (TAG_INTEGER(), 0x02),
        (TAG_BIT_STRING(), 0x03),
        (TAG_OCTET_STRING(), 0x04),
        (TAG_NULL(), 0x05),
        (TAG_OID(), 0x06),
        (TAG_UTF8_STRING(), 0x0c),
        (TAG_SEQUENCE(), 0x30),
        (TAG_SET(), 0x31),
        (TAG_GENERAL_TIME(), 0x18),
        (TAG_GRAPHIC_STRING(), 0x19),
        (TAG_VISIBLE_STRING(), 0x1a),
    ] {
        let mut buf = Vec::new();
        append_tag(&mut buf, tag);
        assert_eq!(buf, [octet]);
    }
}

#[test]
fn looking_ahead_tells_whether_an_element_has_a_tag() {
    let mut buf = Vec::new();
    append_tlv(&mut buf, TAG_INTEGER(), &[1]);
    let d = Decoder::new(&buf);
    assert!(d.peek_is(TAG_INTEGER()));
    assert!(!d.peek_is(TAG_BOOLEAN()));
    assert!(!Decoder::new(&[]).peek_is(TAG_INTEGER()), "no element remains");
    assert!(!Decoder::new(&[0x1f]).peek_is(TAG_INTEGER()), "the tag is malformed");
}

#[test]
fn the_padding_of_a_bit_string_is_clear() {
    assert_eq!(BitString::from_u32(u32::MAX, 5).bits, [0xf8]);
    assert_eq!(BitString::from_u32(u32::MAX, 34).bits, [0xff, 0xff, 0xff, 0xff, 0x00]);
}
