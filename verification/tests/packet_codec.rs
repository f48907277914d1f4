use amf::amf0::{array, number, object, string};
use amf::Value;

use amf_packet::errors::{BodyField, CodecError, FieldContext, HeaderField};
use amf_packet::packet::Packet;
use amf_packet::value::{decode_value, encode_value};
use amf_packet::wire::Version;

#[test]
fn it_works() {
    let result = 2 + 2;
    assert_eq!(result, 4);
}

#[test]
fn test_serialize() {
    let data = encode_value(&Value::from(object(
        [
            ("name", string("Mike")),
            ("age", number(16)),
            ("numbers", array(vec![number(999), number(1001)])),
        ]
        .into_iter(),
    )))
    .unwrap();
    let p = Packet::builder()
        .with_default_version()
        .body("amfService.dispatchAMF", "/64", data)
        .build()
        .unwrap();
    let bytes = p.into_bytes().unwrap();

    // display
    let mut line = String::new();
    for (i, byte) in bytes.iter().enumerate() {
        line.push_str(&format!("{:02x?} ", byte));
        if (i + 1) % 8 == 0 {
            if (i + 1) % 16 == 0 {
                println!("{}", line);
                line.clear();
            } else {
                line.push_str("  ");
            }
        }
    }
    println!("{}", line);
}

#[test]
fn round_trip_one_body() {
    let value = Value::from(object(
        [("name", string("Mike")), ("age", number(16))].into_iter(),
    ));
    let data = encode_value(&value).unwrap();
    let packet = Packet::builder()
        .with_default_version()
        .body("svc.doThing", "/1", data.clone())
        .build()
        .unwrap();
    let bytes = packet.into_bytes().unwrap();

    let decoded = Packet::read_from(&bytes).unwrap();
    assert_eq!(decoded.version, Version::Amf3);
    assert_eq!(decoded.headers.len(), 0);
    assert_eq!(decoded.bodies.len(), 1);
    assert_eq!(decoded.bodies[0].target_uri, b"svc.doThing".to_vec());
    assert_eq!(decoded.bodies[0].response_uri, b"/1".to_vec());
    assert_eq!(decoded.bodies[0].data, data);
    let decoded_value = decode_value(&decoded.bodies[0].data).unwrap();
    assert_eq!(decoded_value, value);
}

#[test]
fn round_trip_preserves_order_and_flags() {
    let d1 = encode_value(&Value::from(number(1))).unwrap();
    let d2 = encode_value(&Value::from(string("two"))).unwrap();
    let d3 = encode_value(&Value::from(number(3))).unwrap();
    let hd = encode_value(&Value::from(string("hv"))).unwrap();
    let packet = Packet::builder()
        .version(Version::Amf0)
        .header("first", true, hd.clone())
        .header("second", false, hd.clone())
        .body("svc.a", "/1", d1.clone())
        .body("svc.b", "/2", d2.clone())
        .body("svc.c", "/3", d3.clone())
        .build()
        .unwrap();
    let bytes = packet.into_bytes().unwrap();

    let decoded = Packet::read_from(&bytes).unwrap();
    assert_eq!(decoded.version, Version::Amf0);
    assert_eq!(decoded.headers.len(), 2);
    assert_eq!(decoded.headers[0].name, b"first".to_vec());
    assert!(decoded.headers[0].must_understand);
    assert_eq!(decoded.headers[1].name, b"second".to_vec());
    assert!(!decoded.headers[1].must_understand);
    assert_eq!(decoded.bodies.len(), 3);
    assert_eq!(decoded.bodies[0].target_uri, b"svc.a".to_vec());
    assert_eq!(decoded.bodies[1].target_uri, b"svc.b".to_vec());
    assert_eq!(decoded.bodies[2].target_uri, b"svc.c".to_vec());
    assert_eq!(decoded.bodies[0].response_uri, b"/1".to_vec());
    assert_eq!(decoded.bodies[1].response_uri, b"/2".to_vec());
    assert_eq!(decoded.bodies[2].response_uri, b"/3".to_vec());
    assert_eq!(decoded.bodies[0].data, d1);
    assert_eq!(decoded.bodies[1].data, d2);
    assert_eq!(decoded.bodies[2].data, d3);
}

#[test]
fn truncation_always_reported() {
    let data = encode_value(&Value::from(object(
        [("k", number(1)), ("l", string("x"))].into_iter(),
    )))
    .unwrap();
    let packet = Packet::builder()
        .with_default_version()
        .header("notice", true, data.clone())
        .body("svc.op", "/1", data)
        .build()
        .unwrap();
    let bytes = packet.into_bytes().unwrap();
    for cut in 0..bytes.len() {
        let r = Packet::read_from(&bytes[..cut]);
        assert!(
            matches!(r, Err(CodecError::Truncated { .. })),
            "cut at {} gave {:?}",
            cut,
            r
        );
    }
}

#[test]
fn version_gate() {
    // 7 is not a packet version.
    let r = Packet::read_from(&[0x00, 0x07, 0x00, 0x00, 0x00, 0x00]);
    assert_eq!(r.unwrap_err(), CodecError::UnknownVersion { found: 7 });
    // 0x0300 (big-endian 768) is not either, although its bytes mention 3.
    let r = Packet::read_from(&[0x03, 0x00, 0x00, 0x00, 0x00, 0x00]);
    assert_eq!(r.unwrap_err(), CodecError::UnknownVersion { found: 768 });
    // 0 and 3 are the two accepted version words.
    assert!(Packet::read_from(&[0x00, 0x00, 0x00, 0x00, 0x00, 0x00]).is_ok());
    assert!(Packet::read_from(&[0x00, 0x03, 0x00, 0x00, 0x00, 0x00]).is_ok());
}

#[test]
fn build_gate_missing_version() {
    let data = encode_value(&Value::from(number(5))).unwrap();
    let r = Packet::builder().body("svc.op", "/1", data).build();
    assert_eq!(r.unwrap_err(), CodecError::MissingVersion);
}

#[test]
fn decode_hand_crafted_empty_packet() {
    let decoded = Packet::read_from(&[0x00, 0x03, 0x00, 0x00, 0x00, 0x00]).unwrap();
    assert_eq!(decoded.version, Version::Amf3);
    assert_eq!(decoded.headers.len(), 0);
    assert_eq!(decoded.bodies.len(), 0);
}

#[test]
fn trailing_bytes_are_ignored() {
    let decoded =
        Packet::read_from(&[0x00, 0x03, 0x00, 0x00, 0x00, 0x00, 0xde, 0xad, 0xbe, 0xef]).unwrap();
    assert_eq!(decoded.version, Version::Amf3);
    assert_eq!(decoded.headers.len(), 0);
    assert_eq!(decoded.bodies.len(), 0);
}

#[test]
fn truncated_contexts_name_the_field() {
    assert_eq!(
        Packet::read_from(&[]).unwrap_err(),
        CodecError::Truncated { context: FieldContext::Version }
    );
    assert_eq!(
        Packet::read_from(&[0x00]).unwrap_err(),
        CodecError::Truncated { context: FieldContext::Version }
    );
    assert_eq!(
        Packet::read_from(&[0x00, 0x03, 0x00]).unwrap_err(),
        CodecError::Truncated { context: FieldContext::HeaderCount }
    );
    assert_eq!(
        Packet::read_from(&[0x00, 0x03, 0x00, 0x00, 0x00]).unwrap_err(),
        CodecError::Truncated { context: FieldContext::BodyCount }
    );
    // One header promised, nothing behind the count.
    assert_eq!(
        Packet::read_from(&[0x00, 0x03, 0x00, 0x01]).unwrap_err(),
        CodecError::Truncated {
            context: FieldContext::Header { index: 0, field: HeaderField::Name }
        }
    );
    // One body promised, its target URI length cut off.
    assert_eq!(
        Packet::read_from(&[0x00, 0x03, 0x00, 0x00, 0x00, 0x01, 0x00]).unwrap_err(),
        CodecError::Truncated {
            context: FieldContext::Body { index: 0, field: BodyField::TargetUri }
        }
    );
}

#[test]
fn value_codec_failure_is_contextualized() {
    // version 3, no headers, one body: "a" -> "b" with one data byte 0xff,
    // which is no value-codec marker.
    let bytes = [
        0x00, 0x03, 0x00, 0x00, 0x00, 0x01, 0x00, 0x01, b'a', 0x00, 0x01, b'b', 0x00, 0x00, 0x00,
        0x01, 0xff,
    ];
    assert_eq!(
        Packet::read_from(&bytes).unwrap_err(),
        CodecError::ValueCodecFailure {
            context: FieldContext::Body { index: 0, field: BodyField::Data }
        }
    );
    // The same byte as a header value.
    let bytes = [
        0x00, 0x03, 0x00, 0x01, 0x00, 0x01, b'h', 0x01, 0x00, 0x00, 0x00, 0x01, 0xff, 0x00, 0x00,
    ];
    assert_eq!(
        Packet::read_from(&bytes).unwrap_err(),
        CodecError::ValueCodecFailure {
            context: FieldContext::Header { index: 0, field: HeaderField::Data }
        }
    );
}

#[test]
fn nonzero_flag_byte_reads_as_must_understand() {
    // One header "h" with flag byte 2 and a null value (marker 0x05).
    let bytes = [
        0x00, 0x03, 0x00, 0x01, 0x00, 0x01, b'h', 0x02, 0x00, 0x00, 0x00, 0x01, 0x05, 0x00, 0x00,
    ];
    let decoded = Packet::read_from(&bytes).unwrap();
    assert!(decoded.headers[0].must_understand);
}

#[test]
fn encode_rejects_oversized_fields() {
    let data = encode_value(&Value::from(number(1))).unwrap();
    let long_name = "n".repeat(0x1_0000);
    let packet = Packet::builder()
        .with_default_version()
        .header(&long_name, false, data)
        .build()
        .unwrap();
    assert_eq!(
        packet.into_bytes().unwrap_err(),
        CodecError::OutOfRange {
            context: FieldContext::Header { index: 0, field: HeaderField::Name }
        }
    );

    let data = encode_value(&Value::from(number(1))).unwrap();
    let packet = Packet::builder()
        .with_default_version()
        .body("svc.op", &long_name, data)
        .build()
        .unwrap();
    assert_eq!(
        packet.into_bytes().unwrap_err(),
        CodecError::OutOfRange {
            context: FieldContext::Body { index: 0, field: BodyField::ResponseUri }
        }
    );
}

#[test]
fn exact_wire_bytes_of_a_small_packet() {
    let data = encode_value(&Value::from(number(1.5))).unwrap();
    // A number is its marker byte plus eight big-endian mantissa bytes.
    assert_eq!(data, vec![0x00, 0x3f, 0xf8, 0x00, 0x00, 0x00, 0x00, 0x00, 0x00]);
    let packet = Packet::builder()
        .version(Version::Amf0)
        .body("ab", "/1", data)
        .build()
        .unwrap();
    let bytes = packet.into_bytes().unwrap();
    let expected: Vec<u8> = vec![
        0x00, 0x00, // version 0
        0x00, 0x00, // no headers
        0x00, 0x01, // one body
        0x00, 0x02, b'a', b'b', // target URI
        0x00, 0x02, b'/', b'1', // response URI
        0x00, 0x00, 0x00, 0x09, // nine value bytes
        0x00, 0x3f, 0xf8, 0x00, 0x00, 0x00, 0x00, 0x00, 0x00,
    ];
    assert_eq!(bytes, expected);
}

#[test]
fn size_hint_matches_encoded_length() {
    let data = encode_value(&Value::from(string("payload"))).unwrap();
    let packet = Packet::builder()
        .with_default_version()
        .header("h", true, data.clone())
        .body("svc.op", "/1", data)
        .build()
        .unwrap();
    let hint = packet.size_hint();
    let bytes = packet.into_bytes().unwrap();
    assert_eq!(hint, bytes.len());

    let empty = Packet::builder().with_default_version().build().unwrap();
    assert_eq!(empty.size_hint(), 6);
}

#[test]
fn decode_value_rejects_what_it_cannot_parse() {
    assert!(decode_value(&[0xff]).is_none());
    assert!(decode_value(&[]).is_none());
    let num = decode_value(&[0x00, 0x3f, 0xf8, 0x00, 0x00, 0x00, 0x00, 0x00, 0x00]).unwrap();
    assert_eq!(num, Value::from(number(1.5)));
}

#[test]
fn encoded_values_decode_back() {
    let date = Value::from(amf::Amf0Value::Date {
        unix_time: std::time::Duration::from_secs(1),
        time_zone: 5,
    });
    let bytes = encode_value(&date).unwrap();
    assert_eq!(decode_value(&bytes).unwrap(), date);
}

#[test]
fn error_descriptions() {
    assert_eq!(
        CodecError::MissingVersion.describe(),
        "the packet version must be set"
    );
    assert_eq!(
        CodecError::UnknownVersion { found: 7 }.describe(),
        "unknown amf version"
    );
    assert_eq!(
        CodecError::Truncated { context: FieldContext::Version }.describe(),
        "unexpected end of packet bytes"
    );
}
