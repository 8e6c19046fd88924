use hole_punch::address::{parse_address, SocketAddress, SocketAddressV6};
use hole_punch::stun::{
    build_binding_request, is_known_required_attribute, parse_binding_response, parse_error_code,
    parse_mapped_address, random_transaction_id, BindingResponse, ParseError, TransactionId,
    MAGIC_COOKIE,
};

const VECTOR_TRANSACTION_ID: TransactionId = [
    0xb7, 0xe7, 0xa7, 0x01, 0xbc, 0x34, 0xd6, 0x86, 0xfa, 0x87, 0xdf, 0xae,
];

fn address(text: &str) -> SocketAddress {
    let chars: Vec<char> = text.chars().collect();
    parse_address(&chars).unwrap()
}

fn ipv4_vector() -> Vec<u8> {
    vec![
        0x01, 0x01, 0x00, 0x3c, 0x21, 0x12, 0xa4, 0x42, 0xb7, 0xe7, 0xa7, 0x01, 0xbc, 0x34, 0xd6,
        0x86, 0xfa, 0x87, 0xdf, 0xae, 0x80, 0x22, 0x00, 0x0b, 0x74, 0x65, 0x73, 0x74, 0x20, 0x76,
        0x65, 0x63, 0x74, 0x6f, 0x72, 0x20, 0x00, 0x20, 0x00, 0x08, 0x00, 0x01, 0xa1, 0x47, 0xe1,
        0x12, 0xa6, 0x43, 0x00, 0x08, 0x00, 0x14, 0x2b, 0x91, 0xf5, 0x99, 0xfd, 0x9e, 0x90, 0xc3,
        0x8c, 0x74, 0x89, 0xf9, 0x2a, 0xf9, 0xba, 0x53, 0xf0, 0x6b, 0xe7, 0xd7, 0x80, 0x28, 0x00,
        0x04, 0xc0, 0x7d, 0x4c, 0x96,
    ]
}

fn message(message_type: u16, attributes: &[u8]) -> Vec<u8> {
    let mut packet = build_binding_request([1_u8; 12]).to_vec();
    packet[0..2].copy_from_slice(&message_type.to_be_bytes());
    packet[2..4].copy_from_slice(&(attributes.len() as u16).to_be_bytes());
    packet.extend_from_slice(attributes);
    packet
}

fn refusal(packet: &[u8]) -> String {
    match parse_binding_response(packet, [1_u8; 12]) {
        Err(ParseError::Malformed(m)) => m,
        _ => panic!("a malformed packet was expected"),
    }
}

#[test]
fn extracts_xor_mapped_from_rfc5769_vector() {
    assert_eq!(
        parse_binding_response(&ipv4_vector(), VECTOR_TRANSACTION_ID).unwrap(),
        BindingResponse::Success(address("192.0.2.1:32853"))
    );
}

#[test]
fn reserved_address_byte_is_ignored() {
    let mut packet = ipv4_vector();
    packet[40] = 0xff;
    assert!(matches!(
        parse_binding_response(&packet, VECTOR_TRANSACTION_ID),
        Ok(BindingResponse::Success(_))
    ));
}

#[test]
fn decodes_ipv6_xor_mapped_address() {
    let transaction_id = [1, 2, 3, 4, 5, 6, 7, 8, 9, 10, 11, 12];
    let expected = address("[2001:db8:1234:5678:11:2233:4455:6677]:45678");
    let mut value = vec![0, 2];
    value.extend_from_slice(&(45678_u16 ^ (MAGIC_COOKIE >> 16) as u16).to_be_bytes());

    let mut octets: [u8; 16] = match expected {
        SocketAddress::V6(SocketAddressV6 { ip, .. }) => ip.to_be_bytes(),
        _ => unreachable!(),
    };
    let mut mask = [0_u8; 16];
    mask[0..4].copy_from_slice(&MAGIC_COOKIE.to_be_bytes());
    mask[4..].copy_from_slice(&transaction_id);
    for (byte, mask_byte) in octets.iter_mut().zip(mask) {
        *byte ^= mask_byte;
    }
    value.extend_from_slice(&octets);

    assert_eq!(
        parse_mapped_address(&value, transaction_id).unwrap(),
        expected
    );
}

#[test]
fn mapped_address_without_xor_is_rejected() {
    let transaction_id = [1_u8; 12];
    let mut packet = build_binding_request(transaction_id).to_vec();
    packet[0..2].copy_from_slice(&0x0101_u16.to_be_bytes());
    packet[2..4].copy_from_slice(&12_u16.to_be_bytes());
    packet.extend_from_slice(&[
        0x00, 0x01, 0x00, 0x08, 0x00, 0x01, 0x12, 0x34, 192, 0, 2, 1,
    ]);
    assert!(parse_binding_response(&packet, transaction_id)
        .unwrap_err()
        .message()
        .contains("XOR-MAPPED"));
}

#[test]
fn xor_after_message_integrity_is_ignored() {
    let transaction_id = [2_u8; 12];
    let mut packet = build_binding_request(transaction_id).to_vec();
    packet[0..2].copy_from_slice(&0x0101_u16.to_be_bytes());
    packet[2..4].copy_from_slice(&36_u16.to_be_bytes());
    packet.extend_from_slice(&[
        0x00, 0x08, 0x00, 0x14, 0, 0, 0, 0, 0, 0, 0, 0, 0, 0, 0, 0, 0, 0, 0, 0, 0, 0, 0, 0, 0x00,
        0x20, 0x00, 0x08, 0x00, 0x01, 0x12, 0x34, 1, 2, 3, 4,
    ]);
    assert!(parse_binding_response(&packet, transaction_id)
        .unwrap_err()
        .message()
        .contains("XOR-MAPPED"));
}

#[test]
fn arbitrary_lengths_never_panic() {
    for length in 0..=256 {
        let packet = vec![0xa5; length];
        let _ = parse_binding_response(&packet, [3_u8; 12]);
    }
}

#[test]
fn request_has_a_known_form() {
    let request = build_binding_request([7_u8; 12]);
    assert_eq!(
        request,
        [0, 1, 0, 0, 0x21, 0x12, 0xa4, 0x42, 7, 7, 7, 7, 7, 7, 7, 7, 7, 7, 7, 7]
    );
    assert_ne!(random_transaction_id(), random_transaction_id());
    assert_ne!(random_transaction_id(), [0_u8; 12]);
}

#[test]
fn foreign_packets_are_told_apart() {
    let mut cookie = message(0x0101, &[]);
    cookie[4] ^= 1;
    assert_eq!(
        parse_binding_response(&cookie, [1_u8; 12]),
        Err(ParseError::NotThisTransaction(
            "неверный STUN magic cookie".to_owned()
        ))
    );
    assert_eq!(
        parse_binding_response(&message(0x0101, &[]), [2_u8; 12]),
        Err(ParseError::NotThisTransaction(
            "STUN transaction ID не совпадает".to_owned()
        ))
    );
}

#[test]
fn headers_are_refused_for_a_reason() {
    assert_eq!(
        refusal(&[0_u8; 19]),
        "STUN-пакет короче 20-байтного заголовка"
    );
    let mut high = message(0x0101, &[]);
    high[0] = 0x40;
    assert_eq!(
        refusal(&high),
        "старшие два бита STUN message type должны быть нулевыми"
    );
    let mut odd = message(0x0101, &[]);
    odd[3] = 2;
    assert_eq!(refusal(&odd), "длина STUN message не кратна четырём");
    let mut short = message(0x0101, &[]);
    short[3] = 4;
    assert_eq!(refusal(&short), "заголовок объявляет 24 байт, получено 20");
    assert_eq!(
        refusal(&message(0x0001, &[])),
        "неожиданный STUN message type: 0x0001"
    );
}

#[test]
fn attributes_are_refused_for_a_reason() {
    assert_eq!(
        refusal(&message(0x0101, &[0, 0x20, 0, 8])),
        "STUN attribute 0x0020 выходит за границу message"
    );
    assert_eq!(
        refusal(&message(0x0101, &[0x7f, 0xff, 0, 0])),
        "неизвестный обязательный STUN attribute: 0x7fff"
    );
    assert_eq!(
        refusal(&message(0x0101, &[0x80, 0x22, 0, 0])),
        "Binding Success не содержит XOR-MAPPED-ADDRESS"
    );
    assert_eq!(
        refusal(&message(0x0111, &[])),
        "Binding Error не содержит ERROR-CODE"
    );
}

#[test]
fn mapped_addresses_are_refused_for_a_reason() {
    let reason = |value: &[u8]| {
        parse_mapped_address(value, [1_u8; 12])
            .unwrap_err()
            .message()
    };
    assert_eq!(
        reason(&[0, 1, 2]),
        "XOR-MAPPED-ADDRESS короче четырёх байт"
    );
    assert_eq!(
        reason(&[0, 1, 0x21, 0x12, 0, 0, 0, 0]),
        "STUN вернул нулевой порт"
    );
    assert_eq!(
        reason(&[0, 1, 0, 0, 0]),
        "IPv4 XOR-MAPPED-ADDRESS должен иметь длину 8"
    );
    assert_eq!(
        reason(&[0, 2, 0, 0, 0]),
        "IPv6 XOR-MAPPED-ADDRESS должен иметь длину 20"
    );
    assert_eq!(
        reason(&[0, 3, 0, 0]),
        "неизвестное семейство XOR-MAPPED-ADDRESS: 3"
    );
}

#[test]
fn server_errors_are_read() {
    let mut attributes = vec![0, 9, 0, 9, 0, 0, 4, 20];
    attributes.extend_from_slice(b"a'\x07\xc3\xa9");
    attributes.extend_from_slice(&[0, 0, 0]);
    assert_eq!(
        parse_binding_response(&message(0x0111, &attributes), [1_u8; 12]).unwrap(),
        BindingResponse::ServerError {
            code: 420,
            reason: "a\\'\\u{7}\\u{e9}".to_owned()
        }
    );
}

#[test]
fn error_codes_are_refused_for_a_reason() {
    let reason = |value: &[u8]| parse_error_code(value).unwrap_err().message();
    assert_eq!(reason(&[0, 0, 4]), "ERROR-CODE короче четырёх байт");
    assert_eq!(
        reason(&[0, 0, 0x0c, 0]),
        "reserved-биты ERROR-CODE должны быть нулевыми"
    );
    assert_eq!(
        reason(&[0, 0, 2, 0]),
        "ERROR-CODE class/number вне допустимого диапазона"
    );
    assert_eq!(
        reason(&[0, 0, 4, 100]),
        "ERROR-CODE class/number вне допустимого диапазона"
    );
    assert_eq!(reason(&[0, 0, 4, 0, 0xff]), "ERROR-CODE reason не UTF-8");
    assert_eq!(
        parse_error_code(&[0, 0, 6, 99, b'\t', b'\r', b'\n', b'"', b'\\', b'~', 0x7f]).unwrap(),
        (699, "\\t\\r\\n\\\"\\\\~\\u{7f}".to_owned())
    );
}

#[test]
fn known_attributes_are_known() {
    for kind in [
        0x0001, 0x0006, 0x0008, 0x0009, 0x000a, 0x0014, 0x0015, 0x001c, 0x001d, 0x001e, 0x0020,
    ] {
        assert!(is_known_required_attribute(kind));
    }
    assert!(!is_known_required_attribute(0x0002));
    assert!(!is_known_required_attribute(0x8022));
}

#[test]
fn optional_attributes_do_not_matter() {
    let plain = ipv4_vector();
    let meaning = parse_binding_response(&plain, VECTOR_TRANSACTION_ID).unwrap();
    // The attributes of the vector begin at these offsets; the last one is its end.
    for offset in [20, 36, 48, 72, 80] {
        for (length, padding) in [(0_u16, 0), (1, 3), (2, 2), (3, 1), (4, 0)] {
            let mut added = vec![0x80, 0x00];
            added.extend_from_slice(&length.to_be_bytes());
            added.extend(vec![0xee; length as usize + padding]);
            let mut packet = plain.clone();
            packet[2..4].copy_from_slice(&((plain.len() - 20 + added.len()) as u16).to_be_bytes());
            packet.splice(offset..offset, added);
            assert_eq!(
                parse_binding_response(&packet, VECTOR_TRANSACTION_ID).unwrap(),
                meaning
            );
        }
    }
}
