use hole_punch::address::{format_address, parse_address, SocketAddress};
use hole_punch::protocol::{
    authentication_tag, candidate_kind_for_source, decode_control, encode_control,
    hex_decode_array, hex_encode, random_transaction_id, Candidate, CandidateKind, ControlPacket, PacketKind, PeerDescription,
    ProtocolError, CONTROL_PACKET_LEN,
};

fn address(text: &str) -> SocketAddress {
    let chars: Vec<char> = text.chars().collect();
    parse_address(&chars).unwrap()
}

fn candidate(kind: CandidateKind, text: &str) -> Candidate {
    Candidate {
        kind,
        address: address(text),
    }
}

fn description() -> PeerDescription {
    PeerDescription {
        session_id: [1_u8; 16],
        key: [2_u8; 32],
        candidates: vec![
            candidate(CandidateKind::Host, "192.168.50.10:40123"),
            candidate(CandidateKind::ServerReflexive, "203.0.113.8:50123"),
        ],
    }
}

const CODE: &str = "HP2|01010101010101010101010101010101|0202020202020202020202020202020202020202020202020202020202020202|h@192.168.50.10:40123,s@203.0.113.8:50123|d00a9df0";

fn refusal(code: &str) -> String {
    PeerDescription::parse(code).unwrap_err().message()
}

#[test]
fn session_code_round_trip_and_label_paste() {
    let expected = description();
    let code = expected.encode().unwrap();
    let pasted = format!("МОЙ КОД: {code} trailing text");
    assert_eq!(PeerDescription::parse(&pasted).unwrap(), expected);
}

#[test]
fn session_code_checksum_detects_corruption() {
    let mut code = description().encode().unwrap().into_bytes();
    let index = code.iter().rposition(|byte| *byte == b'|').unwrap() - 1;
    code[index] = if code[index] == b'1' { b'2' } else { b'1' };
    let error = PeerDescription::parse(std::str::from_utf8(&code).unwrap()).unwrap_err();
    assert!(error.message().contains("checksum"));
}

#[test]
fn own_session_code_is_rejected() {
    let local = description();
    let error = local.validate_remote(&local).unwrap_err();
    assert!(error.message().contains("собственный"));
}

#[test]
fn authenticated_packet_round_trip() {
    let packet = ControlPacket {
        kind: PacketKind::Check,
        source_session: [3_u8; 16],
        destination_session: [4_u8; 16],
        transaction_id: [5_u8; 12],
    };
    let key = [6_u8; 32];
    let encoded = encode_control(packet, &key);
    assert_eq!(
        decode_control(&encoded, [3_u8; 16], [4_u8; 16], &key).unwrap(),
        packet
    );
}

#[test]
fn modified_packet_or_wrong_key_fails_authentication() {
    let packet = ControlPacket {
        kind: PacketKind::CheckOk,
        source_session: [7_u8; 16],
        destination_session: [8_u8; 16],
        transaction_id: [9_u8; 12],
    };
    let mut encoded = encode_control(packet, &[10_u8; 32]);
    encoded[40] ^= 1;
    assert_eq!(
        decode_control(&encoded, [7_u8; 16], [8_u8; 16], &[10_u8; 32]),
        Err(ProtocolError::AuthenticationFailed)
    );

    let encoded = encode_control(packet, &[10_u8; 32]);
    assert_eq!(
        decode_control(&encoded, [7_u8; 16], [8_u8; 16], &[11_u8; 32]),
        Err(ProtocolError::AuthenticationFailed)
    );
}

#[test]
fn arbitrary_packet_lengths_never_panic() {
    let key = [1_u8; 32];
    for length in 0..=256 {
        let bytes = vec![0xa5; length];
        let _ = decode_control(&bytes, [2_u8; 16], [3_u8; 16], &key);
    }
}

#[test]
fn session_code_has_a_known_form() {
    assert_eq!(description().encode().unwrap(), CODE);
    assert_eq!(PeerDescription::parse(CODE).unwrap(), description());
}

#[test]
fn tag_is_a_known_hmac() {
    let packet = ControlPacket {
        kind: PacketKind::Check,
        source_session: [3_u8; 16],
        destination_session: [4_u8; 16],
        transaction_id: [5_u8; 12],
    };
    let encoded = encode_control(packet, &[6_u8; 32]);
    assert_eq!(&encoded[0..8], &[0x48, 0x50, 0x30, 0x32, 1, 0, 0, 0]);
    let expected: [u8; 32] = [
        0xef, 0x6f, 0xa7, 0x12, 0x63, 0x54, 0x4a, 0x6a, 0x2c, 0xec, 0x2b, 0x5a, 0xce, 0x98, 0xa6,
        0xf4, 0x05, 0x11, 0xcc, 0x80, 0x8b, 0x82, 0xdd, 0xa2, 0x06, 0x5e, 0x25, 0xf7, 0x2a, 0x4d,
        0xdd, 0x0f,
    ];
    assert_eq!(&encoded[52..84], &expected);
    assert_eq!(authentication_tag(&[6_u8; 32], &encoded[..52]), expected);
}

#[test]
fn fresh_descriptions_and_identifiers_differ() {
    let candidates = vec![candidate(CandidateKind::Host, "192.0.2.7:9")];
    let a = PeerDescription::new(candidates.clone()).unwrap();
    let b = PeerDescription::new(candidates).unwrap();
    assert_ne!(a.session_id, b.session_id);
    assert_ne!(a.key, b.key);
    assert!(a.validate_remote(&b).is_ok());
    assert_ne!(random_transaction_id(), random_transaction_id());
    assert_ne!(random_transaction_id(), [0_u8; 12]);
}

#[test]
fn codes_are_refused_for_a_reason() {
    assert_eq!(refusal("no code here"), "в строке не найдено начало HP2|");
    assert_eq!(
        refusal(&format!("HP2|{}", "0".repeat(600))),
        "код длиннее 512 байт"
    );
    assert_eq!(refusal("HP2|a|b"), "ожидался код HP2 из пяти частей");
    assert_eq!(
        refusal("HP2|a|b|c|123"),
        "checksum должен содержать 8 hex-символов"
    );
    assert_eq!(
        refusal("HP2|a|b|c|1234567z"),
        "checksum содержит не-hex символ"
    );
    assert_eq!(
        refusal("HP2|a|b|c|12345678"),
        "checksum не совпадает: код повреждён или скопирован не полностью"
    );
}

#[test]
fn descriptions_are_refused_for_a_reason() {
    let reason = |change: &dyn Fn(&mut PeerDescription)| {
        let mut d = description();
        change(&mut d);
        match d.encode() {
            Err(ProtocolError::InvalidDescription(message)) => message,
            _ => panic!("a refusal was expected"),
        }
    };
    assert_eq!(
        reason(&|d| d.session_id = [0; 16]),
        "session id не может быть нулевым"
    );
    assert_eq!(
        reason(&|d| d.key = [0; 32]),
        "session key не может быть нулевым"
    );
    assert_eq!(
        reason(&|d| d.candidates.clear()),
        "нужно от 1 до 8 candidates"
    );
    assert_eq!(
        reason(&|d| d.candidates = vec![candidate(CandidateKind::Host, "192.0.2.1:0")]),
        "candidate port не может быть нулевым"
    );
    for text in ["0.0.0.0:1", "224.0.0.1:1", "255.255.255.255:1"] {
        assert_eq!(
            reason(&|d| d.candidates = vec![candidate(CandidateKind::Host, text)]),
            "unspecified/multicast/broadcast IPv4 candidate запрещён"
        );
    }
    assert_eq!(
        reason(&|d| d.candidates = vec![candidate(CandidateKind::Host, "[::1]:1")]),
        "эта итерация HP2 поддерживает только IPv4"
    );
    assert_eq!(
        reason(&|d| d.candidates = vec![candidate(CandidateKind::PeerReflexive, "192.0.2.1:1")]),
        "peer-reflexive candidate нельзя объявлять в коде"
    );
    assert_eq!(
        reason(&|d| {
            let first = d.candidates[0];
            d.candidates.push(first);
        }),
        "candidate 192.168.50.10:40123 повторяется"
    );
}

#[test]
fn a_shared_key_is_refused() {
    let local = description();
    let mut other = description();
    other.session_id = [9; 16];
    assert_eq!(
        other.validate_remote(&local).unwrap_err().message(),
        "это собственный session code (session key совпадает)"
    );
    other.key = [9; 32];
    assert!(other.validate_remote(&local).is_ok());
}

#[test]
fn control_packets_are_refused_for_a_reason() {
    let packet = ControlPacket {
        kind: PacketKind::Check,
        source_session: [3; 16],
        destination_session: [4; 16],
        transaction_id: [5; 12],
    };
    let good = encode_control(packet, &[6; 32]);
    let reason = |bytes: &[u8]| {
        decode_control(bytes, [3; 16], [4; 16], &[6; 32])
            .unwrap_err()
            .message()
    };
    assert_eq!(
        reason(&good[..83]),
        "control packet должен иметь длину 84, получено 83"
    );
    let changed = |index: usize| {
        let mut bytes: [u8; CONTROL_PACKET_LEN] = good;
        bytes[index] ^= 0x40;
        reason(&bytes)
    };
    assert_eq!(changed(0), "неверная версия/magic control packet");
    assert_eq!(changed(7), "неизвестные flags/reserved control packet");
    assert_eq!(changed(8), "session id control packet не совпадает");
    assert_eq!(changed(24), "session id control packet не совпадает");
    assert_eq!(changed(4), "HMAC authentication failed");
    assert_eq!(changed(83), "HMAC authentication failed");

    let zero = ControlPacket {
        transaction_id: [0; 12],
        ..packet
    };
    assert_eq!(
        reason(&encode_control(zero, &[6; 32])),
        "нулевой transaction id запрещён"
    );

    let mut unknown: [u8; CONTROL_PACKET_LEN] = good;
    unknown[4] = 7;
    let tag = authentication_tag(&[6; 32], &unknown[..52]);
    unknown[52..].copy_from_slice(&tag);
    assert_eq!(reason(&unknown), "неизвестный packet kind: 7");
}

#[test]
fn candidates_in_codes_are_refused_for_a_reason() {
    let parse = |kind: &str| {
        let chars: Vec<char> = kind.chars().collect();
        CandidateKind::parse(&chars)
    };
    assert_eq!(parse("h").unwrap(), CandidateKind::Host);
    assert_eq!(parse("s").unwrap(), CandidateKind::ServerReflexive);
    assert_eq!(
        parse("p").unwrap_err().message(),
        "peer-reflexive candidate нельзя объявлять в коде"
    );
    assert_eq!(
        parse("x").unwrap_err().message(),
        "неизвестный тип candidate: x"
    );
    assert_eq!(CandidateKind::Host.label(), "LAN");
    assert_eq!(CandidateKind::ServerReflexive.label(), "PUBLIC");
    assert_eq!(CandidateKind::PeerReflexive.label(), "PEER-REFLEXIVE");
    assert_eq!(CandidateKind::Host.code(), 'h');
}

#[test]
fn sources_are_recognised() {
    let advertised = description().candidates;
    assert_eq!(
        candidate_kind_for_source(address("203.0.113.8:50123"), &advertised),
        CandidateKind::ServerReflexive
    );
    assert_eq!(
        candidate_kind_for_source(address("192.168.50.10:40123"), &advertised),
        CandidateKind::Host
    );
    assert_eq!(
        candidate_kind_for_source(address("203.0.113.8:50124"), &advertised),
        CandidateKind::PeerReflexive
    );
}

#[test]
fn addresses_are_written_as_they_are_read() {
    for text in [
        "0.0.0.0:0",
        "192.0.2.1:32853",
        "255.255.255.255:65535",
        "[::]:1",
        "[::1]:80",
        "[2001:db8:1234:5678:11:2233:4455:6677]:45678",
        "[fe80::1%3]:9",
        "[::ffff:192.0.2.1]:7",
        "[1:0:0:2::]:7",
    ] {
        assert_eq!(format_address(address(text)), text);
    }
    for text in [
        "",
        "192.0.2.1",
        "192.0.2.256:1",
        "192.0.2.01:1",
        "192.0.2.1:65536",
        "192.0.2:1",
        "[::1]",
        "::1:80",
        "[1::2::3]:4",
        "[12345::]:4",
    ] {
        let chars: Vec<char> = text.chars().collect();
        assert!(parse_address(&chars).is_none());
    }
}

#[test]
fn the_first_candidate_with_an_address_counts() {
    let advertised = vec![
        candidate(CandidateKind::Host, "192.0.2.1:1"),
        candidate(CandidateKind::ServerReflexive, "192.0.2.2:2"),
        candidate(CandidateKind::Host, "192.0.2.2:2"),
    ];
    assert_eq!(
        candidate_kind_for_source(address("192.0.2.2:2"), &advertised),
        CandidateKind::ServerReflexive
    );
}

#[test]
fn the_longest_code_has_302_characters() {
    let mut d = description();
    d.candidates = (0..8)
        .map(|i| candidate(CandidateKind::Host, &format!("254.254.254.254:6552{i}")))
        .collect();
    let code = d.encode().unwrap();
    assert_eq!(code.len(), 302);
    assert_eq!(PeerDescription::parse(&code).unwrap(), d);
}

#[test]
fn hex_digits_of_either_case_are_read() {
    assert_eq!(
        refusal("HP2|a|b|c|ABCDEF01"),
        "checksum не совпадает: код повреждён или скопирован не полностью"
    );
}

#[test]
fn bytes_are_written_and_read_in_hexadecimal() {
    let read = |text: &str| {
        let chars: Vec<char> = text.chars().collect();
        hex_decode_array::<3>(&chars, "x").map_err(|error| error.message())
    };
    assert_eq!(hex_encode(&[0, 0x9a, 0xff]), "009aff");
    assert_eq!(read("009aff"), Ok([0, 0x9a, 0xff]));
    assert_eq!(read("009AfF"), Ok([0, 0x9a, 0xff]));
    let length = "x должен содержать 6 hex-символов";
    assert!(read("009af").unwrap_err().contains(length));
    assert!(read("009aй").unwrap_err().contains(length));
    assert!(read("009afg").unwrap_err().contains("x содержит не-hex символ"));
}
