use server_poller::bedrock::{
    build_ping_packet, client_time, parse_motd, parse_pong, ping_packet, raknet_magic, UNCONNECTED_PING_ID,
    UNCONNECTED_PONG_ID,
};

fn pong(motd: &[u8]) -> Vec<u8> {
    let mut pkt = Vec::new();
    pkt.push(UNCONNECTED_PONG_ID);
    pkt.extend_from_slice(&0i64.to_be_bytes()); // time
    pkt.extend_from_slice(&1i64.to_be_bytes()); // guid
    pkt.extend_from_slice(&raknet_magic());
    pkt.extend_from_slice(&(motd.len() as u16).to_be_bytes());
    pkt.extend_from_slice(motd);
    pkt
}

#[test]
fn test_build_ping_packet() {
    let packet = build_ping_packet();
    assert_eq!(packet.len(), 1 + 8 + 16 + 8); // 33 bytes
    assert_eq!(packet[0], UNCONNECTED_PING_ID);
    assert_eq!(&packet[9..25], raknet_magic().as_slice());
}

#[test]
fn test_parse_pong_valid() {
    // Build a synthetic pong packet.
    let mut pkt = Vec::new();
    pkt.push(UNCONNECTED_PONG_ID);
    pkt.extend_from_slice(&0i64.to_be_bytes()); // time
    pkt.extend_from_slice(&1i64.to_be_bytes()); // guid
    pkt.extend_from_slice(&raknet_magic());

    let motd = b"MCPE;My Server;527;1.19.1;5;20;12345;Second Line;Survival;1;19132;19133;";
    pkt.extend_from_slice(&(motd.len() as u16).to_be_bytes());
    pkt.extend_from_slice(motd);

    let status = parse_pong(&pkt).unwrap();
    assert_eq!(status.edition, "MCPE");
    assert_eq!(status.motd, "My Server");
    assert_eq!(status.version, "1.19.1");
    assert_eq!(status.online_players, Some(5));
    assert_eq!(status.max_players, Some(20));
    assert_eq!(status.motd_line2, "Second Line");
    assert_eq!(status.gamemode, "Survival");
}

#[test]
fn test_parse_pong_too_short() {
    let pkt = vec![0x1c, 0, 0, 0];
    assert!(parse_pong(&pkt).is_none());
}

#[test]
fn test_parse_pong_wrong_id() {
    let mut pkt = vec![0x00; 35]; // Wrong packet ID.
    pkt[0] = 0xFF;
    assert!(parse_pong(&pkt).is_none());
}

#[test]
fn test_parse_pong_too_few_fields() {
    let mut pkt = Vec::new();
    pkt.push(UNCONNECTED_PONG_ID);
    pkt.extend_from_slice(&0i64.to_be_bytes());
    pkt.extend_from_slice(&1i64.to_be_bytes());
    pkt.extend_from_slice(&raknet_magic());

    let motd = b"MCPE;Server;527"; // Only 3 fields, need 6.
    pkt.extend_from_slice(&(motd.len() as u16).to_be_bytes());
    pkt.extend_from_slice(motd);

    assert!(parse_pong(&pkt).is_none());
}

#[test]
fn ping_packet_bytes() {
    let packet = ping_packet(0x0102030405060708, -2);
    assert_eq!(packet[1..9], [1, 2, 3, 4, 5, 6, 7, 8]);
    assert_eq!(packet[25..33], [255, 255, 255, 255, 255, 255, 255, 254]);
}

#[test]
fn ping_packets_carry_the_clock_and_differ() {
    let first = build_ping_packet();
    let second = build_ping_packet();
    let millis = i64::from_be_bytes(first[1..9].try_into().unwrap());
    assert!(millis > 1_600_000_000_000);
    assert_ne!(first[25..33], second[25..33]);
}

#[test]
fn pong_with_a_cut_payload_is_refused() {
    let mut pkt = pong(b"MCPE;a;1;2;3;4");
    assert!(parse_pong(&pkt).is_some());
    pkt.pop();
    assert!(parse_pong(&pkt).is_none());
}

#[test]
fn pong_with_bytes_after_the_payload_is_read() {
    let mut pkt = pong(b"MCPE;a;1;2;3;4");
    pkt.extend_from_slice(b";5;6;7");
    let status = parse_pong(&pkt).unwrap();
    assert_eq!(status.max_players, Some(4));
    assert_eq!(status.motd_line2, "");
    assert_eq!(status.gamemode, "");
}

#[test]
fn pong_with_invalid_utf8_gets_replacement_characters() {
    let status = parse_pong(&pong(b"MCPE;a\xffb;1;2;x;-4")).unwrap();
    assert_eq!(status.motd, "a\u{fffd}b");
    assert_eq!(status.online_players, None);
    assert_eq!(status.max_players, Some(-4));
}

#[test]
fn motd_fields_are_read_in_their_places() {
    let fields = ["e", "m", "p", "v", "1", "2", "u", "second", "mode"];
    let status = parse_motd(&fields.join(";")).unwrap();
    assert_eq!(status.edition, "e");
    assert_eq!(status.version, "v");
    assert_eq!(status.motd_line2, "second");
    assert_eq!(status.gamemode, "mode");
    assert!(parse_motd("a;b;c;d;e").is_none());
}

#[test]
fn client_times_are_cut_to_64_bits() {
    assert_eq!(client_time(None), 0);
    for n in [0, 1_700_000_000_000, i64::MAX as u128, 1 << 63, u64::MAX as u128, u128::MAX - 5] {
        assert_eq!(client_time(Some(n)), n as i64);
    }
}
