use gamecore::network::{ClientMessage, MessageError};
use gamecore::wire::{encode_message, encode_value, WireValue};
use gamecore::network::{gate_message, ping_delay_message, shoot_delay_message, stamina_message};

#[test]
fn encoded_messages_decode_with_the_reference_reader() {
    let body = WireValue::Arr(vec![
        WireValue::U(42),
        WireValue::Str("hello".to_string()),
        WireValue::Nil,
        WireValue::Bool(true),
        WireValue::I(-7),
    ]);
    let bytes = encode_message(1, body);
    let mut cursor = std::io::Cursor::new(bytes);
    let value = rmpv::decode::read_value(&mut cursor).expect("well-formed frame");
    let arr = value.as_array().expect("a framed message is an array");
    assert_eq!(arr.len(), 2);
    assert_eq!(arr[0].as_u64(), Some(1));
    let inner = arr[1].as_array().expect("the body survives");
    assert_eq!(inner[0].as_u64(), Some(42));
    assert_eq!(inner[1].as_str(), Some("hello"));
    assert!(inner[2].is_nil());
    assert_eq!(inner[3].as_bool(), Some(true));
    assert_eq!(inner[4].as_i64(), Some(-7));
}

#[test]
fn encoded_maps_decode_with_the_reference_reader() {
    let value = WireValue::Dict(vec![
        (WireValue::U(0), WireValue::U(9)),
        (WireValue::U(1), WireValue::Str("x".to_string())),
    ]);
    let mut buf = Vec::new();
    encode_value(&value, &mut buf);
    let mut cursor = std::io::Cursor::new(buf);
    let decoded = rmpv::decode::read_value(&mut cursor).expect("well-formed map");
    let map = decoded.as_map().expect("a map stays a map");
    assert_eq!(map.len(), 2);
    assert_eq!(map[0].0.as_u64(), Some(0));
    assert_eq!(map[0].1.as_u64(), Some(9));
    assert_eq!(map[1].1.as_str(), Some("x"));
}

#[test]
fn inbound_tags_decode_to_their_messages() {
    let join = ClientMessage::from_data(
        1,
        WireValue::Arr(vec![
            WireValue::Str("name".to_string()),
            WireValue::Str("basic".to_string()),
        ]),
    );
    assert!(matches!(join, Ok(ClientMessage::Join { .. })));

    let jump = ClientMessage::from_data(7, WireValue::Nil);
    assert!(matches!(jump, Ok(ClientMessage::Jump)));

    let bad_tag = ClientMessage::from_data(99, WireValue::Nil);
    assert!(matches!(bad_tag, Err(MessageError::EventType)));

    let short = ClientMessage::from_data(1, WireValue::Arr(vec![]));
    assert!(matches!(short, Err(MessageError::MissingData)));

    let move_msg = ClientMessage::from_data(
        2,
        WireValue::Arr(vec![WireValue::I(1_570), WireValue::Bool(true)]),
    );
    match move_msg {
        Ok(ClientMessage::MoveDir { move_dir, sprinting }) => {
            assert_eq!(move_dir, Some(1_570));
            assert!(sprinting);
        }
        _ => panic!("a move decodes to a move"),
    }
}

#[test]
fn trig_matches_the_cardinal_directions() {
    assert_eq!(gamecore::utils::sin_milli(0), 0);
    assert_eq!(gamecore::utils::sin_milli(1571), 1000);
    assert_eq!(gamecore::utils::cos_milli(0), 1000);
    assert_eq!(gamecore::utils::cos_milli(3142), -1000);
    assert_eq!(gamecore::utils::int_cbrt(8_000_000_000), 2_000);
    assert_eq!(gamecore::utils::int_sqrt(144), 12);
}

#[test]
fn auth_gate_passes_only_auth_before_login() {
    let auth = ClientMessage::Auth { player_token: "token".to_string() };
    let jump = ClientMessage::Jump;
    assert!(gate_message(false, &auth));
    assert!(!gate_message(false, &jump));
    assert!(gate_message(true, &auth));
    assert!(gate_message(true, &jump));
}

#[test]
fn delay_and_stamina_messages_carry_their_tags() {
    // Each outbound message is a two-element array: [tag, body].
    let ping = ping_delay_message(Some(60_000));
    assert_eq!(ping[0], 0x92);
    assert_eq!(ping[1], 2);

    let ping_clear = ping_delay_message(None);
    assert_eq!(ping_clear[1], 2);
    assert_eq!(*ping_clear.last().unwrap(), 0xc0); // nil body
    assert_ne!(ping, ping_clear);

    let shoot = shoot_delay_message(Some(1_500));
    assert_eq!(shoot[0], 0x92);
    assert_eq!(shoot[1], 3);

    let stamina = stamina_message(750);
    assert_eq!(stamina[0], 0x92);
    assert_eq!(stamina[1], 4);
}
