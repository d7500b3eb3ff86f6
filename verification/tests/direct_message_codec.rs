use infra_net_libp2p::direct_message_codec::{DirectFrameError, DirectMessageAck, DirectMessageCodec};

#[test]
fn round_trips_a_request_frame() {
    let codec = DirectMessageCodec::new(1_024);
    let payload = b"an envelope this codec never reads".to_vec();
    let wire = codec.encode_frame(&payload).expect("writes");
    let read = codec.decode_frame(&wire).expect("reads");
    assert_eq!(read, payload);
}

#[test]
fn round_trips_an_empty_frame() {
    let codec = DirectMessageCodec::new(1_024);
    let wire = codec.encode_frame(&[]).expect("writes");
    assert_eq!(codec.decode_frame(&wire).expect("reads"), Vec::<u8>::new());
}

#[test]
fn round_trips_both_acknowledgement_states() {
    for ack in [DirectMessageAck::Accepted, DirectMessageAck::Refused] {
        let wire = vec![ack.code()];
        assert_eq!(DirectMessageAck::from_code(wire[0]), ack);
    }
}

#[test]
fn an_unknown_acknowledgement_code_reads_as_a_refusal() {
    assert_eq!(DirectMessageAck::from_code(200), DirectMessageAck::Refused);
}

#[test]
fn refuses_an_oversize_frame_from_its_length_prefix_alone() {
    let codec = DirectMessageCodec::new(64);
    let mut wire = u32::MAX.to_be_bytes().to_vec();
    wire.extend_from_slice(b"only a few bytes actually follow");
    let error = codec.decode_frame(&wire).expect_err("refused");
    assert_eq!(error, DirectFrameError::ClaimsTooMuch { length: u32::MAX, cap: 64 });
    assert!(
        error.describe().contains("over the 64-byte cap"),
        "the refusal must state the cap it hit: {}",
        error.describe()
    );
}

#[test]
fn a_frame_exactly_at_the_cap_is_accepted() {
    let codec = DirectMessageCodec::new(16);
    let payload = vec![7_u8; 16];
    let wire = codec.encode_frame(&payload).expect("writes");
    assert_eq!(codec.decode_frame(&wire).expect("reads"), payload);
}

#[test]
fn refuses_to_write_a_frame_over_the_cap() {
    let codec = DirectMessageCodec::new(8);
    assert!(codec.encode_frame(&[0_u8; 9]).is_err());
}

#[test]
fn direct_message_codec_test_refuses_a_truncated_frame_without_panicking() {
    let codec = DirectMessageCodec::new(1_024);
    let wire = codec.encode_frame(b"a complete frame").expect("writes");
    for length in 0..wire.len() {
        assert!(codec.decode_frame(&wire[..length]).is_err(), "a frame truncated to {length} bytes must be refused");
    }
}

#[test]
fn the_protocol_name_is_versioned() {
    assert_eq!(DirectMessageCodec::protocol(), "/distro/direct/1.0.0");
}

#[test]
fn the_prefix_is_the_body_length_big_endian() {
    let codec = DirectMessageCodec::new(1_024);
    let wire = codec.encode_frame(&[9_u8; 300]).expect("writes");
    assert_eq!(&wire[..4], &[0, 0, 1, 44]);
    assert_eq!(codec.frame_prefix(300), Ok([0, 0, 1, 44]));
    assert_eq!(codec.frame_length([0, 0, 1, 44]), Ok(300));
    assert_eq!(codec.frame_length([0, 0, 4, 1]), Err(DirectFrameError::ClaimsTooMuch { length: 1_025, cap: 1_024 }));
}

#[test]
fn bytes_after_a_frame_are_not_part_of_it() {
    let codec = DirectMessageCodec::new(1_024);
    let mut wire = codec.encode_frame(b"first").expect("writes");
    wire.extend_from_slice(b"trailing");
    assert_eq!(codec.decode_frame(&wire).expect("reads"), b"first".to_vec());
}

#[test]
fn a_truncated_frame_says_how_much_was_missing() {
    let codec = DirectMessageCodec::new(1_024);
    assert_eq!(codec.decode_frame(&[0, 0]), Err(DirectFrameError::Truncated { needed: 4, available: 2 }));
    assert_eq!(codec.decode_frame(&[0, 0, 0, 5, 1, 2]), Err(DirectFrameError::Truncated { needed: 5, available: 2 }));
    assert_eq!(
        DirectFrameError::TooLong { bytes: 9, cap: 8 }.describe(),
        "direct message frame is 9 bytes, over the 8-byte cap"
    );
}
