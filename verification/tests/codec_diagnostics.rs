use infra_net_libp2p::codec_diagnostics::CodecDiagnostics;
use infra_net_libp2p::domain::ProtocolVersion;
use infra_net_libp2p::envelope_codec::EnvelopeCodec;
use infra_net_libp2p::resource_limits::ResourceLimits;

fn readings(d: &CodecDiagnostics) -> [u64; 16] {
    [
        d.tolerated_minor(),
        d.unknown_fields(),
        d.unknown_payload_kinds(),
        d.rejected_major(),
        d.oversize_frames(),
        d.malformed_frames(),
        d.rate_limited(),
        d.dropped_events(),
        d.external_candidates_seen(),
        d.external_candidates_recorded(),
        d.external_addresses_promoted(),
        d.probes_run(),
        d.probes_succeeded(),
        d.probes_failed(),
        d.broadcasts_propagated(),
        d.broadcasts_reaching_nobody(),
    ]
}

#[test]
fn fresh_counters_read_zero_everywhere() {
    assert_eq!(readings(&CodecDiagnostics::new()), [0; 16]);
    assert_eq!(readings(&CodecDiagnostics::default()), [0; 16]);
}

#[test]
fn a_count_made_through_a_clone_is_read_through_the_original() {
    let original = CodecDiagnostics::new();
    let mut clone = original.clone();
    clone.count_tolerated_minor();
    clone.count_unknown_fields(3);
    assert_eq!(original.tolerated_minor(), 1);
    assert_eq!(original.unknown_fields(), 3);
    assert_eq!(clone.tolerated_minor(), 1);
}

#[test]
fn every_counter_is_shared_by_every_clone() {
    let original = CodecDiagnostics::new();
    let mut first = original.clone();
    let mut second = first.clone();
    first.count_rate_limited();
    second.count_rate_limited();
    second.count_dropped_event();
    first.count_external_candidate_seen();
    second.count_external_candidate_recorded();
    first.count_external_address_promoted();
    second.count_probe_run();
    first.count_probe_succeeded();
    second.count_probe_failed();
    first.count_broadcast_propagated();
    second.count_broadcast_reaching_nobody();
    first.count_unknown_payload_kind();
    second.count_rejected_major();
    first.count_oversize_frame();
    second.count_malformed_frame();
    first.count_tolerated_minor();
    second.count_unknown_fields(2);
    let expected = [1, 2, 1, 1, 1, 1, 2, 1, 1, 1, 1, 1, 1, 1, 1, 1];
    assert_eq!(readings(&original), expected);
    assert_eq!(readings(&first), expected);
    assert_eq!(readings(&second), expected);
}

#[test]
fn separately_made_counters_are_separate() {
    let mut one = CodecDiagnostics::new();
    let other = CodecDiagnostics::new();
    one.count_malformed_frame();
    assert_eq!(one.malformed_frames(), 1);
    assert_eq!(other.malformed_frames(), 0);
}

#[test]
fn a_codec_given_a_clone_counts_into_the_original() {
    let diagnostics = CodecDiagnostics::new();
    let limits = ResourceLimits { max_envelope_bytes: 64, ..ResourceLimits::shipped() };
    let mut codec = EnvelopeCodec::new(ProtocolVersion::current(), limits, diagnostics.clone());
    assert!(codec.decode(&[0xff_u8; 65]).is_err());
    assert!(codec.decode(&[0xff_u8; 3]).is_err());
    assert_eq!(diagnostics.oversize_frames(), 1);
    assert_eq!(diagnostics.malformed_frames(), 1);
    let copy = codec.clone();
    assert_eq!(copy.diagnostics().oversize_frames(), 1);
}

#[test]
fn counters_wrap_as_an_atomic_does() {
    let mut d = CodecDiagnostics::new();
    d.count_unknown_fields(u64::MAX);
    d.count_unknown_fields(2);
    assert_eq!(d.unknown_fields(), 1);
}
