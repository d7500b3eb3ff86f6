//! The local counters the tolerance and hostile-input rules require: every
//! tolerated oddity and every refusal is counted where it happened.
use vstd::prelude::*;
use std::sync::Arc;
use std::sync::atomic::{AtomicU64, Ordering};

verus! {

/// A set of counts, one per kind of event: what one [`CodecDiagnostics`]
/// handle has counted.
pub struct DiagnosticsView {
    pub tolerated_minor: u64,
    pub unknown_fields: u64,
    pub unknown_payload_kinds: u64,
    pub rejected_major: u64,
    pub oversize_frames: u64,
    pub malformed_frames: u64,
    pub rate_limited: u64,
    pub dropped_events: u64,
    pub external_candidates_seen: u64,
    pub external_candidates_recorded: u64,
    pub external_addresses_promoted: u64,
    pub probes_run: u64,
    pub probes_succeeded: u64,
    pub probes_failed: u64,
    pub broadcasts_propagated: u64,
    pub broadcasts_reaching_nobody: u64,
}

/// `value + by`, wrapping at 2^64 as an atomic counter's `fetch_add` does.
pub open spec fn bumped(value: u64, by: u64) -> u64 {
    ((value + by) % 18446744073709551616) as u64
}

/// The atomics every clone of one [`CodecDiagnostics`] counts into.
pub struct SharedCounters {
    tolerated_minor: AtomicU64,
    unknown_fields: AtomicU64,
    unknown_payload_kinds: AtomicU64,
    rejected_major: AtomicU64,
    oversize_frames: AtomicU64,
    malformed_frames: AtomicU64,
    rate_limited: AtomicU64,
    dropped_events: AtomicU64,
    external_candidates_seen: AtomicU64,
    external_candidates_recorded: AtomicU64,
    external_addresses_promoted: AtomicU64,
    probes_run: AtomicU64,
    probes_succeeded: AtomicU64,
    probes_failed: AtomicU64,
    broadcasts_propagated: AtomicU64,
    broadcasts_reaching_nobody: AtomicU64,
}

/// `Arc::clone`: a second handle on the same allocation, so the value it
/// points at is the very one `counters` points at.
#[verifier::external_body]
fn share_counters(counters: &Arc<SharedCounters>) -> (r: Arc<SharedCounters>)
    ensures
        *r == **counters,
{
    Arc::clone(counters)
}

/// The local counters. Ignoring without counting would make a whole class of
/// wire drift invisible, and an operator-free network has no server log: these
/// numbers are the only place a "why did that peer go quiet" answer lives.
///
/// Cheap to clone: every clone shares one set of atomic counters, so an
/// adapter, the event loop and a diagnostics pane all read the same numbers.
/// What a handle reads is therefore the sum of what every handle sharing its
/// counters has counted, from any thread; its view is what it counted itself.
pub struct CodecDiagnostics {
    counters: Arc<SharedCounters>,
    counted: Ghost<DiagnosticsView>,
}

impl View for CodecDiagnostics {
    type V = DiagnosticsView;

    /// What was counted through this handle since it was made. The shared
    /// counters the getters read are left out: they also hold what every
    /// other handle counted, from any thread, and a value of them could only
    /// be tracked with ghost permissions this crate does not use. Which
    /// counters a handle shares is [`CodecDiagnostics::shared`].
    closed spec fn view(&self) -> DiagnosticsView {
        self.counted@
    }
}

/// Every counter at zero.
pub open spec fn zero_diagnostics() -> DiagnosticsView {
    DiagnosticsView {
        tolerated_minor: 0,
        unknown_fields: 0,
        unknown_payload_kinds: 0,
        rejected_major: 0,
        oversize_frames: 0,
        malformed_frames: 0,
        rate_limited: 0,
        dropped_events: 0,
        external_candidates_seen: 0,
        external_candidates_recorded: 0,
        external_addresses_promoted: 0,
        probes_run: 0,
        probes_succeeded: 0,
        probes_failed: 0,
        broadcasts_propagated: 0,
        broadcasts_reaching_nobody: 0,
    }
}

impl Clone for CodecDiagnostics {
    /// Another handle on the same counters, which has counted nothing yet.
    fn clone(&self) -> (r: Self)
        ensures
            r.shares_counters_with(self),
            r@ == zero_diagnostics(),
    {
        CodecDiagnostics { counters: share_counters(&self.counters), counted: Ghost(zero_diagnostics()) }
    }
}

impl Default for CodecDiagnostics {
    /// Fresh counters, as [`CodecDiagnostics::new`] makes them.
    fn default() -> (r: Self)
        ensures
            r@ == zero_diagnostics(),
    {
        CodecDiagnostics::new()
    }
}

impl CodecDiagnostics {
    /// The counters this handle counts into and reads.
    pub closed spec fn shared(&self) -> SharedCounters {
        *self.counters
    }

    /// The two handles count into one set of counters: what either counts,
    /// both read.
    pub open spec fn shares_counters_with(&self, other: &CodecDiagnostics) -> bool {
        self.shared() == other.shared()
    }

    /// Counters of their own, all at zero, with no other handle on them yet.
    pub fn new() -> (r: Self)
        ensures
            r@ == zero_diagnostics(),
    {
        let counters = SharedCounters {
            tolerated_minor: AtomicU64::new(0),
            unknown_fields: AtomicU64::new(0),
            unknown_payload_kinds: AtomicU64::new(0),
            rejected_major: AtomicU64::new(0),
            oversize_frames: AtomicU64::new(0),
            malformed_frames: AtomicU64::new(0),
            rate_limited: AtomicU64::new(0),
            dropped_events: AtomicU64::new(0),
            external_candidates_seen: AtomicU64::new(0),
            external_candidates_recorded: AtomicU64::new(0),
            external_addresses_promoted: AtomicU64::new(0),
            probes_run: AtomicU64::new(0),
            probes_succeeded: AtomicU64::new(0),
            probes_failed: AtomicU64::new(0),
            broadcasts_propagated: AtomicU64::new(0),
            broadcasts_reaching_nobody: AtomicU64::new(0),
        };
        CodecDiagnostics { counters: Arc::new(counters), counted: Ghost(zero_diagnostics()) }
    }

    /// Envelopes accepted from a same-major peer whose minor version is newer than this build's.
    ///
    /// Reads the shared counter, which every handle on it adds to.
    pub fn tolerated_minor(&self) -> u64 {
        self.counters.tolerated_minor.load(Ordering::Relaxed)
    }

    /// Fields present on the wire that this build has no name for, counted per field.
    ///
    /// Reads the shared counter, which every handle on it adds to.
    pub fn unknown_fields(&self) -> u64 {
        self.counters.unknown_fields.load(Ordering::Relaxed)
    }

    /// Envelopes carrying a payload-kind code this build does not know.
    ///
    /// Reads the shared counter, which every handle on it adds to.
    pub fn unknown_payload_kinds(&self) -> u64 {
        self.counters.unknown_payload_kinds.load(Ordering::Relaxed)
    }

    /// Envelopes refused because their major version is not this build's.
    ///
    /// Reads the shared counter, which every handle on it adds to.
    pub fn rejected_major(&self) -> u64 {
        self.counters.rejected_major.load(Ordering::Relaxed)
    }

    /// Frames refused on size before anything was deserialized.
    ///
    /// Reads the shared counter, which every handle on it adds to.
    pub fn oversize_frames(&self) -> u64 {
        self.counters.oversize_frames.load(Ordering::Relaxed)
    }

    /// Frames that were not a decodable envelope for any other reason.
    ///
    /// Reads the shared counter, which every handle on it adds to.
    pub fn malformed_frames(&self) -> u64 {
        self.counters.malformed_frames.load(Ordering::Relaxed)
    }

    /// Inbound envelopes refused because the sending peer was over its rate limit.
    ///
    /// Reads the shared counter, which every handle on it adds to.
    pub fn rate_limited(&self) -> u64 {
        self.counters.rate_limited.load(Ordering::Relaxed)
    }

    /// Network events dropped because the composition root was not draining them.
    ///
    /// Reads the shared counter, which every handle on it adds to.
    pub fn dropped_events(&self) -> u64 {
        self.counters.dropped_events.load(Ordering::Relaxed)
    }

    /// Addresses a remote peer reported seeing this peer at, counted as they arrive.
    ///
    /// Reads the shared counter, which every handle on it adds to.
    pub fn external_candidates_seen(&self) -> u64 {
        self.counters.external_candidates_seen.load(Ordering::Relaxed)
    }

    /// Observed addresses attributed to a peer, globally dialable, and counted toward corroboration.
    ///
    /// Reads the shared counter, which every handle on it adds to.
    pub fn external_candidates_recorded(&self) -> u64 {
        self.counters.external_candidates_recorded.load(Ordering::Relaxed)
    }

    /// Addresses corroborated by enough distinct peers to be advertised.
    ///
    /// Reads the shared counter, which every handle on it adds to.
    pub fn external_addresses_promoted(&self) -> u64 {
        self.counters.external_addresses_promoted.load(Ordering::Relaxed)
    }

    /// Reachability probe reports taken in.
    ///
    /// Reads the shared counter, which every handle on it adds to.
    pub fn probes_run(&self) -> u64 {
        self.counters.probes_run.load(Ordering::Relaxed)
    }

    /// Reachability probes whose dial-back arrived.
    ///
    /// Reads the shared counter, which every handle on it adds to.
    pub fn probes_succeeded(&self) -> u64 {
        self.counters.probes_succeeded.load(Ordering::Relaxed)
    }

    /// Reachability probes whose dial-back did not arrive.
    ///
    /// Reads the shared counter, which every handle on it adds to.
    pub fn probes_failed(&self) -> u64 {
        self.counters.probes_failed.load(Ordering::Relaxed)
    }

    /// Broadcasts handed to at least one subscribed peer.
    ///
    /// Reads the shared counter, which every handle on it adds to.
    pub fn broadcasts_propagated(&self) -> u64 {
        self.counters.broadcasts_propagated.load(Ordering::Relaxed)
    }

    /// Broadcasts accepted while no peer was subscribed to hear them.
    ///
    /// Reads the shared counter, which every handle on it adds to.
    pub fn broadcasts_reaching_nobody(&self) -> u64 {
        self.counters.broadcasts_reaching_nobody.load(Ordering::Relaxed)
    }

    /// Adds one to [`Self::tolerated_minor`], in the shared counter and in this handle's view.
    pub fn count_tolerated_minor(&mut self)
        ensures
            final(self)@ == (DiagnosticsView { tolerated_minor: bumped(old(self)@.tolerated_minor, 1), ..old(self)@ }),
            final(self).shares_counters_with(old(self)),
    {
        let _ = self.counters.tolerated_minor.fetch_add(1, Ordering::Relaxed);
        self.counted = Ghost(DiagnosticsView { tolerated_minor: bumped(self.counted@.tolerated_minor, 1), ..self.counted@ });
    }

    /// Adds `fields` to [`Self::unknown_fields`], in the shared counter and in this handle's view.
    pub fn count_unknown_fields(&mut self, fields: u64)
        ensures
            final(self)@ == (DiagnosticsView { unknown_fields: bumped(old(self)@.unknown_fields, fields), ..old(self)@ }),
            final(self).shares_counters_with(old(self)),
    {
        let _ = self.counters.unknown_fields.fetch_add(fields, Ordering::Relaxed);
        self.counted = Ghost(DiagnosticsView { unknown_fields: bumped(self.counted@.unknown_fields, fields), ..self.counted@ });
    }

    /// Adds one to [`Self::unknown_payload_kinds`], in the shared counter and in this handle's view.
    pub fn count_unknown_payload_kind(&mut self)
        ensures
            final(self)@ == (DiagnosticsView { unknown_payload_kinds: bumped(old(self)@.unknown_payload_kinds, 1), ..old(self)@ }),
            final(self).shares_counters_with(old(self)),
    {
        let _ = self.counters.unknown_payload_kinds.fetch_add(1, Ordering::Relaxed);
        self.counted = Ghost(DiagnosticsView { unknown_payload_kinds: bumped(self.counted@.unknown_payload_kinds, 1), ..self.counted@ });
    }

    /// Adds one to [`Self::rejected_major`], in the shared counter and in this handle's view.
    pub fn count_rejected_major(&mut self)
        ensures
            final(self)@ == (DiagnosticsView { rejected_major: bumped(old(self)@.rejected_major, 1), ..old(self)@ }),
            final(self).shares_counters_with(old(self)),
    {
        let _ = self.counters.rejected_major.fetch_add(1, Ordering::Relaxed);
        self.counted = Ghost(DiagnosticsView { rejected_major: bumped(self.counted@.rejected_major, 1), ..self.counted@ });
    }

    /// Adds one to [`Self::oversize_frames`], in the shared counter and in this handle's view.
    pub fn count_oversize_frame(&mut self)
        ensures
            final(self)@ == (DiagnosticsView { oversize_frames: bumped(old(self)@.oversize_frames, 1), ..old(self)@ }),
            final(self).shares_counters_with(old(self)),
    {
        let _ = self.counters.oversize_frames.fetch_add(1, Ordering::Relaxed);
        self.counted = Ghost(DiagnosticsView { oversize_frames: bumped(self.counted@.oversize_frames, 1), ..self.counted@ });
    }

    /// Adds one to [`Self::malformed_frames`], in the shared counter and in this handle's view.
    pub fn count_malformed_frame(&mut self)
        ensures
            final(self)@ == (DiagnosticsView { malformed_frames: bumped(old(self)@.malformed_frames, 1), ..old(self)@ }),
            final(self).shares_counters_with(old(self)),
    {
        let _ = self.counters.malformed_frames.fetch_add(1, Ordering::Relaxed);
        self.counted = Ghost(DiagnosticsView { malformed_frames: bumped(self.counted@.malformed_frames, 1), ..self.counted@ });
    }

    /// Adds one to [`Self::rate_limited`], in the shared counter and in this handle's view.
    pub fn count_rate_limited(&mut self)
        ensures
            final(self)@ == (DiagnosticsView { rate_limited: bumped(old(self)@.rate_limited, 1), ..old(self)@ }),
            final(self).shares_counters_with(old(self)),
    {
        let _ = self.counters.rate_limited.fetch_add(1, Ordering::Relaxed);
        self.counted = Ghost(DiagnosticsView { rate_limited: bumped(self.counted@.rate_limited, 1), ..self.counted@ });
    }

    /// Adds one to [`Self::dropped_events`], in the shared counter and in this handle's view.
    pub fn count_dropped_event(&mut self)
        ensures
            final(self)@ == (DiagnosticsView { dropped_events: bumped(old(self)@.dropped_events, 1), ..old(self)@ }),
            final(self).shares_counters_with(old(self)),
    {
        let _ = self.counters.dropped_events.fetch_add(1, Ordering::Relaxed);
        self.counted = Ghost(DiagnosticsView { dropped_events: bumped(self.counted@.dropped_events, 1), ..self.counted@ });
    }

    /// Adds one to [`Self::external_candidates_seen`], in the shared counter and in this handle's view.
    pub fn count_external_candidate_seen(&mut self)
        ensures
            final(self)@ == (DiagnosticsView { external_candidates_seen: bumped(old(self)@.external_candidates_seen, 1), ..old(self)@ }),
            final(self).shares_counters_with(old(self)),
    {
        let _ = self.counters.external_candidates_seen.fetch_add(1, Ordering::Relaxed);
        self.counted = Ghost(DiagnosticsView { external_candidates_seen: bumped(self.counted@.external_candidates_seen, 1), ..self.counted@ });
    }

    /// Adds one to [`Self::external_candidates_recorded`], in the shared counter and in this handle's view.
    pub fn count_external_candidate_recorded(&mut self)
        ensures
            final(self)@ == (DiagnosticsView { external_candidates_recorded: bumped(old(self)@.external_candidates_recorded, 1), ..old(self)@ }),
            final(self).shares_counters_with(old(self)),
    {
        let _ = self.counters.external_candidates_recorded.fetch_add(1, Ordering::Relaxed);
        self.counted = Ghost(DiagnosticsView { external_candidates_recorded: bumped(self.counted@.external_candidates_recorded, 1), ..self.counted@ });
    }

    /// Adds one to [`Self::external_addresses_promoted`], in the shared counter and in this handle's view.
    pub fn count_external_address_promoted(&mut self)
        ensures
            final(self)@ == (DiagnosticsView { external_addresses_promoted: bumped(old(self)@.external_addresses_promoted, 1), ..old(self)@ }),
            final(self).shares_counters_with(old(self)),
    {
        let _ = self.counters.external_addresses_promoted.fetch_add(1, Ordering::Relaxed);
        self.counted = Ghost(DiagnosticsView { external_addresses_promoted: bumped(self.counted@.external_addresses_promoted, 1), ..self.counted@ });
    }

    /// Adds one to [`Self::probes_run`], in the shared counter and in this handle's view.
    pub fn count_probe_run(&mut self)
        ensures
            final(self)@ == (DiagnosticsView { probes_run: bumped(old(self)@.probes_run, 1), ..old(self)@ }),
            final(self).shares_counters_with(old(self)),
    {
        let _ = self.counters.probes_run.fetch_add(1, Ordering::Relaxed);
        self.counted = Ghost(DiagnosticsView { probes_run: bumped(self.counted@.probes_run, 1), ..self.counted@ });
    }

    /// Adds one to [`Self::probes_succeeded`], in the shared counter and in this handle's view.
    pub fn count_probe_succeeded(&mut self)
        ensures
            final(self)@ == (DiagnosticsView { probes_succeeded: bumped(old(self)@.probes_succeeded, 1), ..old(self)@ }),
            final(self).shares_counters_with(old(self)),
    {
        let _ = self.counters.probes_succeeded.fetch_add(1, Ordering::Relaxed);
        self.counted = Ghost(DiagnosticsView { probes_succeeded: bumped(self.counted@.probes_succeeded, 1), ..self.counted@ });
    }

    /// Adds one to [`Self::probes_failed`], in the shared counter and in this handle's view.
    pub fn count_probe_failed(&mut self)
        ensures
            final(self)@ == (DiagnosticsView { probes_failed: bumped(old(self)@.probes_failed, 1), ..old(self)@ }),
            final(self).shares_counters_with(old(self)),
    {
        let _ = self.counters.probes_failed.fetch_add(1, Ordering::Relaxed);
        self.counted = Ghost(DiagnosticsView { probes_failed: bumped(self.counted@.probes_failed, 1), ..self.counted@ });
    }

    /// Adds one to [`Self::broadcasts_propagated`], in the shared counter and in this handle's view.
    pub fn count_broadcast_propagated(&mut self)
        ensures
            final(self)@ == (DiagnosticsView { broadcasts_propagated: bumped(old(self)@.broadcasts_propagated, 1), ..old(self)@ }),
            final(self).shares_counters_with(old(self)),
    {
        let _ = self.counters.broadcasts_propagated.fetch_add(1, Ordering::Relaxed);
        self.counted = Ghost(DiagnosticsView { broadcasts_propagated: bumped(self.counted@.broadcasts_propagated, 1), ..self.counted@ });
    }

    /// Adds one to [`Self::broadcasts_reaching_nobody`], in the shared counter and in this handle's view.
    pub fn count_broadcast_reaching_nobody(&mut self)
        ensures
            final(self)@ == (DiagnosticsView { broadcasts_reaching_nobody: bumped(old(self)@.broadcasts_reaching_nobody, 1), ..old(self)@ }),
            final(self).shares_counters_with(old(self)),
    {
        let _ = self.counters.broadcasts_reaching_nobody.fetch_add(1, Ordering::Relaxed);
        self.counted = Ghost(DiagnosticsView { broadcasts_reaching_nobody: bumped(self.counted@.broadcasts_reaching_nobody, 1), ..self.counted@ });
    }
}

} // verus!
