//! Per-shard frame-drop accounting.
//!
//! A frame shed instead of delivered is counted under the pair of its class
//! and the reason it was refused; a handful of partition events have counters
//! of their own. Each shard owns one instance and exports it through a
//! registry of its own, so the shard id is no label.

use prometheus_client::metrics::counter::Counter;
use prometheus_client::metrics::family::Family;
use prometheus_client::registry::Registry;
use vstd::prelude::*;

pub mod frame_drop_reason;
pub mod frame_drop_variant;

verus! {

/// Label pair of a dropped frame.
#[derive(Debug, Clone, Copy)]
pub struct FrameDropLabel {
    pub variant: &'static str,
    pub reason: &'static str,
}

/// Known frame classes.
pub const VARIANT_COUNT: usize = 7;

/// Known refusal reasons.
pub const REASON_COUNT: usize = 9;

/// The `index`-th known frame class.
pub open spec fn variant_at(index: int) -> Seq<char> {
    if index == 0 {
        frame_drop_variant::CONSENSUS@
    } else if index == 1 {
        frame_drop_variant::FD_TRANSFER@
    } else if index == 2 {
        frame_drop_variant::PARTITION@
    } else if index == 3 {
        frame_drop_variant::FORWARD_CLIENT_SEND@
    } else if index == 4 {
        frame_drop_variant::FORWARD_REPLICA_SEND@
    } else if index == 5 {
        frame_drop_variant::METADATA_COMMIT_TICK@
    } else {
        frame_drop_variant::REPLICA_HANDSHAKE_ACK@
    }
}

/// The `index`-th known refusal reason.
pub open spec fn reason_at(index: int) -> Seq<char> {
    if index == 0 {
        frame_drop_reason::UNSUPPORTED_OPERATION@
    } else if index == 1 {
        frame_drop_reason::UNPARSABLE@
    } else if index == 2 {
        frame_drop_reason::FULL@
    } else if index == 3 {
        frame_drop_reason::DISCONNECTED@
    } else if index == 4 {
        frame_drop_reason::UNROUTABLE@
    } else if index == 5 {
        frame_drop_reason::DELIVERY_FAILED@
    } else if index == 6 {
        frame_drop_reason::MISROUTED@
    } else if index == 7 {
        frame_drop_reason::PARK_OVERFLOW@
    } else {
        frame_drop_reason::PARK_DROPPED@
    }
}

/// Whether two texts are the same: `==` on `str`, which compares their
/// characters.
#[verifier::external_body]
fn same_text(left: &str, right: &str) -> (same: bool)
    ensures
        same == (left@ == right@),
{
    left == right
}

/// Position of a known frame class.
pub fn variant_index(text: &str) -> (index: Option<usize>)
    ensures
        match index {
            Some(at) => at < VARIANT_COUNT && variant_at(at as int) == text@ && forall|j: int|
                0 <= j < at ==> #[trigger] variant_at(j) != text@,
            None => forall|j: int| 0 <= j < VARIANT_COUNT ==> #[trigger] variant_at(j) != text@,
        },
{
    if same_text(text, frame_drop_variant::CONSENSUS) {
        return Some(0);
    }
    if same_text(text, frame_drop_variant::FD_TRANSFER) {
        return Some(1);
    }
    if same_text(text, frame_drop_variant::PARTITION) {
        return Some(2);
    }
    if same_text(text, frame_drop_variant::FORWARD_CLIENT_SEND) {
        return Some(3);
    }
    if same_text(text, frame_drop_variant::FORWARD_REPLICA_SEND) {
        return Some(4);
    }
    if same_text(text, frame_drop_variant::METADATA_COMMIT_TICK) {
        return Some(5);
    }
    if same_text(text, frame_drop_variant::REPLICA_HANDSHAKE_ACK) {
        return Some(6);
    }
    None
}

/// Position of a known refusal reason.
pub fn reason_index(text: &str) -> (index: Option<usize>)
    ensures
        match index {
            Some(at) => at < REASON_COUNT && reason_at(at as int) == text@ && forall|j: int|
                0 <= j < at ==> #[trigger] reason_at(j) != text@,
            None => forall|j: int| 0 <= j < REASON_COUNT ==> #[trigger] reason_at(j) != text@,
        },
{
    if same_text(text, frame_drop_reason::UNSUPPORTED_OPERATION) {
        return Some(0);
    }
    if same_text(text, frame_drop_reason::UNPARSABLE) {
        return Some(1);
    }
    if same_text(text, frame_drop_reason::FULL) {
        return Some(2);
    }
    if same_text(text, frame_drop_reason::DISCONNECTED) {
        return Some(3);
    }
    if same_text(text, frame_drop_reason::UNROUTABLE) {
        return Some(4);
    }
    if same_text(text, frame_drop_reason::DELIVERY_FAILED) {
        return Some(5);
    }
    if same_text(text, frame_drop_reason::MISROUTED) {
        return Some(6);
    }
    if same_text(text, frame_drop_reason::PARK_OVERFLOW) {
        return Some(7);
    }
    if same_text(text, frame_drop_reason::PARK_DROPPED) {
        return Some(8);
    }
    None
}

/// The text is a known frame class.
pub open spec fn known_variant(text: Seq<char>) -> bool {
    exists|j: int| 0 <= j < VARIANT_COUNT && #[trigger] variant_at(j) == text
}

/// The text is a known refusal reason.
pub open spec fn known_reason(text: Seq<char>) -> bool {
    exists|j: int| 0 <= j < REASON_COUNT && #[trigger] reason_at(j) == text
}

/// One more, as a 64-bit counter counts.
pub open spec fn bumped(count: u64) -> u64 {
    if count == u64::MAX {
        0
    } else {
        (count + 1) as u64
    }
}

/// One counter of the metrics crate. The handle is not shared: what the
/// registry holds of it is only read.
#[verifier::external_body]
pub struct EventCounter {
    counter: Counter,
}

/// What a counter stands at.
pub uninterp spec fn events_counted(counter: EventCounter) -> u64;

/// Which counter a handle counts in. A clone of the handle counts in the same
/// one, and so does the handle after any number of bumps.
pub uninterp spec fn counter_identity(counter: EventCounter) -> int;

/// Calls `prometheus_client::metrics::counter::Counter::default`, which starts
/// at zero.
#[verifier::external_body]
fn new_counter() -> (counter: EventCounter)
    ensures
        events_counted(counter) == 0,
{
    EventCounter { counter: Counter::default() }
}

/// Calls `Counter::inc`: an atomic add of one to the 64-bit count, wrapping at
/// the top. The handle stays that of the same counter.
#[verifier::external_body]
fn bump_counter(counter: &mut EventCounter)
    ensures
        events_counted(*final(counter)) == bumped(events_counted(*old(counter))),
        counter_identity(*final(counter)) == counter_identity(*old(counter)),
{
    counter.counter.inc();
}

/// Calls `Counter::get`, which reads the count.
#[verifier::external_body]
fn read_counter(counter: &EventCounter) -> (count: u64)
    ensures
        count == events_counted(*counter),
{
    counter.counter.get()
}

/// The labelled drop counters: a metric family of the metrics crate, keyed by
/// class and reason. The handle is not shared: what the registry holds of it
/// is only read.
#[verifier::external_body]
pub struct DropFamily {
    family: Family<[(&'static str, &'static str); 2], Counter>,
}

/// The counts a family holds, by class and reason. A pair is there once a drop
/// produced it.
pub uninterp spec fn drops_counted(family: DropFamily) -> Map<(Seq<char>, Seq<char>), u64>;

/// Which family a handle counts in. A clone of the handle counts in the same
/// one, and so does the handle after any number of bumps.
pub uninterp spec fn family_identity(family: DropFamily) -> int;

/// No drop counted.
pub open spec fn no_drops() -> Map<(Seq<char>, Seq<char>), u64> {
    Map::empty()
}

/// Calls `prometheus_client::metrics::family::Family::default`, which holds no
/// metric.
#[verifier::external_body]
fn new_family() -> (family: DropFamily)
    ensures
        drops_counted(family) == no_drops(),
{
    DropFamily { family: Family::default() }
}

/// The counts after one more drop under a pair.
pub open spec fn with_drop(
    counts: Map<(Seq<char>, Seq<char>), u64>,
    variant: Seq<char>,
    reason: Seq<char>,
) -> Map<(Seq<char>, Seq<char>), u64> {
    counts.insert(
        (variant, reason),
        if counts.contains_key((variant, reason)) {
            bumped(counts[(variant, reason)])
        } else {
            1
        },
    )
}

/// Calls `Family::get_or_create`, which adds a metric at zero where the label
/// set has none, and `Counter::inc` on it. The handle stays that of the same
/// family.
#[verifier::external_body]
fn bump_family(family: &mut DropFamily, variant: &'static str, reason: &'static str)
    ensures
        drops_counted(*final(family)) == with_drop(drops_counted(*old(family)), variant@, reason@),
        family_identity(*final(family)) == family_identity(*old(family)),
{
    family.family.get_or_create(&[("variant", variant), ("reason", reason)]).inc();
}

/// Calls `Family::get`, which looks a label set up without adding it, and
/// `Counter::get` on what it finds.
#[verifier::external_body]
fn read_family(family: &DropFamily, variant: &'static str, reason: &'static str) -> (count: Option<u64>)
    ensures
        count == (if drops_counted(*family).contains_key((variant@, reason@)) {
            Some(drops_counted(*family)[(variant@, reason@)])
        } else {
            None
        }),
{
    family.family.get(&[("variant", variant), ("reason", reason)]).map(|counter| counter.get())
}

/// The registry of the metrics crate.
#[verifier::external_type_specification]
#[verifier::external_body]
pub struct ExRegistry(prometheus_client::registry::Registry);

/// Where the counts behind a registered name are kept.
pub enum MetricSource {
    Counter(int),
    Family(int),
}

/// One metric of a registry.
pub struct RegisteredMetric {
    pub name: Seq<char>,
    pub help: Seq<char>,
    pub source: MetricSource,
}

/// The metrics registered with a registry itself, in order: the name and help
/// text each was given, and where it reads its counts.
pub uninterp spec fn registered(registry: Registry) -> Seq<RegisteredMetric>;

/// Calls `prometheus_client::registry::Registry::register` with a clone of the
/// counter's handle: it appends the metric, which reads that counter, under
/// its name and help text.
#[verifier::external_body]
fn register_counter(registry: &mut Registry, name: &'static str, help: &'static str, counter: &EventCounter)
    ensures
        registered(*final(registry)) == registered(*old(registry)).push(
            RegisteredMetric { name: name@, help: help@, source: MetricSource::Counter(counter_identity(*counter)) },
        ),
{
    registry.register(name, help, counter.counter.clone());
}

/// Calls `Registry::register` with a clone of the family's handle: it appends
/// the metric, which reads every pair of that family.
#[verifier::external_body]
fn register_family(registry: &mut Registry, name: &'static str, help: &'static str, family: &DropFamily)
    ensures
        registered(*final(registry)) == registered(*old(registry)).push(
            RegisteredMetric { name: name@, help: help@, source: MetricSource::Family(family_identity(*family)) },
        ),
{
    registry.register(name, help, family.family.clone());
}

/// Metric handles of one shard.
pub struct ShardMetrics {
    pub frame_drops_total: DropFamily,
    /// Every frame drop, whatever its pair.
    pub frame_drops_sum: EventCounter,
    pub partitions_materialised_total: EventCounter,
    pub partitions_removed_total: EventCounter,
    pub partitions_reconcile_failures_total: EventCounter,
    pub partitions_duplicate_builds_discarded_total: EventCounter,
    pub partition_transfer_refusals_total: EventCounter,
    pub partition_frames_rejected_stale_total: EventCounter,
    pub partition_frames_rejected_ahead_total: EventCounter,
    pub partition_requests_denied_transient_total: EventCounter,
    pub partition_repair_serves_deferred_purge_total: EventCounter,
}

/// The counts of a shard's metrics, and what they are exported as.
pub struct MetricCounts {
    /// Names, help texts and handles; counting leaves them alone.
    pub exports: Seq<RegisteredMetric>,
    pub frame_drops: Map<(Seq<char>, Seq<char>), u64>,
    pub frame_drops_sum: u64,
    pub partitions_materialised: u64,
    pub partitions_removed: u64,
    pub partitions_reconcile_failures: u64,
    pub partitions_duplicate_builds_discarded: u64,
    pub partition_transfer_refusals: u64,
    pub partition_frames_rejected_stale: u64,
    pub partition_frames_rejected_ahead: u64,
    pub partition_requests_denied_transient: u64,
    pub partition_repair_serves_deferred_purge: u64,
}

impl View for ShardMetrics {
    type V = MetricCounts;

    open spec fn view(&self) -> MetricCounts {
        MetricCounts {
            exports: self.exported(),
            frame_drops: drops_counted(self.frame_drops_total),
            frame_drops_sum: events_counted(self.frame_drops_sum),
            partitions_materialised: events_counted(self.partitions_materialised_total),
            partitions_removed: events_counted(self.partitions_removed_total),
            partitions_reconcile_failures: events_counted(self.partitions_reconcile_failures_total),
            partitions_duplicate_builds_discarded: events_counted(self.partitions_duplicate_builds_discarded_total),
            partition_transfer_refusals: events_counted(self.partition_transfer_refusals_total),
            partition_frames_rejected_stale: events_counted(self.partition_frames_rejected_stale_total),
            partition_frames_rejected_ahead: events_counted(self.partition_frames_rejected_ahead_total),
            partition_requests_denied_transient: events_counted(self.partition_requests_denied_transient_total),
            partition_repair_serves_deferred_purge: events_counted(self.partition_repair_serves_deferred_purge_total),
        }
    }
}

impl MetricCounts {
    /// Drops read under one pair: none where a label is unknown.
    pub open spec fn drops_under(self, variant: Seq<char>, reason: Seq<char>) -> u64 {
        if known_variant(variant) && known_reason(reason) && self.frame_drops.contains_key((variant, reason)) {
            self.frame_drops[(variant, reason)]
        } else {
            0
        }
    }

    /// These counts after one more drop.
    pub open spec fn dropped(self, variant: Seq<char>, reason: Seq<char>) -> MetricCounts {
        MetricCounts {
            frame_drops: with_drop(self.frame_drops, variant, reason),
            frame_drops_sum: bumped(self.frame_drops_sum),
            ..self
        }
    }

    /// The counts of a fresh shard.
    pub open spec fn zero(exports: Seq<RegisteredMetric>) -> MetricCounts {
        MetricCounts {
            exports,
            frame_drops: no_drops(),
            frame_drops_sum: 0,
            partitions_materialised: 0,
            partitions_removed: 0,
            partitions_reconcile_failures: 0,
            partitions_duplicate_builds_discarded: 0,
            partition_transfer_refusals: 0,
            partition_frames_rejected_stale: 0,
            partition_frames_rejected_ahead: 0,
            partition_requests_denied_transient: 0,
            partition_repair_serves_deferred_purge: 0,
        }
    }
}

impl ShardMetrics {
    /// Fresh handles for one shard.
    pub fn for_shard() -> (metrics: ShardMetrics)
        ensures
            metrics@ == MetricCounts::zero(metrics.exported()),
    {
        ShardMetrics {
            frame_drops_total: new_family(),
            frame_drops_sum: new_counter(),
            partitions_materialised_total: new_counter(),
            partitions_removed_total: new_counter(),
            partitions_reconcile_failures_total: new_counter(),
            partitions_duplicate_builds_discarded_total: new_counter(),
            partition_transfer_refusals_total: new_counter(),
            partition_frames_rejected_stale_total: new_counter(),
            partition_frames_rejected_ahead_total: new_counter(),
            partition_requests_denied_transient_total: new_counter(),
            partition_repair_serves_deferred_purge_total: new_counter(),
        }
    }

    /// Count one dropped frame. A pair outside the known labels is counted
    /// too.
    pub fn record_frame_drop(&mut self, variant: &'static str, reason: &'static str)
        ensures
            final(self)@ == old(self)@.dropped(variant@, reason@),
            final(self).exported() == old(self).exported(),
    {
        bump_family(&mut self.frame_drops_total, variant, reason);
        bump_counter(&mut self.frame_drops_sum);
    }

    /// Drops counted under one pair, or zero where a label is unknown. Reading
    /// never adds a pair.
    pub fn frame_drop_count(&self, variant: &'static str, reason: &'static str) -> (count: u64)
        ensures
            count == self@.drops_under(variant@, reason@),
    {
        if variant_index(variant).is_none() || reason_index(reason).is_none() {
            return 0;
        }
        match read_family(&self.frame_drops_total, variant, reason) {
            Some(count) => count,
            None => 0,
        }
    }

    /// Every frame drop of the shard, over all pairs.
    pub fn frame_drops_value(&self) -> (count: u64)
        ensures
            count == self@.frame_drops_sum,
    {
        read_counter(&self.frame_drops_sum)
    }

    /// A committed namespace was materialised.
    pub fn record_partition_materialised(&mut self)
        ensures
            final(self)@ == (MetricCounts { partitions_materialised: bumped(old(self)@.partitions_materialised), ..old(self)@ }),
            final(self).exported() == old(self).exported(),
    {
        bump_counter(&mut self.partitions_materialised_total);
    }

    pub fn partitions_materialised_value(&self) -> (count: u64)
        ensures
            count == self@.partitions_materialised,
    {
        read_counter(&self.partitions_materialised_total)
    }

    /// A partition left the committed metadata and was dropped.
    pub fn record_partition_removed(&mut self)
        ensures
            final(self)@ == (MetricCounts { partitions_removed: bumped(old(self)@.partitions_removed), ..old(self)@ }),
            final(self).exported() == old(self).exported(),
    {
        bump_counter(&mut self.partitions_removed_total);
    }

    pub fn partitions_removed_value(&self) -> (count: u64)
        ensures
            count == self@.partitions_removed,
    {
        read_counter(&self.partitions_removed_total)
    }

    /// A partition build or delete failed and will be tried again.
    pub fn record_partition_reconcile_failure(&mut self)
        ensures
            final(self)@ == (MetricCounts { partitions_reconcile_failures: bumped(old(self)@.partitions_reconcile_failures), ..old(self)@ }),
            final(self).exported() == old(self).exported(),
    {
        bump_counter(&mut self.partitions_reconcile_failures_total);
    }

    pub fn partitions_reconcile_failures_value(&self) -> (count: u64)
        ensures
            count == self@.partitions_reconcile_failures,
    {
        read_counter(&self.partitions_reconcile_failures_total)
    }

    /// A second build of a live namespace was discarded: a caught anomaly.
    pub fn record_duplicate_partition_build_discarded(&mut self)
        ensures
            final(self)@ == (MetricCounts { partitions_duplicate_builds_discarded: bumped(old(self)@.partitions_duplicate_builds_discarded), ..old(self)@ }),
            final(self).exported() == old(self).exported(),
    {
        bump_counter(&mut self.partitions_duplicate_builds_discarded_total);
    }

    /// A serving peer refused a partition transfer. Refusals charge no failure,
    /// so this count is the only sign of a partition that never rejoins.
    pub fn record_partition_transfer_refusal(&mut self)
        ensures
            final(self)@ == (MetricCounts { partition_transfer_refusals: bumped(old(self)@.partition_transfer_refusals), ..old(self)@ }),
            final(self).exported() == old(self).exported(),
    {
        bump_counter(&mut self.partition_transfer_refusals_total);
    }

    pub fn partition_transfer_refusals_value(&self) -> (count: u64)
        ensures
            count == self@.partition_transfer_refusals,
    {
        read_counter(&self.partition_transfer_refusals_total)
    }

    /// A parked frame addressed an incarnation that is gone: a caught anomaly.
    pub fn record_partition_frame_rejected_stale(&mut self)
        ensures
            final(self)@ == (MetricCounts { partition_frames_rejected_stale: bumped(old(self)@.partition_frames_rejected_stale), ..old(self)@ }),
            final(self).exported() == old(self).exported(),
    {
        bump_counter(&mut self.partition_frames_rejected_stale_total);
    }

    pub fn partition_frames_rejected_stale_value(&self) -> (count: u64)
        ensures
            count == self@.partition_frames_rejected_stale,
    {
        read_counter(&self.partition_frames_rejected_stale_total)
    }

    /// A parked frame addressed an incarnation not materialised yet: an
    /// expected race.
    pub fn record_partition_frame_rejected_ahead(&mut self)
        ensures
            final(self)@ == (MetricCounts { partition_frames_rejected_ahead: bumped(old(self)@.partition_frames_rejected_ahead), ..old(self)@ }),
            final(self).exported() == old(self).exported(),
    {
        bump_counter(&mut self.partition_frames_rejected_ahead_total);
    }

    pub fn partition_frames_rejected_ahead_value(&self) -> (count: u64)
        ensures
            count == self@.partition_frames_rejected_ahead,
    {
        read_counter(&self.partition_frames_rejected_ahead_total)
    }

    /// A partition request was answered with a retriable denial. Counted only
    /// once the answer was handed on.
    pub fn record_partition_request_denied_transient(&mut self)
        ensures
            final(self)@ == (MetricCounts { partition_requests_denied_transient: bumped(old(self)@.partition_requests_denied_transient), ..old(self)@ }),
            final(self).exported() == old(self).exported(),
    {
        bump_counter(&mut self.partition_requests_denied_transient_total);
    }

    pub fn partition_requests_denied_transient_value(&self) -> (count: u64)
        ensures
            count == self@.partition_requests_denied_transient,
    {
        read_counter(&self.partition_requests_denied_transient_total)
    }

    /// A partition repair waits for a committed purge to apply.
    pub fn record_partition_repair_serve_deferred(&mut self)
        ensures
            final(self)@ == (MetricCounts { partition_repair_serves_deferred_purge: bumped(old(self)@.partition_repair_serves_deferred_purge), ..old(self)@ }),
            final(self).exported() == old(self).exported(),
    {
        bump_counter(&mut self.partition_repair_serves_deferred_purge_total);
    }

    pub fn partition_repair_serves_deferred_purge_value(&self) -> (count: u64)
        ensures
            count == self@.partition_repair_serves_deferred_purge,
    {
        read_counter(&self.partition_repair_serves_deferred_purge_total)
    }

    /// What a shard exports, in order: each name with its help text and the
    /// handle that is counted in.
    pub open spec fn exported(&self) -> Seq<RegisteredMetric> {
        seq![
            RegisteredMetric {
                name: "frame_drops"@,
                help: "frames shed instead of delivered, by frame class and refusal reason"@,
                source: MetricSource::Family(family_identity(self.frame_drops_total)),
            },
            exported_counter(
                "partitions_materialised"@,
                "partitions materialised by the reconciliation loop"@,
                self.partitions_materialised_total,
            ),
            exported_counter(
                "partitions_removed"@,
                "partitions dropped after their namespace left the committed metadata"@,
                self.partitions_removed_total,
            ),
            exported_counter(
                "partitions_reconcile_failures"@,
                "partition build or delete attempts the reconciler will retry"@,
                self.partitions_reconcile_failures_total,
            ),
            exported_counter(
                "partitions_duplicate_builds_discarded"@,
                "duplicate partition builds discarded by the pump; non-zero is a caught anomaly"@,
                self.partitions_duplicate_builds_discarded_total,
            ),
            exported_counter(
                "partition_transfer_refusals"@,
                "partition state transfers refused by the serving peer"@,
                self.partition_transfer_refusals_total,
            ),
            exported_counter(
                "partition_frames_rejected_stale"@,
                "parked frames rejected for a dead incarnation; non-zero is a caught anomaly"@,
                self.partition_frames_rejected_stale_total,
            ),
            exported_counter(
                "partition_frames_rejected_ahead"@,
                "parked frames rejected for an epoch ahead of the materialised one"@,
                self.partition_frames_rejected_ahead_total,
            ),
            exported_counter(
                "partition_requests_denied_transient"@,
                "partition requests answered with a retriable transient denial"@,
                self.partition_requests_denied_transient_total,
            ),
            exported_counter(
                "partition_repair_serves_deferred_purge"@,
                "partition repair serves or completions deferred until a committed purge applies"@,
                self.partition_repair_serves_deferred_purge_total,
            ),
        ]
    }

    /// Register every metric with `registry`. Names carry no `_total` suffix;
    /// the text exposition appends it.
    pub fn register(&self, registry: &mut Registry)
        ensures
            registered(*final(registry)) == registered(*old(registry)) + self.exported(),
    {
        register_family(
            registry,
            "frame_drops",
            "frames shed instead of delivered, by frame class and refusal reason",
            &self.frame_drops_total,
        );
        register_counter(
            registry,
            "partitions_materialised",
            "partitions materialised by the reconciliation loop",
            &self.partitions_materialised_total,
        );
        register_counter(
            registry,
            "partitions_removed",
            "partitions dropped after their namespace left the committed metadata",
            &self.partitions_removed_total,
        );
        register_counter(
            registry,
            "partitions_reconcile_failures",
            "partition build or delete attempts the reconciler will retry",
            &self.partitions_reconcile_failures_total,
        );
        register_counter(
            registry,
            "partitions_duplicate_builds_discarded",
            "duplicate partition builds discarded by the pump; non-zero is a caught anomaly",
            &self.partitions_duplicate_builds_discarded_total,
        );
        register_counter(
            registry,
            "partition_transfer_refusals",
            "partition state transfers refused by the serving peer",
            &self.partition_transfer_refusals_total,
        );
        register_counter(
            registry,
            "partition_frames_rejected_stale",
            "parked frames rejected for a dead incarnation; non-zero is a caught anomaly",
            &self.partition_frames_rejected_stale_total,
        );
        register_counter(
            registry,
            "partition_frames_rejected_ahead",
            "parked frames rejected for an epoch ahead of the materialised one",
            &self.partition_frames_rejected_ahead_total,
        );
        register_counter(
            registry,
            "partition_requests_denied_transient",
            "partition requests answered with a retriable transient denial",
            &self.partition_requests_denied_transient_total,
        );
        register_counter(
            registry,
            "partition_repair_serves_deferred_purge",
            "partition repair serves or completions deferred until a committed purge applies",
            &self.partition_repair_serves_deferred_purge_total,
        );
        proof {
            assert(registered(*registry) =~= registered(*old(registry)) + self.exported());
        }
    }
}

/// A counter exported under a name.
pub open spec fn exported_counter(name: Seq<char>, help: Seq<char>, counter: EventCounter) -> RegisteredMetric {
    RegisteredMetric { name, help, source: MetricSource::Counter(counter_identity(counter)) }
}

/// The drops of every pair together.
pub open spec fn drop_total(drops: Map<(Seq<char>, Seq<char>), u64>) -> int
    decreases drops.dom().len(),
    when drops.dom().finite()
{
    if drops.dom().len() == 0 {
        0
    } else {
        let pair = drops.dom().choose();
        drops[pair] + drop_total(drops.remove(pair))
    }
}

proof fn lemma_drop_total_remove(drops: Map<(Seq<char>, Seq<char>), u64>, pair: (Seq<char>, Seq<char>))
    requires
        drops.dom().finite(),
        drops.contains_key(pair),
    ensures
        drop_total(drops) == drops[pair] + drop_total(drops.remove(pair)),
    decreases drops.dom().len(),
{
    let first = drops.dom().choose();
    if first != pair {
        lemma_drop_total_remove(drops.remove(first), pair);
        lemma_drop_total_remove(drops.remove(pair), first);
        assert(drops.remove(first).remove(pair) =~= drops.remove(pair).remove(first));
    }
}

impl MetricCounts {
    /// The sum counts every pair, as a 64-bit counter counts.
    pub open spec fn balanced(self) -> bool {
        &&& self.frame_drops.dom().finite()
        &&& self.frame_drops_sum == drop_total(self.frame_drops) % 0x1_0000_0000_0000_0000
    }
}

/// One more drop under a pair moves the total by what it moves the pair.
proof fn lemma_drop_total_after(drops: Map<(Seq<char>, Seq<char>), u64>, variant: Seq<char>, reason: Seq<char>)
    requires
        drops.dom().finite(),
    ensures
        with_drop(drops, variant, reason).dom().finite(),
        ({
            let held: u64 = if drops.contains_key((variant, reason)) {
                drops[(variant, reason)]
            } else {
                0
            };
            drop_total(with_drop(drops, variant, reason)) == drop_total(drops) - held + bumped(held)
        }),
{
    let pair = (variant, reason);
    let after = with_drop(drops, variant, reason);
    lemma_drop_total_remove(after, pair);
    if drops.contains_key(pair) {
        lemma_drop_total_remove(drops, pair);
        assert(after.remove(pair) =~= drops.remove(pair));
    } else {
        assert(after.remove(pair) =~= drops);
    }
}

/// Counting one more and then wrapping, or the other way round.
proof fn lemma_sum_bumped(total: int, sum: u64, held: u64)
    requires
        sum == total % 0x1_0000_0000_0000_0000,
    ensures
        bumped(sum) == (total - held + bumped(held)) % 0x1_0000_0000_0000_0000,
{
}

/// Whatever pairs drops are counted under, known or not, the shard's sum is
/// the total over every pair.
#[verifier::spinoff_prover]
pub proof fn law_drop_sum_is_the_total_of_every_pair(counts: MetricCounts, variant: Seq<char>, reason: Seq<char>)
    ensures
        MetricCounts::zero(counts.exports).balanced(),
        counts.balanced() ==> counts.dropped(variant, reason).balanced(),
{
    if counts.balanced() {
        let drops = counts.frame_drops;
        let held: u64 = if drops.contains_key((variant, reason)) {
            drops[(variant, reason)]
        } else {
            0
        };
        lemma_drop_total_after(drops, variant, reason);
        lemma_sum_bumped(drop_total(drops), counts.frame_drops_sum, held);
    }
}

/// A pair nobody produced is in no export, and a drop adds its own pair
/// and no other.
pub proof fn law_drop_touches_only_its_own_pair(
    counts: MetricCounts,
    variant: Seq<char>,
    reason: Seq<char>,
    other: (Seq<char>, Seq<char>),
)
    requires
        other != (variant, reason),
    ensures
        counts.dropped(variant, reason).frame_drops.contains_key(other) == counts.frame_drops.contains_key(other),
        counts.frame_drops.contains_key(other) ==> counts.dropped(variant, reason).frame_drops[other]
            == counts.frame_drops[other],
        counts.dropped(variant, reason).frame_drops.contains_key((variant, reason)),
        !MetricCounts::zero(counts.exports).frame_drops.contains_key(other),
{
}

/// A drop moves its own pair and the sum by one each, wrapping at the top, and
/// no counter but these.
pub proof fn law_drop_counts_one(counts: MetricCounts, variant: Seq<char>, reason: Seq<char>)
    ensures
        ({
            let after = counts.dropped(variant, reason);
            &&& !counts.frame_drops.contains_key((variant, reason)) ==> after.frame_drops[(variant, reason)] == 1
            &&& counts.frame_drops.contains_key((variant, reason)) && counts.frame_drops[(variant, reason)] < u64::MAX
                ==> after.frame_drops[(variant, reason)] == counts.frame_drops[(variant, reason)] + 1
            &&& counts.frame_drops_sum < u64::MAX ==> after.frame_drops_sum == counts.frame_drops_sum + 1
            &&& after == (MetricCounts {
                frame_drops: after.frame_drops,
                frame_drops_sum: after.frame_drops_sum,
                ..counts
            })
        }),
{
}

/// No two reasons and no two classes share a label, so no two pairs of them
/// share a count.
pub proof fn law_labels_are_distinct(left: int, right: int)
    ensures
        0 <= left < right < REASON_COUNT ==> reason_at(left) != reason_at(right),
        0 <= left < right < VARIANT_COUNT ==> variant_at(left) != variant_at(right),
{
    reveal_strlit("unsupported_operation");
    reveal_strlit("unparsable");
    reveal_strlit("full");
    reveal_strlit("disconnected");
    reveal_strlit("unroutable");
    reveal_strlit("delivery_failed");
    reveal_strlit("misrouted");
    reveal_strlit("park_overflow");
    reveal_strlit("park_dropped");
    reveal_strlit("consensus");
    reveal_strlit("fd_transfer");
    reveal_strlit("partition");
    reveal_strlit("forward_client_send");
    reveal_strlit("forward_replica_send");
    reveal_strlit("metadata_commit_tick");
    reveal_strlit("replica_handshake_ack");
    assert(frame_drop_reason::UNSUPPORTED_OPERATION@.len() == 21);
    assert(frame_drop_reason::UNPARSABLE@.len() == 10);
    assert(frame_drop_reason::FULL@.len() == 4);
    assert(frame_drop_reason::DISCONNECTED@.len() == 12);
    assert(frame_drop_reason::UNROUTABLE@.len() == 10);
    assert(frame_drop_reason::DELIVERY_FAILED@.len() == 15);
    assert(frame_drop_reason::MISROUTED@.len() == 9);
    assert(frame_drop_reason::PARK_OVERFLOW@.len() == 13);
    assert(frame_drop_reason::PARK_DROPPED@.len() == 12);
    assert(frame_drop_variant::CONSENSUS@.len() == 9);
    assert(frame_drop_variant::FD_TRANSFER@.len() == 11);
    assert(frame_drop_variant::PARTITION@.len() == 9);
    assert(frame_drop_variant::FORWARD_CLIENT_SEND@.len() == 19);
    assert(frame_drop_variant::FORWARD_REPLICA_SEND@.len() == 20);
    assert(frame_drop_variant::METADATA_COMMIT_TICK@.len() == 20);
    assert(frame_drop_variant::REPLICA_HANDSHAKE_ACK@.len() == 21);
    assert(frame_drop_reason::UNPARSABLE@[2] != frame_drop_reason::UNROUTABLE@[2]);
    assert(frame_drop_reason::DISCONNECTED@[0] != frame_drop_reason::PARK_DROPPED@[0]);
    assert(frame_drop_variant::CONSENSUS@[0] != frame_drop_variant::PARTITION@[0]);
    assert(frame_drop_variant::FORWARD_REPLICA_SEND@[0] != frame_drop_variant::METADATA_COMMIT_TICK@[0]);
}

/// A drop under known labels is read back: the pair reads one more than before,
/// every other pair what it read. Under a label nobody knows nothing is read,
/// and a fresh shard reads nothing at all.
pub proof fn law_recorded_drop_is_read_back(
    counts: MetricCounts,
    class: int,
    cause: int,
    other_variant: Seq<char>,
    other_reason: Seq<char>,
)
    requires
        0 <= class < VARIANT_COUNT,
        0 <= cause < REASON_COUNT,
    ensures
        ({
            let variant = variant_at(class);
            let reason = reason_at(cause);
            let after = counts.dropped(variant, reason);
            &&& counts.drops_under(variant, reason) < u64::MAX ==> after.drops_under(variant, reason) == counts.drops_under(
                variant,
                reason,
            ) + 1
            &&& (other_variant, other_reason) != (variant, reason) ==> after.drops_under(other_variant, other_reason)
                == counts.drops_under(other_variant, other_reason)
            &&& MetricCounts::zero(counts.exports).drops_under(variant, reason) == 0
        }),
        (forall|j: int| 0 <= j < VARIANT_COUNT ==> #[trigger] variant_at(j) != other_variant) ==> counts.drops_under(
            other_variant,
            other_reason,
        ) == 0,
        (forall|j: int| 0 <= j < REASON_COUNT ==> #[trigger] reason_at(j) != other_reason) ==> counts.drops_under(
            other_variant,
            other_reason,
        ) == 0,
{
    assert(known_variant(variant_at(class)));
    assert(known_reason(reason_at(cause)));
}

} // verus!
