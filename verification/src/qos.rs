//! Model of the DDS QoS settings the bridge reads, writes or clears, with
//! the two QoS adaptations (writer to paired reader, reader to paired
//! writer), the compact QoS digest used in announcement key expressions, and
//! the history size of a publication cache.

use vstd::prelude::*;

use crate::text::{dec_of, dec_of_int, parse_i32_of, parse_u32_of, push_decimal, push_decimal_i64,
    split_char, split_on};

verus! {

/// `-1` marks an unlimited resource bound.
pub const DDS_LENGTH_UNLIMITED: i32 = -1;

/// 100 milliseconds in DDS duration ticks (nanoseconds).
pub const DDS_100MS_DURATION: i64 = 100_000_000;

/// One second in DDS duration ticks (nanoseconds).
pub const DDS_1S_DURATION: i64 = 1_000_000_000;

#[derive(Clone, Copy, PartialEq, Eq, Structural, Debug)]
pub enum ReliabilityKind {
    BestEffort,
    Reliable,
}

impl ReliabilityKind {
    /// The numeric value of the kind on the wire and in digests.
    pub open spec fn spec_value(self) -> u64 {
        match self {
            ReliabilityKind::BestEffort => 0,
            ReliabilityKind::Reliable => 1,
        }
    }

    pub fn value(&self) -> (v: u64)
        ensures
            v == self.spec_value(),
    {
        match self {
            ReliabilityKind::BestEffort => 0,
            ReliabilityKind::Reliable => 1,
        }
    }

    /// The kind a numeric value denotes.
    pub open spec fn spec_of_value(v: u64) -> Option<ReliabilityKind> {
        if v == 0 {
            Some(ReliabilityKind::BestEffort)
        } else if v == 1 {
            Some(ReliabilityKind::Reliable)
        } else {
            None
        }
    }

    pub fn of_value(v: u64) -> (r: Option<ReliabilityKind>)
        ensures
            r == Self::spec_of_value(v),
    {
        if v == 0 {
            Some(ReliabilityKind::BestEffort)
        } else if v == 1 {
            Some(ReliabilityKind::Reliable)
        } else {
            None
        }
    }
}

#[derive(Clone, Copy, PartialEq, Eq, Structural, Debug)]
pub enum DurabilityKind {
    Volatile,
    TransientLocal,
    Transient,
    Persistent,
}

impl DurabilityKind {
    pub open spec fn spec_value(self) -> u64 {
        match self {
            DurabilityKind::Volatile => 0,
            DurabilityKind::TransientLocal => 1,
            DurabilityKind::Transient => 2,
            DurabilityKind::Persistent => 3,
        }
    }

    pub fn value(&self) -> (v: u64)
        ensures
            v == self.spec_value(),
    {
        match self {
            DurabilityKind::Volatile => 0,
            DurabilityKind::TransientLocal => 1,
            DurabilityKind::Transient => 2,
            DurabilityKind::Persistent => 3,
        }
    }

    pub open spec fn spec_of_value(v: u64) -> Option<DurabilityKind> {
        if v == 0 {
            Some(DurabilityKind::Volatile)
        } else if v == 1 {
            Some(DurabilityKind::TransientLocal)
        } else if v == 2 {
            Some(DurabilityKind::Transient)
        } else if v == 3 {
            Some(DurabilityKind::Persistent)
        } else {
            None
        }
    }

    pub fn of_value(v: u64) -> (r: Option<DurabilityKind>)
        ensures
            r == Self::spec_of_value(v),
    {
        if v == 0 {
            Some(DurabilityKind::Volatile)
        } else if v == 1 {
            Some(DurabilityKind::TransientLocal)
        } else if v == 2 {
            Some(DurabilityKind::Transient)
        } else if v == 3 {
            Some(DurabilityKind::Persistent)
        } else {
            None
        }
    }
}

#[derive(Clone, Copy, PartialEq, Eq, Structural, Debug)]
pub enum HistoryKind {
    KeepLast,
    KeepAll,
}

impl HistoryKind {
    pub open spec fn spec_value(self) -> u64 {
        match self {
            HistoryKind::KeepLast => 0,
            HistoryKind::KeepAll => 1,
        }
    }

    pub fn value(&self) -> (v: u64)
        ensures
            v == self.spec_value(),
    {
        match self {
            HistoryKind::KeepLast => 0,
            HistoryKind::KeepAll => 1,
        }
    }

    pub open spec fn spec_of_value(v: u64) -> Option<HistoryKind> {
        if v == 0 {
            Some(HistoryKind::KeepLast)
        } else if v == 1 {
            Some(HistoryKind::KeepAll)
        } else {
            None
        }
    }

    pub fn of_value(v: u64) -> (r: Option<HistoryKind>)
        ensures
            r == Self::spec_of_value(v),
    {
        if v == 0 {
            Some(HistoryKind::KeepLast)
        } else if v == 1 {
            Some(HistoryKind::KeepAll)
        } else {
            None
        }
    }
}

#[derive(Clone, Copy, PartialEq, Eq, Structural, Debug)]
pub enum IgnoreLocalKind {
    Off,
    Participant,
    Process,
}

#[derive(Clone, Copy, PartialEq, Eq, Structural, Debug)]
pub struct Reliability {
    pub kind: ReliabilityKind,
    pub max_blocking_time: i64,
}

impl Default for Reliability {
    /// Best effort with a 100 ms blocking bound.
    fn default() -> (r: Self)
        ensures
            r.kind == ReliabilityKind::BestEffort,
            r.max_blocking_time == DDS_100MS_DURATION,
    {
        Reliability { kind: ReliabilityKind::BestEffort, max_blocking_time: DDS_100MS_DURATION }
    }
}

#[derive(Clone, Copy, PartialEq, Eq, Structural, Debug)]
pub struct Durability {
    pub kind: DurabilityKind,
}

#[derive(Clone, Copy, PartialEq, Eq, Structural, Debug)]
pub struct History {
    pub kind: HistoryKind,
    pub depth: i32,
}

impl Default for History {
    /// Keep the last sample.
    fn default() -> (r: Self)
        ensures
            r.kind == HistoryKind::KeepLast,
            r.depth == 1,
    {
        History { kind: HistoryKind::KeepLast, depth: 1 }
    }
}

#[derive(Clone, Copy, PartialEq, Eq, Structural, Debug)]
pub struct DurabilityService {
    pub service_cleanup_delay: i64,
    pub history_kind: HistoryKind,
    pub history_depth: i32,
    pub max_samples: i32,
    pub max_instances: i32,
    pub max_samples_per_instance: i32,
}

impl Default for DurabilityService {
    /// No cleanup delay, keep-last depth one, unlimited resource bounds.
    fn default() -> (r: Self)
        ensures
            r.service_cleanup_delay == 0,
            r.history_kind == HistoryKind::KeepLast,
            r.history_depth == 1,
            r.max_samples == DDS_LENGTH_UNLIMITED,
            r.max_instances == DDS_LENGTH_UNLIMITED,
            r.max_samples_per_instance == DDS_LENGTH_UNLIMITED,
    {
        DurabilityService {
            service_cleanup_delay: 0,
            history_kind: HistoryKind::KeepLast,
            history_depth: 1,
            max_samples: DDS_LENGTH_UNLIMITED,
            max_instances: DDS_LENGTH_UNLIMITED,
            max_samples_per_instance: DDS_LENGTH_UNLIMITED,
        }
    }
}

#[derive(Clone, Copy, PartialEq, Eq, Structural, Debug)]
pub struct IgnoreLocal {
    pub kind: IgnoreLocalKind,
}

#[derive(Clone, Copy, PartialEq, Eq, Structural, Debug)]
pub struct OwnershipStrength {
    pub value: i32,
}

#[derive(Clone, Copy, PartialEq, Eq, Structural, Debug)]
pub struct TransportPriority {
    pub value: i32,
}

#[derive(Clone, Copy, PartialEq, Eq, Structural, Debug)]
pub struct Lifespan {
    pub duration: i64,
}

#[derive(Clone, Copy, PartialEq, Eq, Structural, Debug)]
pub struct WriterDataLifecycle {
    pub autodispose_unregistered_instances: bool,
}

#[derive(Clone, Copy, PartialEq, Eq, Structural, Debug)]
pub struct WriterBatching {
    pub batch_updates: bool,
}

#[derive(Clone, Copy, PartialEq, Eq, Structural, Debug)]
pub struct TimeBasedFilter {
    pub minimum_separation: i64,
}

#[derive(Clone, Copy, PartialEq, Eq, Structural, Debug)]
pub struct ReaderDataLifecycle {
    pub autopurge_nowriter_samples_delay: i64,
    pub autopurge_disposed_samples_delay: i64,
}

/// The QoS descriptor of an endpoint: each policy optional, absence meaning
/// the DDS default.
#[derive(Clone, Debug)]
pub struct Qos {
    pub reliability: Option<Reliability>,
    pub durability: Option<Durability>,
    pub history: Option<History>,
    pub durability_service: Option<DurabilityService>,
    pub ignore_local: Option<IgnoreLocal>,
    pub partition: Option<Vec<String>>,
    pub time_based_filter: Option<TimeBasedFilter>,
    pub reader_data_lifecycle: Option<ReaderDataLifecycle>,
    pub ownership_strength: Option<OwnershipStrength>,
    pub transport_priority: Option<TransportPriority>,
    pub lifespan: Option<Lifespan>,
    pub writer_data_lifecycle: Option<WriterDataLifecycle>,
    pub writer_batching: Option<WriterBatching>,
    pub properties: Option<Vec<(String, String)>>,
    pub entity_name: Option<String>,
}

/// The partition names as character sequences, for contracts.
pub open spec fn partition_view(p: Option<Vec<String>>) -> Option<Seq<Seq<char>>> {
    match p {
        Some(v) => Some(v@.map_values(|s: String| s@)),
        None => None,
    }
}

impl Default for Qos {
    /// Every policy left to the DDS default.
    fn default() -> (r: Self)
        ensures
            r.reliability.is_none(),
            r.durability.is_none(),
            r.history.is_none(),
            r.durability_service.is_none(),
            r.ignore_local.is_none(),
            r.partition.is_none(),
            r.time_based_filter.is_none(),
            r.reader_data_lifecycle.is_none(),
            r.ownership_strength.is_none(),
            r.transport_priority.is_none(),
            r.lifespan.is_none(),
            r.writer_data_lifecycle.is_none(),
            r.writer_batching.is_none(),
            r.properties.is_none(),
            r.entity_name.is_none(),
    {
        Qos {
            reliability: None,
            durability: None,
            history: None,
            durability_service: None,
            ignore_local: None,
            partition: None,
            time_based_filter: None,
            reader_data_lifecycle: None,
            ownership_strength: None,
            transport_priority: None,
            lifespan: None,
            writer_data_lifecycle: None,
            writer_batching: None,
            properties: None,
            entity_name: None,
        }
    }
}

/// The history setting, or the DDS default when unset.
pub fn get_history_or_default(qos: &Qos) -> (r: History)
    ensures
        r == match qos.history {
            Some(h) => h,
            None => History { kind: HistoryKind::KeepLast, depth: 1 },
        },
{
    match &qos.history {
        None => History::default(),
        Some(history) => *history,
    }
}

/// The durability-service setting, or the DDS default when unset.
pub fn get_durability_service_or_default(qos: &Qos) -> (r: DurabilityService)
    ensures
        r == match qos.durability_service {
            Some(d) => d,
            None => DurabilityService {
                service_cleanup_delay: 0,
                history_kind: HistoryKind::KeepLast,
                history_depth: 1,
                max_samples: DDS_LENGTH_UNLIMITED,
                max_instances: DDS_LENGTH_UNLIMITED,
                max_samples_per_instance: DDS_LENGTH_UNLIMITED,
            },
        },
{
    match &qos.durability_service {
        None => DurabilityService::default(),
        Some(durability_service) => *durability_service,
    }
}

/// An unset or empty partition list.
pub fn partition_is_empty(partition: &Option<Vec<String>>) -> (r: bool)
    ensures
        r == match partition_view(*partition) {
            Some(p) => p.len() == 0,
            None => true,
        },
{
    match partition {
        Some(p) => p.len() == 0,
        None => true,
    }
}

/// Whether the partition list holds `name`.
pub fn partition_contains(partition: &Option<Vec<String>>, name: &String) -> (r: bool)
    ensures
        r == match partition_view(*partition) {
            Some(p) => p.contains(name@),
            None => false,
        },
{
    match partition {
        Some(p) => {
            let ghost pv = p@.map_values(|s: String| s@);
            assert(partition_view(*partition) == Some(pv));
            let n = p.len();
            let mut i: usize = 0;
            while i < n
                invariant
                    i <= n,
                    n == p@.len(),
                    pv == p@.map_values(|s: String| s@),
                    partition_view(*partition) == Some(pv),
                    forall|j: int| 0 <= j < i ==> p@[j]@ != name@,
                decreases n - i,
            {
                if crate::text::str_eq(p[i].as_str(), name.as_str()) {
                    assert(pv[i as int] == p@[i as int]@);
                    assert(pv.contains(name@));
                    return true;
                }
                i += 1;
            }
            assert(forall|j: int| 0 <= j < pv.len() ==> pv[j] == p@[j]@ && p@[j]@ != name@);
            assert(!pv.contains(name@));
            false
        },
        None => false,
    }
}

/// A writer is reliable unless it explicitly asks for best effort.
pub fn is_writer_reliable(reliability: &Option<Reliability>) -> (r: bool)
    ensures
        r == match *reliability {
            Some(rel) => rel.kind == ReliabilityKind::Reliable,
            None => true,
        },
{
    match reliability {
        Some(rel) => matches!(rel.kind, ReliabilityKind::Reliable),
        None => true,
    }
}

/// A reader is reliable only when it explicitly asks for it.
pub fn is_reader_reliable(reliability: &Option<Reliability>) -> (r: bool)
    ensures
        r == match *reliability {
            Some(rel) => rel.kind == ReliabilityKind::Reliable,
            None => false,
        },
{
    match reliability {
        Some(rel) => matches!(rel.kind, ReliabilityKind::Reliable),
        None => false,
    }
}

/// Whether the durability is transient-local.
pub fn is_transient_local(qos: &Qos) -> (r: bool)
    ensures
        r == match qos.durability {
            Some(d) => d.kind == DurabilityKind::TransientLocal,
            None => false,
        },
{
    match &qos.durability {
        Some(d) => matches!(d.kind, DurabilityKind::TransientLocal),
        None => false,
    }
}

/// Copies the partition names.
fn clone_partition(p: &Option<Vec<String>>) -> (r: Option<Vec<String>>)
    ensures
        partition_view(r) == partition_view(*p),
{
    match p {
        None => None,
        Some(v) => {
            let n = v.len();
            let mut out: Vec<String> = Vec::new();
            let mut i: usize = 0;
            while i < n
                invariant
                    i <= n,
                    n == v@.len(),
                    out@.len() == i,
                    forall|j: int| 0 <= j < i ==> out@[j]@ == v@[j]@,
                decreases n - i,
            {
                out.push(v[i].clone());
                i += 1;
            }
            assert(out@.map_values(|s: String| s@) =~= v@.map_values(|s: String| s@));
            Some(out)
        },
    }
}

/// `r` is `src` adapted from a writer's QoS to a matching reader's:
/// producer-only and proprietary policies cleared, reliability defaulted to
/// best effort with a 100 ms blocking bound when unset.
pub open spec fn reader_qos_adapted(src: Qos, r: Qos) -> bool {
    &&& r.reliability == match src.reliability {
        Some(rel) => Some(rel),
        None => Some(
            Reliability { kind: ReliabilityKind::BestEffort, max_blocking_time: DDS_100MS_DURATION },
        ),
    }
    &&& r.durability == src.durability
    &&& r.history == src.history
    &&& partition_view(r.partition) == partition_view(src.partition)
    &&& r.time_based_filter == src.time_based_filter
    &&& r.reader_data_lifecycle == src.reader_data_lifecycle
    &&& r.durability_service.is_none()
    &&& r.ownership_strength.is_none()
    &&& r.transport_priority.is_none()
    &&& r.lifespan.is_none()
    &&& r.writer_data_lifecycle.is_none()
    &&& r.writer_batching.is_none()
    &&& r.properties.is_none()
    &&& r.entity_name.is_none()
    &&& r.ignore_local.is_none()
}

/// `r` is `src` adapted from a reader's QoS to a matching writer's:
/// consumer-only and proprietary policies cleared, local matching
/// restricted to other participants, a transient-local reader installing a
/// durability service that mirrors its history, and the reliability
/// blocking bound grown by one tick.
pub open spec fn writer_qos_adapted(src: Qos, r: Qos) -> bool {
    &&& r.time_based_filter.is_none()
    &&& r.reader_data_lifecycle.is_none()
    &&& r.properties.is_none()
    &&& r.entity_name.is_none()
    &&& r.ignore_local == Some(IgnoreLocal { kind: IgnoreLocalKind::Participant })
    &&& r.durability == src.durability
    &&& r.history == src.history
    &&& partition_view(r.partition) == partition_view(src.partition)
    &&& r.ownership_strength == src.ownership_strength
    &&& r.transport_priority == src.transport_priority
    &&& r.lifespan == src.lifespan
    &&& r.writer_data_lifecycle == src.writer_data_lifecycle
    &&& r.writer_batching == src.writer_batching
    &&& r.durability_service == if src.durability matches Some(d) && d.kind
        == DurabilityKind::TransientLocal {
        Some(
            DurabilityService {
                service_cleanup_delay: (60 * DDS_1S_DURATION) as i64,
                history_kind: match src.history {
                    Some(h) => h.kind,
                    None => HistoryKind::KeepLast,
                },
                history_depth: match src.history {
                    Some(h) => h.depth,
                    None => 1,
                },
                max_samples: DDS_LENGTH_UNLIMITED,
                max_instances: DDS_LENGTH_UNLIMITED,
                max_samples_per_instance: DDS_LENGTH_UNLIMITED,
            },
        )
    } else {
        src.durability_service
    }
    &&& r.reliability == match src.reliability {
        Some(rel) => Some(
            Reliability {
                kind: rel.kind,
                max_blocking_time: if rel.max_blocking_time == i64::MAX {
                    i64::MAX
                } else {
                    (rel.max_blocking_time + 1) as i64
                },
            },
        ),
        None => Some(
            Reliability {
                kind: ReliabilityKind::BestEffort,
                max_blocking_time: (DDS_100MS_DURATION + 1) as i64,
            },
        ),
    }
}

/// Copies and adapts a writer's QoS for the creation of a matching reader:
/// producer-only and proprietary policies are cleared, and reliability
/// defaults to best effort with a 100 ms blocking bound when unset.
pub fn adapt_writer_qos_for_reader(qos: &Qos) -> (r: Qos)
    ensures
        reader_qos_adapted(*qos, r),
        r.reliability == match qos.reliability {
            Some(rel) => Some(rel),
            None => Some(
                Reliability {
                    kind: ReliabilityKind::BestEffort,
                    max_blocking_time: DDS_100MS_DURATION,
                },
            ),
        },
        r.durability == qos.durability,
        r.history == qos.history,
        partition_view(r.partition) == partition_view(qos.partition),
        r.time_based_filter == qos.time_based_filter,
        r.reader_data_lifecycle == qos.reader_data_lifecycle,
        r.durability_service.is_none(),
        r.ownership_strength.is_none(),
        r.transport_priority.is_none(),
        r.lifespan.is_none(),
        r.writer_data_lifecycle.is_none(),
        r.writer_batching.is_none(),
        r.properties.is_none(),
        r.entity_name.is_none(),
        r.ignore_local.is_none(),
{
    let reliability = match &qos.reliability {
        Some(rel) => Some(*rel),
        None => Some(
            Reliability { kind: ReliabilityKind::BestEffort, max_blocking_time: DDS_100MS_DURATION },
        ),
    };
    Qos {
        reliability,
        durability: qos.durability,
        history: qos.history,
        durability_service: None,
        ignore_local: None,
        partition: clone_partition(&qos.partition),
        time_based_filter: qos.time_based_filter,
        reader_data_lifecycle: qos.reader_data_lifecycle,
        ownership_strength: None,
        transport_priority: None,
        lifespan: None,
        writer_data_lifecycle: None,
        writer_batching: None,
        properties: None,
        entity_name: None,
    }
}

/// Copies and adapts a reader's QoS for the creation of a matching writer:
/// consumer-only and proprietary policies are cleared, local matching is
/// restricted to other participants, a transient-local reader installs a
/// durability service mirroring its history, and the reliability blocking
/// bound grows by one tick to work around a peer matching bug.
pub fn adapt_reader_qos_for_writer(qos: &Qos) -> (r: Qos)
    ensures
        writer_qos_adapted(*qos, r),
        r.time_based_filter.is_none(),
        r.reader_data_lifecycle.is_none(),
        r.properties.is_none(),
        r.entity_name.is_none(),
        r.ignore_local == Some(IgnoreLocal { kind: IgnoreLocalKind::Participant }),
        r.durability == qos.durability,
        r.history == qos.history,
        partition_view(r.partition) == partition_view(qos.partition),
        r.ownership_strength == qos.ownership_strength,
        r.transport_priority == qos.transport_priority,
        r.lifespan == qos.lifespan,
        r.writer_data_lifecycle == qos.writer_data_lifecycle,
        r.writer_batching == qos.writer_batching,
        r.durability_service == if qos.durability matches Some(d) && d.kind
            == DurabilityKind::TransientLocal {
            Some(
                DurabilityService {
                    service_cleanup_delay: (60 * DDS_1S_DURATION) as i64,
                    history_kind: match qos.history {
                        Some(h) => h.kind,
                        None => HistoryKind::KeepLast,
                    },
                    history_depth: match qos.history {
                        Some(h) => h.depth,
                        None => 1,
                    },
                    max_samples: DDS_LENGTH_UNLIMITED,
                    max_instances: DDS_LENGTH_UNLIMITED,
                    max_samples_per_instance: DDS_LENGTH_UNLIMITED,
                },
            )
        } else {
            qos.durability_service
        },
        r.reliability == match qos.reliability {
            Some(rel) => Some(
                Reliability {
                    kind: rel.kind,
                    max_blocking_time: if rel.max_blocking_time == i64::MAX {
                        i64::MAX
                    } else {
                        (rel.max_blocking_time + 1) as i64
                    },
                },
            ),
            None => Some(
                Reliability {
                    kind: ReliabilityKind::BestEffort,
                    max_blocking_time: (DDS_100MS_DURATION + 1) as i64,
                },
            ),
        },
{
    let durability_service = if is_transient_local(qos) {
        let history = get_history_or_default(qos);
        Some(
            DurabilityService {
                service_cleanup_delay: 60 * DDS_1S_DURATION,
                history_kind: history.kind,
                history_depth: history.depth,
                max_samples: DDS_LENGTH_UNLIMITED,
                max_instances: DDS_LENGTH_UNLIMITED,
                max_samples_per_instance: DDS_LENGTH_UNLIMITED,
            },
        )
    } else {
        qos.durability_service
    };
    let reliability = match &qos.reliability {
        Some(rel) => {
            let bumped: i64 = if rel.max_blocking_time == i64::MAX {
                i64::MAX
            } else {
                rel.max_blocking_time + 1
            };
            Some(Reliability { kind: rel.kind, max_blocking_time: bumped })
        },
        None => {
            let base = Reliability::default();
            Some(
                Reliability { kind: base.kind, max_blocking_time: base.max_blocking_time + 1 },
            )
        },
    };
    Qos {
        reliability,
        durability: qos.durability,
        history: qos.history,
        durability_service,
        ignore_local: Some(IgnoreLocal { kind: IgnoreLocalKind::Participant }),
        partition: clone_partition(&qos.partition),
        time_based_filter: None,
        reader_data_lifecycle: None,
        ownership_strength: qos.ownership_strength,
        transport_priority: qos.transport_priority,
        lifespan: qos.lifespan,
        writer_data_lifecycle: qos.writer_data_lifecycle,
        writer_batching: qos.writer_batching,
        properties: None,
        entity_name: None,
    }
}

/// The digest of the QoS settings that matter to the bridge, used inside
/// announcement key expressions: `[K]:<rel>:<dur>:<hist>,<depth>` where `K`
/// marks a keyed topic and each policy is its numeric kind, or empty when
/// left default.
pub open spec fn qos_digest_of(keyless: bool, qos: Qos) -> Seq<char> {
    let head: Seq<char> = if keyless {
        Seq::empty()
    } else {
        "K"@
    };
    let rel: Seq<char> = match qos.reliability {
        Some(r) => dec_of(r.kind.spec_value() as nat),
        None => Seq::empty(),
    };
    let dur: Seq<char> = match qos.durability {
        Some(d) => dec_of(d.kind.spec_value() as nat),
        None => Seq::empty(),
    };
    let hist: Seq<char> = match qos.history {
        Some(h) => dec_of(h.kind.spec_value() as nat) + ","@ + dec_of_int(h.depth as int),
        None => Seq::empty(),
    };
    head + ":"@ + rel + ":"@ + dur + ":"@ + hist
}

/// Serializes keyedness and QoS to the digest string.
pub fn qos_to_key_expr(keyless: bool, qos: &Qos) -> (r: String)
    ensures
        r@ == qos_digest_of(keyless, *qos),
{
    proof {
        reveal_strlit("K");
        reveal_strlit(":");
        reveal_strlit(",");
    }
    let mut out = String::new();
    if !keyless {
        out.append("K");
    }
    out.append(":");
    if let Some(r) = &qos.reliability {
        push_decimal(&mut out, r.kind.value());
    }
    out.append(":");
    if let Some(d) = &qos.durability {
        push_decimal(&mut out, d.kind.value());
    }
    out.append(":");
    if let Some(h) = &qos.history {
        push_decimal(&mut out, h.kind.value());
        out.append(",");
        push_decimal_i64(&mut out, h.depth as i64);
    }
    assert(out@ =~= qos_digest_of(keyless, *qos));
    out
}

/// What the reliability segment of a digest denotes: outer `None` on a
/// malformed segment, inner `None` when the segment is empty.
pub open spec fn rel_seg_of(s: Seq<char>) -> Option<Option<Reliability>> {
    if s.len() == 0 {
        Some(None)
    } else {
        match parse_u32_of(s) {
            Some(v) => match ReliabilityKind::spec_of_value(v as u64) {
                Some(k) => Some(
                    Some(Reliability { kind: k, max_blocking_time: DDS_100MS_DURATION }),
                ),
                None => None,
            },
            None => None,
        }
    }
}

/// What the durability segment of a digest denotes.
pub open spec fn dur_seg_of(s: Seq<char>) -> Option<Option<Durability>> {
    if s.len() == 0 {
        Some(None)
    } else {
        match parse_u32_of(s) {
            Some(v) => match DurabilityKind::spec_of_value(v as u64) {
                Some(k) => Some(Some(Durability { kind: k })),
                None => None,
            },
            None => None,
        }
    }
}

/// What the history segment of a digest denotes: exactly `<kind>,<depth>`,
/// anything else malformed.
pub open spec fn hist_seg_of(s: Seq<char>) -> Option<Option<History>> {
    if s.len() == 0 {
        Some(None)
    } else {
        let parts = split_on(s, ',');
        if parts.len() != 2 {
            None
        } else {
            match (parse_u32_of(parts[0]), parse_i32_of(parts[1])) {
                (Some(k), Some(depth)) => match HistoryKind::spec_of_value(k as u64) {
                    Some(kind) => Some(Some(History { kind, depth })),
                    None => None,
                },
                _ => None,
            }
        }
    }
}

/// What a whole digest denotes: keyedness and the three tracked policies.
pub open spec fn qos_digest_parse(ke: Seq<char>) -> Option<
    (bool, Option<Reliability>, Option<Durability>, Option<History>),
> {
    let parts = split_on(ke, ':');
    if parts.len() != 4 {
        None
    } else {
        match (rel_seg_of(parts[1]), dur_seg_of(parts[2]), hist_seg_of(parts[3])) {
            (Some(rel), Some(dur), Some(hist)) => Some((parts[0].len() == 0, rel, dur, hist)),
            _ => None,
        }
    }
}

/// Parses a QoS digest back into keyedness and a QoS descriptor whose only
/// set policies are the tracked three; a malformed digest is reported with a
/// description.
pub fn key_expr_to_qos(ke: &str) -> (r: Result<(bool, Qos), String>)
    ensures
        match r {
            Ok((keyless, qos)) => {
                &&& qos_digest_parse(ke@) matches Some(p)
                &&& keyless == p.0
                &&& qos.reliability == p.1
                &&& qos.durability == p.2
                &&& qos.history == p.3
                &&& qos.durability_service.is_none()
                &&& qos.ignore_local.is_none()
                &&& qos.partition.is_none()
                &&& qos.time_based_filter.is_none()
                &&& qos.reader_data_lifecycle.is_none()
                &&& qos.ownership_strength.is_none()
                &&& qos.transport_priority.is_none()
                &&& qos.lifespan.is_none()
                &&& qos.writer_data_lifecycle.is_none()
                &&& qos.writer_batching.is_none()
                &&& qos.properties.is_none()
                &&& qos.entity_name.is_none()
            },
            Err(_) => qos_digest_parse(ke@).is_none(),
        },
{
    let elts = split_char(ke, ':');
    let ghost parts = split_on(ke@, ':');
    assert(elts@.map_values(|t: String| t@) == parts);
    if elts.len() != 4 {
        return Err(format_parse_error(ke, "4 elements between : were expected"));
    }
    assert(elts@[0]@ == parts[0] && elts@[1]@ == parts[1] && elts@[2]@ == parts[2] && elts@[3]@
        == parts[3]);
    let mut qos = Qos::default();
    let keyless = elts[0].as_str().unicode_len() == 0;
    let rel_seg = elts[1].as_str();
    if rel_seg.unicode_len() != 0 {
        match crate::text::parse_u32(rel_seg) {
            Some(v) => match ReliabilityKind::of_value(v as u64) {
                Some(k) => {
                    qos.reliability = Some(
                        Reliability { kind: k, max_blocking_time: DDS_100MS_DURATION },
                    );
                },
                None => {
                    return Err(
                        format_parse_error(ke, "failed to parse Reliability in 2nd element"),
                    );
                },
            },
            None => {
                return Err(format_parse_error(ke, "failed to parse Reliability in 2nd element"));
            },
        }
    }
    let dur_seg = elts[2].as_str();
    if dur_seg.unicode_len() != 0 {
        match crate::text::parse_u32(dur_seg) {
            Some(v) => match DurabilityKind::of_value(v as u64) {
                Some(k) => {
                    qos.durability = Some(Durability { kind: k });
                },
                None => {
                    return Err(
                        format_parse_error(ke, "failed to parse Durability in 3d element"),
                    );
                },
            },
            None => {
                return Err(format_parse_error(ke, "failed to parse Durability in 3d element"));
            },
        }
    }
    let hist_seg = elts[3].as_str();
    if hist_seg.unicode_len() != 0 {
        let hist_parts = split_char(hist_seg, ',');
        let ghost hparts = split_on(hist_seg@, ',');
        assert(hist_parts@.map_values(|t: String| t@) == hparts);
        if hist_parts.len() != 2 {
            assert(hparts.len() != 2);
            return Err(format_parse_error(ke, "failed to parse History in 4th element"));
        }
        assert(hist_parts@[0]@ == hparts[0] && hist_parts@[1]@ == hparts[1]);
        match (crate::text::parse_u32(hist_parts[0].as_str()), crate::text::parse_i32(
            hist_parts[1].as_str(),
        )) {
            (Some(k), Some(depth)) => match HistoryKind::of_value(k as u64) {
                Some(kind) => {
                    qos.history = Some(History { kind, depth });
                },
                None => {
                    return Err(format_parse_error(ke, "failed to parse History in 4th element"));
                },
            },
            _ => {
                return Err(format_parse_error(ke, "failed to parse History in 4th element"));
            },
        }
    }
    Ok((keyless, qos))
}

/// A descriptive parse error for a malformed QoS digest.
fn format_parse_error(ke: &str, detail: &str) -> (r: String) {
    let mut out = String::new();
    out.append("unexpected QoS expression: '");
    out.append(ke);
    out.append("' - ");
    out.append(detail);
    out
}

proof fn lemma_digits_free_of(s: Seq<char>, c: char)
    requires
        crate::text::all_dec_digits(s),
        c < '0' || c > '9',
    ensures
        !s.contains(c),
{
    if s.contains(c) {
        let i = choose|i: int| 0 <= i < s.len() && s[i] == c;
        assert(crate::text::is_dec_digit(s[i]));
    }
}

proof fn lemma_dec_of_int_free_of(v: int, c: char)
    requires
        c < '0' || c > '9',
        c != '-',
    ensures
        !dec_of_int(v).contains(c),
{
    crate::text::lemma_dec_of_digits(if v < 0 {
        (-v) as nat
    } else {
        v as nat
    });
    if v < 0 {
        lemma_digits_free_of(dec_of((-v) as nat), c);
        if dec_of_int(v).contains(c) {
            let i = choose|i: int| 0 <= i < dec_of_int(v).len() && dec_of_int(v)[i] == c;
            if i > 0 {
                assert(dec_of((-v) as nat)[i - 1] == c);
                assert(dec_of((-v) as nat).contains(c));
            }
        }
    } else {
        lemma_digits_free_of(dec_of(v as nat), c);
    }
}

/// A digest built from keyedness and the three tracked QoS policies parses
/// back to exactly them, provided the reliability blocking bound carries the
/// default the parser restores.
#[verifier::rlimit(100)]
pub proof fn lemma_qos_digest_roundtrip(keyless: bool, qos: Qos)
    requires
        qos.reliability matches Some(r) ==> r.max_blocking_time == DDS_100MS_DURATION,
    ensures
        qos_digest_parse(qos_digest_of(keyless, qos)) == Some(
            (keyless, qos.reliability, qos.durability, qos.history),
        ),
{
    reveal_strlit("K");
    reveal_strlit(":");
    reveal_strlit(",");
    let head: Seq<char> = if keyless {
        Seq::empty()
    } else {
        "K"@
    };
    let rel: Seq<char> = match qos.reliability {
        Some(r) => dec_of(r.kind.spec_value() as nat),
        None => Seq::empty(),
    };
    let dur: Seq<char> = match qos.durability {
        Some(d) => dec_of(d.kind.spec_value() as nat),
        None => Seq::empty(),
    };
    let hist: Seq<char> = match qos.history {
        Some(h) => dec_of(h.kind.spec_value() as nat) + ","@ + dec_of_int(h.depth as int),
        None => Seq::empty(),
    };
    let digest = qos_digest_of(keyless, qos);
    assert(digest =~= head + seq![':'] + (rel + seq![':'] + (dur + seq![':'] + hist)));

    assert(!head.contains(':')) by {
        if !keyless {
            assert(head.len() == 1 && head[0] == 'K');
        }
    }
    if qos.reliability is Some {
        crate::text::lemma_dec_of_digits(
            qos.reliability.unwrap().kind.spec_value() as nat,
        );
        lemma_digits_free_of(rel, ':');
    }
    if qos.durability is Some {
        crate::text::lemma_dec_of_digits(qos.durability.unwrap().kind.spec_value() as nat);
        lemma_digits_free_of(dur, ':');
    }
    if qos.history is Some {
        let h = qos.history.unwrap();
        crate::text::lemma_dec_of_digits(h.kind.spec_value() as nat);
        lemma_digits_free_of(dec_of(h.kind.spec_value() as nat), ':');
        lemma_dec_of_int_free_of(h.depth as int, ':');
        assert(!hist.contains(':')) by {
            if hist.contains(':') {
                let i = choose|i: int| 0 <= i < hist.len() && hist[i] == ':';
                let klen = dec_of(h.kind.spec_value() as nat).len() as int;
                if i < klen {
                    assert(dec_of(h.kind.spec_value() as nat).contains(':'));
                } else if i == klen {
                    assert(hist[i] == ',');
                } else {
                    assert(dec_of_int(h.depth as int)[i - klen - 1] == ':');
                    assert(dec_of_int(h.depth as int).contains(':'));
                }
            }
        }
    }

    crate::text::lemma_split_once(head, rel + seq![':'] + (dur + seq![':'] + hist), ':');
    crate::text::lemma_split_once(rel, dur + seq![':'] + hist, ':');
    crate::text::lemma_split_once(dur, hist, ':');
    crate::text::lemma_split_absent(hist, ':');
    assert(rel + seq![':'] + (dur + seq![':'] + hist) =~= rel + seq![':'] + (dur + seq![':']
        + hist));
    let parts = crate::text::split_on(digest, ':');
    assert(parts =~= seq![head, rel, dur, hist]);

    assert((parts[0].len() == 0) == keyless);

    assert(rel_seg_of(rel) == Some(qos.reliability)) by {
        if qos.reliability is Some {
            let r = qos.reliability.unwrap();
            let v = r.kind.spec_value();
            crate::text::lemma_dec_roundtrip(v);
            crate::text::lemma_dec_of_digits(v as nat);
            assert(rel[0] != '+') by {
                assert(crate::text::is_dec_digit(rel[0]));
            }
            assert(crate::text::parse_u32_of(rel) == Some(v as u32));
            assert(ReliabilityKind::spec_of_value(v) == Some(r.kind));
        }
    }
    assert(dur_seg_of(dur) == Some(qos.durability)) by {
        if qos.durability is Some {
            let d = qos.durability.unwrap();
            let v = d.kind.spec_value();
            crate::text::lemma_dec_roundtrip(v);
            crate::text::lemma_dec_of_digits(v as nat);
            assert(dur[0] != '+') by {
                assert(crate::text::is_dec_digit(dur[0]));
            }
            assert(crate::text::parse_u32_of(dur) == Some(v as u32));
            assert(DurabilityKind::spec_of_value(v) == Some(d.kind));
        }
    }
    assert(hist_seg_of(hist) == Some(qos.history)) by {
        if qos.history is Some {
            let h = qos.history.unwrap();
            let kstr = dec_of(h.kind.spec_value() as nat);
            let dstr = dec_of_int(h.depth as int);
            assert(hist =~= kstr + seq![','] + dstr);
            lemma_digits_free_of(kstr, ',');
            lemma_dec_of_int_free_of(h.depth as int, ',');
            crate::text::lemma_split_once(kstr, dstr, ',');
            crate::text::lemma_split_absent(dstr, ',');
            let hparts = crate::text::split_on(hist, ',');
            assert(hparts =~= seq![kstr, dstr]);
            assert(hist.len() > 0);
            let v = h.kind.spec_value();
            crate::text::lemma_dec_roundtrip(v);
            assert(kstr[0] != '+') by {
                assert(crate::text::is_dec_digit(kstr[0]));
            }
            assert(crate::text::parse_u32_of(kstr) == Some(v as u32));
            crate::text::lemma_dec_roundtrip_i32(h.depth);
            assert(HistoryKind::spec_of_value(v) == Some(h.kind));
        }
    }
}

/// The number of samples a publication cache retains for a transient-local
/// writer: unbounded history keeps everything; keep-last `n` keeps `n` per
/// instance, scaled by the instance bound of a keyed topic, saturating when
/// that bound is unlimited or the product overflows.
pub open spec fn cache_history_of(
    hist: Option<History>,
    ds_opt: Option<DurabilityService>,
    keyless: bool,
) -> int {
    let history = match hist {
        Some(h) => h,
        None => History { kind: HistoryKind::KeepLast, depth: 1 },
    };
    let ds = match ds_opt {
        Some(d) => d,
        None => DurabilityService {
            service_cleanup_delay: 0,
            history_kind: HistoryKind::KeepLast,
            history_depth: 1,
            max_samples: DDS_LENGTH_UNLIMITED,
            max_instances: DDS_LENGTH_UNLIMITED,
            max_samples_per_instance: DDS_LENGTH_UNLIMITED,
        },
    };
    if history.kind == HistoryKind::KeepAll {
        usize::MAX as int
    } else {
        let n = if history.depth >= 0 {
            history.depth as int
        } else {
            0
        };
        if keyless {
            n
        } else if ds.max_instances == DDS_LENGTH_UNLIMITED {
            usize::MAX as int
        } else if ds.max_instances > 0 {
            if n * ds.max_instances <= usize::MAX {
                n * ds.max_instances
            } else {
                usize::MAX as int
            }
        } else {
            n
        }
    }
}

/// Computes the publication-cache depth for a transient-local writer.
pub fn publication_cache_history(qos: &Qos, keyless: bool) -> (r: usize)
    ensures
        r == cache_history_of(qos.history, qos.durability_service, keyless),
{
    let history = get_history_or_default(qos);
    let ds = get_durability_service_or_default(qos);
    match history.kind {
        HistoryKind::KeepAll => usize::MAX,
        HistoryKind::KeepLast => {
            let n: usize = if history.depth >= 0 {
                history.depth as usize
            } else {
                0
            };
            if keyless {
                n
            } else if ds.max_instances == DDS_LENGTH_UNLIMITED {
                usize::MAX
            } else if ds.max_instances > 0 {
                match n.checked_mul(ds.max_instances as usize) {
                    Some(m) => {
                        assert(m == n * ds.max_instances);
                        m
                    },
                    None => usize::MAX,
                }
            } else {
                n
            }
        },
    }
}

} // verus!
