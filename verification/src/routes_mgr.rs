//! Route lifecycle: the two per-topic route kinds, reference-counted by the
//! local nodes they serve and the remote peers announcing a matching route,
//! the plans that tell the endpoint layer what to build, and the manager
//! that reacts to discovery events.

use vstd::prelude::*;

use crate::config::Config;
use crate::endpoints::DdsEntity;
use crate::entities::DiscoveredEntities;
use crate::node_info::ROS2DiscoveryEvent;
use crate::qos::{adapt_writer_qos_for_reader, cache_history_of, is_transient_local,
    is_writer_reliable, publication_cache_history, qos_digest_of, qos_to_key_expr, Qos,
    ReliabilityKind};
use crate::seq_find::{first_where, lemma_first_where, lemma_first_where_is,
    lemma_first_where_none};
use crate::text::str_eq;

verus! {

/// The congestion policy of the overlay side of a route.
#[derive(Clone, Copy, PartialEq, Eq, Structural, Debug)]
pub enum CongestionMode {
    Block,
    Drop,
}

/// Which samples or queries the overlay side of a route accepts: only
/// remote ones, so that a bridge never feeds itself, or any.
#[derive(Clone, Copy, PartialEq, Eq, Structural, Debug)]
pub enum OriginFilter {
    Remote,
    Any,
}

/// How routing went for one interface.
pub enum RouteStatus {
    /// Routing is active, with the key expression used for the route.
    Routed(String),
    /// Routing was not allowed by the configured policy.
    NotAllowed,
    /// The route could not be created.
    CreationFailure(String),
}

/// What the endpoint layer must build for a new publisher route: a native
/// reader on the writer's topic with the adapted QoS, and an overlay
/// publisher or publication cache whose historical replies go to remote
/// queriers only.
pub struct PublisherRoutePlan {
    pub ke: String,
    pub topic_name: String,
    pub typ_name: String,
    pub keyless: bool,
    pub use_publication_cache: bool,
    pub cache_history: usize,
    pub cache_reply_origin: OriginFilter,
    pub congestion: CongestionMode,
    pub reader_qos: Qos,
}

/// What the endpoint layer must build for a new subscriber route: a native
/// writer on the reader's topic with the adapted QoS, and an overlay
/// subscriber or fetching subscriber that accepts remote samples only.
pub struct SubscriberRoutePlan {
    pub ke: String,
    pub topic_name: String,
    pub typ_name: String,
    pub keyless: bool,
    pub writer_qos: Qos,
    pub use_fetching_subscriber: bool,
    pub sample_origin: OriginFilter,
    pub queries_timeout_ns: u64,
    pub liveliness_ke: String,
}

/// A route from the DDS side to the overlay: one native reader feeding one
/// overlay publisher or publication cache.
pub struct RoutePublisher {
    pub name: String,
    pub typ: String,
    pub ke: String,
    pub use_publication_cache: bool,
    pub cache_history: usize,
    pub congestion: CongestionMode,
    pub remote_routes: Vec<String>,
    pub local_nodes: Vec<String>,
}

/// Ghost image of a publisher route.
#[verifier::ext_equal]
pub struct RoutePublisherView {
    pub name: Seq<char>,
    pub typ: Seq<char>,
    pub ke: Seq<char>,
    pub use_publication_cache: bool,
    pub cache_history: int,
    pub congestion: CongestionMode,
    pub remote_routes: Seq<Seq<char>>,
    pub local_nodes: Seq<Seq<char>>,
}

impl View for RoutePublisher {
    type V = RoutePublisherView;

    open spec fn view(&self) -> RoutePublisherView {
        RoutePublisherView {
            name: self.name@,
            typ: self.typ@,
            ke: self.ke@,
            use_publication_cache: self.use_publication_cache,
            cache_history: self.cache_history as int,
            congestion: self.congestion,
            remote_routes: self.remote_routes@.map_values(|s: String| s@),
            local_nodes: self.local_nodes@.map_values(|s: String| s@),
        }
    }
}

/// A route from the overlay to the DDS side: one overlay subscriber or
/// fetching subscriber driving one native writer, announced by a liveliness
/// token.
pub struct RouteSubscriber {
    pub name: String,
    pub typ: String,
    pub ke: String,
    pub use_fetching_subscriber: bool,
    pub liveliness_ke: String,
    pub remote_routes: Vec<String>,
    pub local_nodes: Vec<String>,
}

/// Ghost image of a subscriber route.
#[verifier::ext_equal]
pub struct RouteSubscriberView {
    pub name: Seq<char>,
    pub typ: Seq<char>,
    pub ke: Seq<char>,
    pub use_fetching_subscriber: bool,
    pub liveliness_ke: Seq<char>,
    pub remote_routes: Seq<Seq<char>>,
    pub local_nodes: Seq<Seq<char>>,
}

impl View for RouteSubscriber {
    type V = RouteSubscriberView;

    open spec fn view(&self) -> RouteSubscriberView {
        RouteSubscriberView {
            name: self.name@,
            typ: self.typ@,
            ke: self.ke@,
            use_fetching_subscriber: self.use_fetching_subscriber,
            liveliness_ke: self.liveliness_ke@,
            remote_routes: self.remote_routes@.map_values(|s: String| s@),
            local_nodes: self.local_nodes@.map_values(|s: String| s@),
        }
    }
}

/// Keeping everything but `x`.
pub open spec fn keep_not(x: Seq<char>) -> spec_fn(Seq<char>) -> bool {
    |e: Seq<char>| e != x
}

/// The set-like list without every occurrence of `x`, order kept.
pub open spec fn without_str(s: Seq<Seq<char>>, x: Seq<char>) -> Seq<Seq<char>> {
    s.filter(keep_not(x))
}

/// Inserting into a set-like list: appended when absent, unchanged when
/// present.
pub open spec fn insert_str(s: Seq<Seq<char>>, x: Seq<char>) -> Seq<Seq<char>> {
    if s.contains(x) {
        s
    } else {
        s.push(x)
    }
}

/// Keeping everything in which `sub` does not occur.
pub open spec fn keep_not_containing(sub: Seq<char>) -> spec_fn(Seq<char>) -> bool {
    |e: Seq<char>| !crate::text::contains_sub(e, sub)
}

/// The set-like list without every entry holding `sub` as a substring,
/// order kept.
pub open spec fn without_containing(s: Seq<Seq<char>>, sub: Seq<char>) -> Seq<Seq<char>> {
    s.filter(keep_not_containing(sub))
}

/// Inserts `x` when absent.
fn set_insert(v: &mut Vec<String>, x: String)
    ensures
        final(v)@.map_values(|s: String| s@) == insert_str(
            old(v)@.map_values(|s: String| s@),
            x@,
        ),
{
    let ghost s0 = v@.map_values(|s: String| s@);
    let n = v.len();
    let mut i: usize = 0;
    while i < n
        invariant
            i <= n,
            n == v@.len(),
            s0 == v@.map_values(|s: String| s@),
            forall|j: int| 0 <= j < i ==> v@[j]@ != x@,
        decreases n - i,
    {
        if str_eq(v[i].as_str(), x.as_str()) {
            proof {
                assert(s0[i as int] == v@[i as int]@);
                assert(s0.contains(x@));
            }
            return ;
        }
        i += 1;
    }
    proof {
        if s0.contains(x@) {
            let w = choose|w: int| 0 <= w < s0.len() && s0[w] == x@;
            assert(v@[w]@ != x@);
        }
    }
    let ghost v0 = v@;
    v.push(x);
    proof {
        assert(v@.map_values(|s: String| s@) =~= s0.push(x@));
    }
}

/// Drops every occurrence of `x`.
fn set_remove(v: &mut Vec<String>, x: &str)
    ensures
        final(v)@.map_values(|s: String| s@) == without_str(
            old(v)@.map_values(|s: String| s@),
            x@,
        ),
{
    let ghost s0 = v@.map_values(|s: String| s@);
    let n = v.len();
    let mut out: Vec<String> = Vec::new();
    let mut i: usize = 0;
    proof {
        reveal(Seq::filter);
        assert(s0.take(0).filter(keep_not(x@)) =~= Seq::<Seq<char>>::empty());
        assert(out@.map_values(|s: String| s@) =~= Seq::<Seq<char>>::empty());
    }
    while i < n
        invariant
            i <= n,
            n == v@.len(),
            s0 == v@.map_values(|s: String| s@),
            out@.map_values(|s: String| s@) == s0.take(i as int).filter(keep_not(x@)),
        decreases n - i,
    {
        proof {
            reveal(Seq::filter);
            assert(s0.take(i + 1).drop_last() =~= s0.take(i as int));
            assert(s0.take(i + 1).last() == s0[i as int]);
            assert(s0[i as int] == v@[i as int]@);
        }
        let keep = !str_eq(v[i].as_str(), x);
        if keep {
            let ghost out_pre = out@;
            out.push(v[i].clone());
            proof {
                assert(out@.map_values(|s: String| s@) =~= out_pre.map_values(
                    |s: String| s@,
                ).push(s0[i as int]));
                assert(s0.take(i + 1).filter(keep_not(x@)) =~= s0.take(i as int).filter(
                    keep_not(x@),
                ).push(s0[i as int]));
            }
        } else {
            proof {
                assert(s0.take(i + 1).filter(keep_not(x@)) =~= s0.take(i as int).filter(
                    keep_not(x@),
                ));
            }
        }
        i += 1;
    }
    proof {
        reveal(Seq::filter);
        assert(s0.take(n as int) =~= s0);
    }
    *v = out;
}

/// Drops every entry holding `sub` as a substring.
fn set_remove_containing(v: &mut Vec<String>, sub: &str)
    ensures
        final(v)@.map_values(|s: String| s@) == without_containing(
            old(v)@.map_values(|s: String| s@),
            sub@,
        ),
{
    let ghost s0 = v@.map_values(|s: String| s@);
    let n = v.len();
    let mut out: Vec<String> = Vec::new();
    let mut i: usize = 0;
    proof {
        reveal(Seq::filter);
        assert(s0.take(0).filter(keep_not_containing(sub@)) =~= Seq::<Seq<char>>::empty());
        assert(out@.map_values(|s: String| s@) =~= Seq::<Seq<char>>::empty());
    }
    while i < n
        invariant
            i <= n,
            n == v@.len(),
            s0 == v@.map_values(|s: String| s@),
            out@.map_values(|s: String| s@) == s0.take(i as int).filter(
                keep_not_containing(sub@),
            ),
        decreases n - i,
    {
        proof {
            reveal(Seq::filter);
            assert(s0.take(i + 1).drop_last() =~= s0.take(i as int));
            assert(s0.take(i + 1).last() == s0[i as int]);
            assert(s0[i as int] == v@[i as int]@);
        }
        let keep = !crate::text::contains_str(v[i].as_str(), sub);
        if keep {
            let ghost out_pre = out@;
            out.push(v[i].clone());
            proof {
                assert(out@.map_values(|s: String| s@) =~= out_pre.map_values(
                    |s: String| s@,
                ).push(s0[i as int]));
                assert(s0.take(i + 1).filter(keep_not_containing(sub@)) =~= s0.take(
                    i as int,
                ).filter(keep_not_containing(sub@)).push(s0[i as int]));
            }
        } else {
            proof {
                assert(s0.take(i + 1).filter(keep_not_containing(sub@)) =~= s0.take(
                    i as int,
                ).filter(keep_not_containing(sub@)));
            }
        }
        i += 1;
    }
    proof {
        reveal(Seq::filter);
        assert(s0.take(n as int) =~= s0);
    }
    *v = out;
}

/// Whether the list holds `x`.
fn set_contains(v: &Vec<String>, x: &str) -> (r: bool)
    ensures
        r == v@.map_values(|s: String| s@).contains(x@),
{
    let ghost s0 = v@.map_values(|s: String| s@);
    let n = v.len();
    let mut i: usize = 0;
    while i < n
        invariant
            i <= n,
            n == v@.len(),
            s0 == v@.map_values(|s: String| s@),
            forall|j: int| 0 <= j < i ==> v@[j]@ != x@,
        decreases n - i,
    {
        if str_eq(v[i].as_str(), x) {
            proof {
                assert(s0[i as int] == x@);
            }
            return true;
        }
        i += 1;
    }
    proof {
        if s0.contains(x@) {
            let w = choose|w: int| 0 <= w < s0.len() && s0[w] == x@;
            assert(v@[w]@ != x@);
        }
    }
    false
}

impl RoutePublisher {
    /// Notes a remote peer's matching route.
    pub fn add_remote_route(&mut self, admin_ke: String)
        ensures
            final(self)@ == (RoutePublisherView {
                remote_routes: insert_str(old(self)@.remote_routes, admin_ke@),
                ..old(self)@
            }),
    {
        set_insert(&mut self.remote_routes, admin_ke);
        proof {
            assert(self@ =~= (RoutePublisherView {
                remote_routes: self@.remote_routes,
                ..old(self)@
            }));
        }
    }

    /// Forgets a remote peer's route.
    pub fn remove_remote_route(&mut self, admin_ke: &str)
        ensures
            final(self)@ == (RoutePublisherView {
                remote_routes: without_str(old(self)@.remote_routes, admin_ke@),
                ..old(self)@
            }),
    {
        set_remove(&mut self.remote_routes, admin_ke);
        proof {
            assert(self@ =~= (RoutePublisherView {
                remote_routes: self@.remote_routes,
                ..old(self)@
            }));
        }
    }

    /// Forgets every remote peer route whose admin key holds `sub_ke`,
    /// as when a whole peer bridge disappears.
    pub fn remove_remote_routes(&mut self, sub_ke: &str)
        ensures
            final(self)@ == (RoutePublisherView {
                remote_routes: without_containing(old(self)@.remote_routes, sub_ke@),
                ..old(self)@
            }),
    {
        set_remove_containing(&mut self.remote_routes, sub_ke);
        proof {
            assert(self@ =~= (RoutePublisherView {
                remote_routes: self@.remote_routes,
                ..old(self)@
            }));
        }
    }

    /// Whether any remote peer still expects this route.
    pub fn is_serving_remote_route(&self) -> (r: bool)
        ensures
            r == (self@.remote_routes.len() != 0),
    {
        self.remote_routes.len() != 0
    }

    /// Notes a local node served by this route.
    pub fn add_local_node(&mut self, node: String)
        ensures
            final(self)@ == (RoutePublisherView {
                local_nodes: insert_str(old(self)@.local_nodes, node@),
                ..old(self)@
            }),
    {
        set_insert(&mut self.local_nodes, node);
        proof {
            assert(self@ =~= (RoutePublisherView { local_nodes: self@.local_nodes, ..old(self)@ }));
        }
    }

    /// Forgets a local node.
    pub fn remove_local_node(&mut self, node: &str)
        ensures
            final(self)@ == (RoutePublisherView {
                local_nodes: without_str(old(self)@.local_nodes, node@),
                ..old(self)@
            }),
    {
        set_remove(&mut self.local_nodes, node);
        proof {
            assert(self@ =~= (RoutePublisherView { local_nodes: self@.local_nodes, ..old(self)@ }));
        }
    }

    /// Whether any local node is still served.
    pub fn is_serving_local_node(&self) -> (r: bool)
        ensures
            r == (self@.local_nodes.len() != 0),
    {
        self.local_nodes.len() != 0
    }

    /// A route serving nobody: no local node and no remote peer.
    pub fn is_unused(&self) -> (r: bool)
        ensures
            r == (self@.local_nodes.len() == 0 && self@.remote_routes.len() == 0),
    {
        !self.is_serving_local_node() && !self.is_serving_remote_route()
    }
}

impl RouteSubscriber {
    /// Notes a remote peer's matching route.
    pub fn add_remote_route(&mut self, admin_ke: String)
        ensures
            final(self)@ == (RouteSubscriberView {
                remote_routes: insert_str(old(self)@.remote_routes, admin_ke@),
                ..old(self)@
            }),
    {
        set_insert(&mut self.remote_routes, admin_ke);
        proof {
            assert(self@ =~= (RouteSubscriberView {
                remote_routes: self@.remote_routes,
                ..old(self)@
            }));
        }
    }

    /// Forgets a remote peer's route.
    pub fn remove_remote_route(&mut self, admin_ke: &str)
        ensures
            final(self)@ == (RouteSubscriberView {
                remote_routes: without_str(old(self)@.remote_routes, admin_ke@),
                ..old(self)@
            }),
    {
        set_remove(&mut self.remote_routes, admin_ke);
        proof {
            assert(self@ =~= (RouteSubscriberView {
                remote_routes: self@.remote_routes,
                ..old(self)@
            }));
        }
    }

    /// Forgets every remote peer route whose admin key holds `sub_ke`,
    /// as when a whole peer bridge disappears.
    pub fn remove_remote_routes(&mut self, sub_ke: &str)
        ensures
            final(self)@ == (RouteSubscriberView {
                remote_routes: without_containing(old(self)@.remote_routes, sub_ke@),
                ..old(self)@
            }),
    {
        set_remove_containing(&mut self.remote_routes, sub_ke);
        proof {
            assert(self@ =~= (RouteSubscriberView {
                remote_routes: self@.remote_routes,
                ..old(self)@
            }));
        }
    }

    /// Whether any remote peer still expects this route.
    pub fn is_serving_remote_route(&self) -> (r: bool)
        ensures
            r == (self@.remote_routes.len() != 0),
    {
        self.remote_routes.len() != 0
    }

    /// Notes a local node served by this route.
    pub fn add_local_node(&mut self, node: String)
        ensures
            final(self)@ == (RouteSubscriberView {
                local_nodes: insert_str(old(self)@.local_nodes, node@),
                ..old(self)@
            }),
    {
        set_insert(&mut self.local_nodes, node);
        proof {
            assert(self@ =~= (RouteSubscriberView {
                local_nodes: self@.local_nodes,
                ..old(self)@
            }));
        }
    }

    /// Forgets a local node.
    pub fn remove_local_node(&mut self, node: &str)
        ensures
            final(self)@ == (RouteSubscriberView {
                local_nodes: without_str(old(self)@.local_nodes, node@),
                ..old(self)@
            }),
    {
        set_remove(&mut self.local_nodes, node);
        proof {
            assert(self@ =~= (RouteSubscriberView {
                local_nodes: self@.local_nodes,
                ..old(self)@
            }));
        }
    }

    /// Whether any local node is still served.
    pub fn is_serving_local_node(&self) -> (r: bool)
        ensures
            r == (self@.local_nodes.len() != 0),
    {
        self.local_nodes.len() != 0
    }

    /// A route serving nobody: no local node and no remote peer.
    pub fn is_unused(&self) -> (r: bool)
        ensures
            r == (self@.local_nodes.len() == 0 && self@.remote_routes.len() == 0),
    {
        !self.is_serving_local_node() && !self.is_serving_remote_route()
    }
}

/// Plans the overlay and native ends of a publisher route for `writer`: the
/// key expression is the interface name, the congestion policy blocks only
/// for a reliable writer under the blocking configuration, and a
/// transient-local writer gets a publication cache sized by its history.
pub fn plan_publisher_route(config: &Config, name: &str, writer: &DdsEntity) -> (r:
    PublisherRoutePlan)
    ensures
        r.ke@ == name@,
        r.topic_name@ == writer.topic_name@,
        r.typ_name@ == writer.typ_name@,
        r.keyless == writer.keyless,
        r.cache_reply_origin is Remote,
        crate::qos::reader_qos_adapted(writer.qos, r.reader_qos),
        r.use_publication_cache == (writer.qos.durability matches Some(d) && d.kind
            == crate::qos::DurabilityKind::TransientLocal),
        r.cache_history == cache_history_of(
            writer.qos.history,
            writer.qos.durability_service,
            writer.keyless,
        ),
        r.congestion == if config.reliable_routes_blocking && (match writer.qos.reliability {
            Some(rel) => rel.kind == ReliabilityKind::Reliable,
            None => true,
        }) {
            CongestionMode::Block
        } else {
            CongestionMode::Drop
        },
        r.reader_qos.reliability == (match writer.qos.reliability {
            Some(rel) => Some(rel),
            None => Some(
                crate::qos::Reliability {
                    kind: ReliabilityKind::BestEffort,
                    max_blocking_time: crate::qos::DDS_100MS_DURATION,
                },
            ),
        }),
        r.reader_qos.durability == writer.qos.durability,
        r.reader_qos.history == writer.qos.history,
        crate::qos::partition_view(r.reader_qos.partition) == crate::qos::partition_view(
            writer.qos.partition,
        ),
        r.reader_qos.durability_service.is_none(),
        r.reader_qos.ignore_local.is_none(),
        r.reader_qos.ownership_strength.is_none(),
        r.reader_qos.transport_priority.is_none(),
        r.reader_qos.lifespan.is_none(),
        r.reader_qos.writer_data_lifecycle.is_none(),
        r.reader_qos.writer_batching.is_none(),
        r.reader_qos.properties.is_none(),
        r.reader_qos.entity_name.is_none(),
{
    let reader_qos = adapt_writer_qos_for_reader(&writer.qos);
    let use_publication_cache = is_transient_local(&reader_qos);
    let cache_history = publication_cache_history(&writer.qos, writer.keyless);
    let congestion = if config.reliable_routes_blocking && is_writer_reliable(
        &writer.qos.reliability,
    ) {
        CongestionMode::Block
    } else {
        CongestionMode::Drop
    };
    PublisherRoutePlan {
        ke: name.to_owned(),
        topic_name: writer.topic_name.clone(),
        typ_name: writer.typ_name.clone(),
        keyless: writer.keyless,
        use_publication_cache,
        cache_history,
        cache_reply_origin: OriginFilter::Remote,
        congestion,
        reader_qos,
    }
}

/// A tagged reference from the route admin space into the route tables.
pub enum RouteRef {
    PublisherRoute(String),
    SubscriberRoute(String),
}

/// Ghost image of a route reference.
#[verifier::ext_equal]
pub enum RouteRefView {
    PublisherRoute(Seq<char>),
    SubscriberRoute(Seq<char>),
}

impl View for RouteRef {
    type V = RouteRefView;

    open spec fn view(&self) -> RouteRefView {
        match self {
            RouteRef::PublisherRoute(n) => RouteRefView::PublisherRoute(n@),
            RouteRef::SubscriberRoute(n) => RouteRefView::SubscriberRoute(n@),
        }
    }
}

/// One route admin entry.
pub struct RouteAdminEntry {
    pub key: String,
    pub route: RouteRef,
}

/// Ghost image of a route admin entry.
#[verifier::ext_equal]
pub struct RouteAdminEntryView {
    pub key: Seq<char>,
    pub route: RouteRefView,
}

impl View for RouteAdminEntry {
    type V = RouteAdminEntryView;

    open spec fn view(&self) -> RouteAdminEntryView {
        RouteAdminEntryView { key: self.key@, route: self.route@ }
    }
}

/// Ghost image of the route admin space.
pub open spec fn route_admin_view(s: Seq<RouteAdminEntry>) -> Seq<RouteAdminEntryView> {
    s.map_values(|a: RouteAdminEntry| a@)
}

/// The admin key of a publisher route.
pub open spec fn ke_route_pub(name: Seq<char>) -> Seq<char> {
    "route/topic/pub/"@ + name
}

/// The admin key of a subscriber route.
pub open spec fn ke_route_sub(name: Seq<char>) -> Seq<char> {
    "route/topic/sub/"@ + name
}

/// The publisher route of the given interface name.
pub open spec fn by_proute(name: Seq<char>) -> spec_fn(RoutePublisherView) -> bool {
    |r: RoutePublisherView| r.name == name
}

/// The subscriber route of the given interface name.
pub open spec fn by_sroute(name: Seq<char>) -> spec_fn(RouteSubscriberView) -> bool {
    |r: RouteSubscriberView| r.name == name
}

/// The route admin entry under `k`.
pub open spec fn by_route_key(k: Seq<char>) -> spec_fn(RouteAdminEntryView) -> bool {
    |a: RouteAdminEntryView| a.key == k
}

/// Ghost images of the route tables.
pub open spec fn proutes_view(s: Seq<RoutePublisher>) -> Seq<RoutePublisherView> {
    s.map_values(|r: RoutePublisher| r@)
}

pub open spec fn sroutes_view(s: Seq<RouteSubscriber>) -> Seq<RouteSubscriberView> {
    s.map_values(|r: RouteSubscriber| r@)
}

/// What the endpoint layer is asked to do after an event.
pub enum RouteCommand {
    /// Nothing to build or tear down.
    Idle,
    /// Build the native reader and overlay publisher of a new publisher
    /// route, then confirm it.
    CreatePublisher { node: String, name: String, typ: String, plan: PublisherRoutePlan },
    /// Build the native writer and overlay subscriber of a new subscriber
    /// route, then confirm it.
    CreateSubscriber { node: String, name: String, typ: String, plan: SubscriberRoutePlan },
    /// Tear down the endpoints of a dropped publisher route.
    TearDownPublisher { name: String },
    /// Tear down the endpoints of a dropped subscriber route.
    TearDownSubscriber { name: String },
}

/// The route tables and the admin index of the routes, fed by discovery
/// events; route endpoints are built outside and confirmed back in.
pub struct RoutesMgr {
    pub plugin_id: String,
    pub config: Config,
    pub routes_publishers: Vec<RoutePublisher>,
    pub routes_subscribers: Vec<RouteSubscriber>,
    pub admin_space: Vec<RouteAdminEntry>,
}

/// The publisher table and admin space after `node` stops publishing
/// `name`: the node leaves the route's reference set, and the route is
/// dropped exactly when no local node and no remote peer is left.
pub open spec fn unpub_spec(
    routes: Seq<RoutePublisherView>,
    admin: Seq<RouteAdminEntryView>,
    node: Seq<char>,
    name: Seq<char>,
) -> (Seq<RoutePublisherView>, Seq<RouteAdminEntryView>, bool) {
    let i = first_where(routes, by_proute(name));
    if i == routes.len() {
        (routes, admin, false)
    } else {
        let shrunk = RoutePublisherView {
            local_nodes: without_str(routes[i].local_nodes, node),
            ..routes[i]
        };
        if shrunk.local_nodes.len() == 0 && shrunk.remote_routes.len() == 0 {
            (routes.remove(i), route_admin_remove(admin, ke_route_pub(name)), true)
        } else {
            (routes.update(i, shrunk), admin, false)
        }
    }
}

/// The subscriber table and admin space after `node` stops subscribing.
pub open spec fn unsub_spec(
    routes: Seq<RouteSubscriberView>,
    admin: Seq<RouteAdminEntryView>,
    node: Seq<char>,
    name: Seq<char>,
) -> (Seq<RouteSubscriberView>, Seq<RouteAdminEntryView>, bool) {
    let i = first_where(routes, by_sroute(name));
    if i == routes.len() {
        (routes, admin, false)
    } else {
        let shrunk = RouteSubscriberView {
            local_nodes: without_str(routes[i].local_nodes, node),
            ..routes[i]
        };
        if shrunk.local_nodes.len() == 0 && shrunk.remote_routes.len() == 0 {
            (routes.remove(i), route_admin_remove(admin, ke_route_sub(name)), true)
        } else {
            (routes.update(i, shrunk), admin, false)
        }
    }
}

/// The route admin space without the entry under `k`, when there is one.
pub open spec fn route_admin_remove(
    s: Seq<RouteAdminEntryView>,
    k: Seq<char>,
) -> Seq<RouteAdminEntryView> {
    let i = first_where(s, by_route_key(k));
    if i == s.len() {
        s
    } else {
        s.remove(i)
    }
}

fn find_proute(v: &Vec<RoutePublisher>, name: &str) -> (i: usize)
    ensures
        i as int == first_where(proutes_view(v@), by_proute(name@)),
        i <= v@.len(),
        i < v@.len() ==> v@[i as int]@.name == name@,
{
    let n = v.len();
    let mut i: usize = 0;
    while i < n
        invariant
            i <= n,
            n == v@.len(),
            forall|j: int| 0 <= j < i ==> v@[j]@.name != name@,
        decreases n - i,
    {
        if str_eq(v[i].name.as_str(), name) {
            proof {
                assert(forall|j: int| 0 <= j < n ==> proutes_view(v@)[j] == v@[j]@);
                lemma_first_where_is(proutes_view(v@), by_proute(name@), i as int);
            }
            return i;
        }
        i += 1;
    }
    proof {
        assert(forall|j: int| 0 <= j < n ==> proutes_view(v@)[j] == v@[j]@);
        lemma_first_where_none(proutes_view(v@), by_proute(name@));
    }
    n
}

fn find_sroute(v: &Vec<RouteSubscriber>, name: &str) -> (i: usize)
    ensures
        i as int == first_where(sroutes_view(v@), by_sroute(name@)),
        i <= v@.len(),
        i < v@.len() ==> v@[i as int]@.name == name@,
{
    let n = v.len();
    let mut i: usize = 0;
    while i < n
        invariant
            i <= n,
            n == v@.len(),
            forall|j: int| 0 <= j < i ==> v@[j]@.name != name@,
        decreases n - i,
    {
        if str_eq(v[i].name.as_str(), name) {
            proof {
                assert(forall|j: int| 0 <= j < n ==> sroutes_view(v@)[j] == v@[j]@);
                lemma_first_where_is(sroutes_view(v@), by_sroute(name@), i as int);
            }
            return i;
        }
        i += 1;
    }
    proof {
        assert(forall|j: int| 0 <= j < n ==> sroutes_view(v@)[j] == v@[j]@);
        lemma_first_where_none(sroutes_view(v@), by_sroute(name@));
    }
    n
}

fn find_route_admin(v: &Vec<RouteAdminEntry>, k: &str) -> (i: usize)
    ensures
        i as int == first_where(route_admin_view(v@), by_route_key(k@)),
        i <= v@.len(),
{
    let n = v.len();
    let mut i: usize = 0;
    while i < n
        invariant
            i <= n,
            n == v@.len(),
            forall|j: int| 0 <= j < i ==> v@[j]@.key != k@,
        decreases n - i,
    {
        if str_eq(v[i].key.as_str(), k) {
            proof {
                assert(forall|j: int| 0 <= j < n ==> route_admin_view(v@)[j] == v@[j]@);
                lemma_first_where_is(route_admin_view(v@), by_route_key(k@), i as int);
            }
            return i;
        }
        i += 1;
    }
    proof {
        assert(forall|j: int| 0 <= j < n ==> route_admin_view(v@)[j] == v@[j]@);
        lemma_first_where_none(route_admin_view(v@), by_route_key(k@));
    }
    n
}

/// Builds the admin key of a publisher route.
fn make_ke_route_pub(name: &str) -> (r: String)
    ensures
        r@ == ke_route_pub(name@),
{
    let mut out = String::new();
    out.append("route/topic/pub/");
    out.append(name);
    proof {
        assert(out@ =~= ke_route_pub(name@));
    }
    out
}

/// Builds the admin key of a subscriber route.
fn make_ke_route_sub(name: &str) -> (r: String)
    ensures
        r@ == ke_route_sub(name@),
{
    let mut out = String::new();
    out.append("route/topic/sub/");
    out.append(name);
    proof {
        assert(out@ =~= ke_route_sub(name@));
    }
    out
}

impl RoutesMgr {
    /// A fresh manager with empty tables.
    pub fn create(plugin_id: String, config: Config) -> (r: RoutesMgr)
        ensures
            r.plugin_id@ == plugin_id@,
            proutes_view(r.routes_publishers@).len() == 0,
            sroutes_view(r.routes_subscribers@).len() == 0,
            route_admin_view(r.admin_space@).len() == 0,
    {
        let r = RoutesMgr {
            plugin_id,
            config,
            routes_publishers: Vec::new(),
            routes_subscribers: Vec::new(),
            admin_space: Vec::new(),
        };
        proof {
            assert(proutes_view(r.routes_publishers@).len() == 0);
            assert(sroutes_view(r.routes_subscribers@).len() == 0);
            assert(route_admin_view(r.admin_space@).len() == 0);
        }
        r
    }

    /// Reacts to one discovery event. A topic publisher or subscriber
    /// appearing on a known route joins its reference set; on an unknown
    /// one, the endpoint is looked up and a creation command returned,
    /// the table untouched until the caller confirms. An interface going
    /// away leaves the reference set, and the route is dropped exactly
    /// when no local node and no remote peer is left. Missing endpoint
    /// data fails with a description and no change.
    #[verifier::loop_isolation(false)]
    pub fn update(&mut self, evt: &ROS2DiscoveryEvent, entities: &DiscoveredEntities) -> (r:
        Result<RouteCommand, String>)
        ensures
            final(self).plugin_id@ == old(self).plugin_id@,
            match evt@ {
                crate::node_info::EventView::DiscoveredTopicPub(node, iface) => {
                    let i = first_where(
                        proutes_view(old(self).routes_publishers@),
                        by_proute(iface.name),
                    );
                    if i < proutes_view(old(self).routes_publishers@).len() {
                        &&& proutes_view(final(self).routes_publishers@) == proutes_view(
                            old(self).routes_publishers@,
                        ).update(
                            i,
                            RoutePublisherView {
                                local_nodes: insert_str(
                                    proutes_view(old(self).routes_publishers@)[i].local_nodes,
                                    node,
                                ),
                                ..proutes_view(old(self).routes_publishers@)[i]
                            },
                        )
                        &&& route_admin_view(final(self).admin_space@) == route_admin_view(
                            old(self).admin_space@,
                        )
                        &&& r matches Ok(c) && c is Idle
                    } else {
                        let w = first_where(
                            entities.writers@,
                            crate::entities::by_entity_key(iface.writer),
                        );
                        &&& proutes_view(final(self).routes_publishers@) == proutes_view(
                            old(self).routes_publishers@,
                        )
                        &&& route_admin_view(final(self).admin_space@) == route_admin_view(
                            old(self).admin_space@,
                        )
                        &&& if w < entities.writers@.len() {
                            r matches Ok(c) && c matches RouteCommand::CreatePublisher {
                                node: n,
                                name,
                                typ,
                                plan,
                            } && n@ == node && name@ == iface.name && typ@ == iface.typ
                                && plan.ke@ == iface.name && plan.topic_name@
                                == entities.writers@[w].topic_name@ && plan.typ_name@
                                == entities.writers@[w].typ_name@ && plan.keyless
                                == entities.writers@[w].keyless && plan.cache_reply_origin
                                is Remote && crate::qos::reader_qos_adapted(
                                entities.writers@[w].qos,
                                plan.reader_qos,
                            ) && plan.use_publication_cache == (
                            entities.writers@[w].qos.durability matches Some(d) && d.kind
                                == crate::qos::DurabilityKind::TransientLocal)
                                && plan.cache_history == cache_history_of(
                                entities.writers@[w].qos.history,
                                entities.writers@[w].qos.durability_service,
                                entities.writers@[w].keyless,
                            ) && plan.congestion == if old(
                                self,
                            ).config.reliable_routes_blocking && (match entities.writers@[
                            w].qos.reliability {
                                Some(rel) => rel.kind == ReliabilityKind::Reliable,
                                None => true,
                            }) {
                                CongestionMode::Block
                            } else {
                                CongestionMode::Drop
                            }
                        } else {
                            r is Err
                        }
                    }
                },
                crate::node_info::EventView::UndiscoveredTopicPub(node, iface) => {
                    let u = unpub_spec(
                        proutes_view(old(self).routes_publishers@),
                        route_admin_view(old(self).admin_space@),
                        node,
                        iface.name,
                    );
                    &&& proutes_view(final(self).routes_publishers@) == u.0
                    &&& route_admin_view(final(self).admin_space@) == u.1
                    &&& if u.2 {
                        r matches Ok(c) && c matches RouteCommand::TearDownPublisher { name }
                            && name@ == iface.name
                    } else {
                        r matches Ok(c) && c is Idle
                    }
                },
                crate::node_info::EventView::DiscoveredTopicSub(node, iface) => {
                    let i = first_where(
                        sroutes_view(old(self).routes_subscribers@),
                        by_sroute(iface.name),
                    );
                    if i < sroutes_view(old(self).routes_subscribers@).len() {
                        &&& sroutes_view(final(self).routes_subscribers@) == sroutes_view(
                            old(self).routes_subscribers@,
                        ).update(
                            i,
                            RouteSubscriberView {
                                local_nodes: insert_str(
                                    sroutes_view(old(self).routes_subscribers@)[i].local_nodes,
                                    node,
                                ),
                                ..sroutes_view(old(self).routes_subscribers@)[i]
                            },
                        )
                        &&& route_admin_view(final(self).admin_space@) == route_admin_view(
                            old(self).admin_space@,
                        )
                        &&& r matches Ok(c) && c is Idle
                    } else {
                        let w = first_where(
                            entities.readers@,
                            crate::entities::by_entity_key(iface.reader),
                        );
                        &&& sroutes_view(final(self).routes_subscribers@) == sroutes_view(
                            old(self).routes_subscribers@,
                        )
                        &&& route_admin_view(final(self).admin_space@) == route_admin_view(
                            old(self).admin_space@,
                        )
                        &&& if w < entities.readers@.len() {
                            r matches Ok(c) && c matches RouteCommand::CreateSubscriber {
                                node: n,
                                name,
                                typ,
                                plan,
                            } && n@ == node && name@ == iface.name && typ@ == iface.typ
                                && plan.ke@ == iface.name && plan.topic_name@
                                == entities.readers@[w].topic_name@ && plan.typ_name@
                                == entities.readers@[w].typ_name@ && plan.keyless
                                == entities.readers@[w].keyless && plan.sample_origin
                                is Remote && crate::qos::writer_qos_adapted(
                                entities.readers@[w].qos,
                                plan.writer_qos,
                            ) && plan.use_fetching_subscriber == (
                            entities.readers@[w].qos.durability matches Some(d) && d.kind
                                == crate::qos::DurabilityKind::TransientLocal)
                                && plan.queries_timeout_ns == old(
                                self,
                            ).config.queries_timeout_ns && plan.liveliness_ke@
                                == sub_liveliness_ke(
                                old(self).plugin_id@,
                                iface.name,
                                entities.readers@[w].typ_name@,
                                entities.readers@[w].keyless,
                                entities.readers@[w].qos,
                            )
                        } else {
                            r is Err
                        }
                    }
                },
                crate::node_info::EventView::UndiscoveredTopicSub(node, iface) => {
                    let u = unsub_spec(
                        sroutes_view(old(self).routes_subscribers@),
                        route_admin_view(old(self).admin_space@),
                        node,
                        iface.name,
                    );
                    &&& sroutes_view(final(self).routes_subscribers@) == u.0
                    &&& route_admin_view(final(self).admin_space@) == u.1
                    &&& if u.2 {
                        r matches Ok(c) && c matches RouteCommand::TearDownSubscriber { name }
                            && name@ == iface.name
                    } else {
                        r matches Ok(c) && c is Idle
                    }
                },
                _ => {
                    &&& proutes_view(final(self).routes_publishers@) == proutes_view(
                        old(self).routes_publishers@,
                    )
                    &&& sroutes_view(final(self).routes_subscribers@) == sroutes_view(
                        old(self).routes_subscribers@,
                    )
                    &&& route_admin_view(final(self).admin_space@) == route_admin_view(
                        old(self).admin_space@,
                    )
                    &&& r matches Ok(c) && c is Idle
                },
            },
    {
        match evt {
            ROS2DiscoveryEvent::DiscoveredTopicPub(node, iface) => {
                let i = find_proute(&self.routes_publishers, iface.name.as_str());
                let ghost routes0 = proutes_view(self.routes_publishers@);
                if i < self.routes_publishers.len() {
                    let mut route = self.routes_publishers.remove(i);
                    route.add_local_node(node.clone());
                    self.routes_publishers.insert(i, route);
                    proof {
                        assert(proutes_view(self.routes_publishers@) =~= routes0.update(
                            i as int,
                            RoutePublisherView {
                                local_nodes: insert_str(routes0[i as int].local_nodes, node@),
                                ..routes0[i as int]
                            },
                        ));
                    }
                    Ok(RouteCommand::Idle)
                } else {
                    match entities.get_writer(&iface.writer) {
                        Some(writer) => {
                            let plan = plan_publisher_route(
                                &self.config,
                                iface.name.as_str(),
                                writer,
                            );
                            Ok(
                                RouteCommand::CreatePublisher {
                                    node: node.clone(),
                                    name: iface.name.clone(),
                                    typ: iface.typ.clone(),
                                    plan,
                                },
                            )
                        },
                        None => {
                            let mut msg = String::new();
                            msg.append("failed to get endpoint data for Publisher ");
                            msg.append(iface.name.as_str());
                            Err(msg)
                        },
                    }
                }
            },
            ROS2DiscoveryEvent::UndiscoveredTopicPub(node, iface) => {
                let i = find_proute(&self.routes_publishers, iface.name.as_str());
                let ghost routes0 = proutes_view(self.routes_publishers@);
                let ghost admin0 = route_admin_view(self.admin_space@);
                if i < self.routes_publishers.len() {
                    let mut route = self.routes_publishers.remove(i);
                    route.remove_local_node(node.as_str());
                    if route.is_unused() {
                        let key = make_ke_route_pub(iface.name.as_str());
                        let a = find_route_admin(&self.admin_space, key.as_str());
                        if a < self.admin_space.len() {
                            self.admin_space.remove(a);
                        }
                        proof {
                            assert(proutes_view(self.routes_publishers@) =~= routes0.remove(
                                i as int,
                            ));
                            assert(route_admin_view(self.admin_space@) =~= route_admin_remove(
                                admin0,
                                ke_route_pub(iface.name@),
                            ));
                        }
                        Ok(RouteCommand::TearDownPublisher { name: iface.name.clone() })
                    } else {
                        self.routes_publishers.insert(i, route);
                        proof {
                            assert(proutes_view(self.routes_publishers@) =~= routes0.update(
                                i as int,
                                RoutePublisherView {
                                    local_nodes: without_str(
                                        routes0[i as int].local_nodes,
                                        node@,
                                    ),
                                    ..routes0[i as int]
                                },
                            ));
                        }
                        Ok(RouteCommand::Idle)
                    }
                } else {
                    Ok(RouteCommand::Idle)
                }
            },
            ROS2DiscoveryEvent::DiscoveredTopicSub(node, iface) => {
                let i = find_sroute(&self.routes_subscribers, iface.name.as_str());
                let ghost routes0 = sroutes_view(self.routes_subscribers@);
                if i < self.routes_subscribers.len() {
                    let mut route = self.routes_subscribers.remove(i);
                    route.add_local_node(node.clone());
                    self.routes_subscribers.insert(i, route);
                    proof {
                        assert(sroutes_view(self.routes_subscribers@) =~= routes0.update(
                            i as int,
                            RouteSubscriberView {
                                local_nodes: insert_str(routes0[i as int].local_nodes, node@),
                                ..routes0[i as int]
                            },
                        ));
                    }
                    Ok(RouteCommand::Idle)
                } else {
                    match entities.get_reader(&iface.reader) {
                        Some(reader) => {
                            let plan = plan_subscriber_route(
                                &self.config,
                                self.plugin_id.as_str(),
                                iface.name.as_str(),
                                reader,
                            );
                            Ok(
                                RouteCommand::CreateSubscriber {
                                    node: node.clone(),
                                    name: iface.name.clone(),
                                    typ: iface.typ.clone(),
                                    plan,
                                },
                            )
                        },
                        None => {
                            let mut msg = String::new();
                            msg.append("failed to get endpoint data for Subscriber ");
                            msg.append(iface.name.as_str());
                            Err(msg)
                        },
                    }
                }
            },
            ROS2DiscoveryEvent::UndiscoveredTopicSub(node, iface) => {
                let i = find_sroute(&self.routes_subscribers, iface.name.as_str());
                let ghost routes0 = sroutes_view(self.routes_subscribers@);
                let ghost admin0 = route_admin_view(self.admin_space@);
                if i < self.routes_subscribers.len() {
                    let mut route = self.routes_subscribers.remove(i);
                    route.remove_local_node(node.as_str());
                    if route.is_unused() {
                        let key = make_ke_route_sub(iface.name.as_str());
                        let a = find_route_admin(&self.admin_space, key.as_str());
                        if a < self.admin_space.len() {
                            self.admin_space.remove(a);
                        }
                        proof {
                            assert(sroutes_view(self.routes_subscribers@) =~= routes0.remove(
                                i as int,
                            ));
                            assert(route_admin_view(self.admin_space@) =~= route_admin_remove(
                                admin0,
                                ke_route_sub(iface.name@),
                            ));
                        }
                        Ok(RouteCommand::TearDownSubscriber { name: iface.name.clone() })
                    } else {
                        self.routes_subscribers.insert(i, route);
                        proof {
                            assert(sroutes_view(self.routes_subscribers@) =~= routes0.update(
                                i as int,
                                RouteSubscriberView {
                                    local_nodes: without_str(
                                        routes0[i as int].local_nodes,
                                        node@,
                                    ),
                                    ..routes0[i as int]
                                },
                            ));
                        }
                        Ok(RouteCommand::Idle)
                    }
                } else {
                    Ok(RouteCommand::Idle)
                }
            },
            _ => Ok(RouteCommand::Idle),
        }
    }

    /// Confirms a built publisher route: it enters the table serving
    /// `node`, and the admin space indexes it.
    pub fn confirm_publisher_route(
        &mut self,
        name: String,
        typ: String,
        plan: PublisherRoutePlan,
        node: String,
    )
        requires
            first_where(proutes_view(old(self).routes_publishers@), by_proute(name@))
                == proutes_view(old(self).routes_publishers@).len(),
        ensures
            proutes_view(final(self).routes_publishers@) == proutes_view(
                old(self).routes_publishers@,
            ).push(
                RoutePublisherView {
                    name: name@,
                    typ: typ@,
                    ke: plan.ke@,
                    use_publication_cache: plan.use_publication_cache,
                    cache_history: plan.cache_history as int,
                    congestion: plan.congestion,
                    remote_routes: Seq::empty(),
                    local_nodes: seq![node@],
                },
            ),
            route_admin_view(final(self).admin_space@) == route_admin_view(
                old(self).admin_space@,
            ).push(
                RouteAdminEntryView {
                    key: ke_route_pub(name@),
                    route: RouteRefView::PublisherRoute(name@),
                },
            ),
            sroutes_view(final(self).routes_subscribers@) == sroutes_view(
                old(self).routes_subscribers@,
            ),
    {
        let key = make_ke_route_pub(name.as_str());
        self.admin_space.push(
            RouteAdminEntry { key, route: RouteRef::PublisherRoute(name.clone()) },
        );
        let mut local_nodes: Vec<String> = Vec::new();
        local_nodes.push(node);
        let route = RoutePublisher {
            name,
            typ,
            ke: plan.ke,
            use_publication_cache: plan.use_publication_cache,
            cache_history: plan.cache_history,
            congestion: plan.congestion,
            remote_routes: Vec::new(),
            local_nodes,
        };
        let ghost routes0 = proutes_view(self.routes_publishers@);
        let ghost rv = route@;
        self.routes_publishers.push(route);
        proof {
            assert(rv.local_nodes =~= seq![rv.local_nodes[0]]);
            assert(rv.remote_routes =~= Seq::<Seq<char>>::empty());
            assert(proutes_view(self.routes_publishers@) =~= routes0.push(rv));
            assert(route_admin_view(self.admin_space@) =~= route_admin_view(
                old(self).admin_space@,
            ).push(
                RouteAdminEntryView {
                    key: ke_route_pub(rv.name),
                    route: RouteRefView::PublisherRoute(rv.name),
                },
            ));
        }
    }

    /// Confirms a built subscriber route.
    pub fn confirm_subscriber_route(
        &mut self,
        name: String,
        typ: String,
        plan: SubscriberRoutePlan,
        node: String,
    )
        requires
            first_where(sroutes_view(old(self).routes_subscribers@), by_sroute(name@))
                == sroutes_view(old(self).routes_subscribers@).len(),
        ensures
            sroutes_view(final(self).routes_subscribers@) == sroutes_view(
                old(self).routes_subscribers@,
            ).push(
                RouteSubscriberView {
                    name: name@,
                    typ: typ@,
                    ke: plan.ke@,
                    use_fetching_subscriber: plan.use_fetching_subscriber,
                    liveliness_ke: plan.liveliness_ke@,
                    remote_routes: Seq::empty(),
                    local_nodes: seq![node@],
                },
            ),
            route_admin_view(final(self).admin_space@) == route_admin_view(
                old(self).admin_space@,
            ).push(
                RouteAdminEntryView {
                    key: ke_route_sub(name@),
                    route: RouteRefView::SubscriberRoute(name@),
                },
            ),
            proutes_view(final(self).routes_publishers@) == proutes_view(
                old(self).routes_publishers@,
            ),
    {
        let key = make_ke_route_sub(name.as_str());
        self.admin_space.push(
            RouteAdminEntry { key, route: RouteRef::SubscriberRoute(name.clone()) },
        );
        let mut local_nodes: Vec<String> = Vec::new();
        local_nodes.push(node);
        let route = RouteSubscriber {
            name,
            typ,
            ke: plan.ke,
            use_fetching_subscriber: plan.use_fetching_subscriber,
            liveliness_ke: plan.liveliness_ke,
            remote_routes: Vec::new(),
            local_nodes,
        };
        let ghost routes0 = sroutes_view(self.routes_subscribers@);
        let ghost rv = route@;
        self.routes_subscribers.push(route);
        proof {
            assert(rv.local_nodes =~= seq![rv.local_nodes[0]]);
            assert(rv.remote_routes =~= Seq::<Seq<char>>::empty());
            assert(sroutes_view(self.routes_subscribers@) =~= routes0.push(rv));
            assert(route_admin_view(self.admin_space@) =~= route_admin_view(
                old(self).admin_space@,
            ).push(
                RouteAdminEntryView {
                    key: ke_route_sub(rv.name),
                    route: RouteRefView::SubscriberRoute(rv.name),
                },
            ));
        }
    }
}

/// The selector a fetching subscriber queries historical data with: every
/// peer's publication cache under the route's key expression.
pub fn historical_query_selector(ke: &str) -> (r: String)
    ensures
        r@ == "@ros2_pub_cache/*/"@ + ke@,
{
    let mut out = String::new();
    out.append("@ros2_pub_cache/*/");
    out.append(ke);
    proof {
        assert(out@ =~= "@ros2_pub_cache/*/"@ + ke@);
    }
    out
}

/// The liveliness key a subscriber route announces itself on: plugin
/// identity, route key, type and QoS digest.
pub open spec fn sub_liveliness_ke(
    plugin_id: Seq<char>,
    ke: Seq<char>,
    typ: Seq<char>,
    keyless: bool,
    qos: Qos,
) -> Seq<char> {
    "@ros2_lv/"@ + plugin_id + "/sub/"@ + ke + "/"@ + typ + "/"@ + qos_digest_of(keyless, qos)
}

/// Plans the overlay and native ends of a subscriber route for `reader`: a
/// transient-local reader gets a fetching subscriber that replays history,
/// the native writer carries the reader's QoS adapted for a producer, and
/// the route announces itself on a liveliness key carrying the QoS digest.
pub fn plan_subscriber_route(config: &Config, plugin_id: &str, name: &str, reader: &DdsEntity) -> (
    r: SubscriberRoutePlan)
    ensures
        r.ke@ == name@,
        r.topic_name@ == reader.topic_name@,
        r.typ_name@ == reader.typ_name@,
        r.keyless == reader.keyless,
        r.sample_origin is Remote,
        crate::qos::writer_qos_adapted(reader.qos, r.writer_qos),
        r.use_fetching_subscriber == (reader.qos.durability matches Some(d) && d.kind
            == crate::qos::DurabilityKind::TransientLocal),
        r.queries_timeout_ns == config.queries_timeout_ns,
        r.liveliness_ke@ == sub_liveliness_ke(
            plugin_id@,
            name@,
            reader.typ_name@,
            reader.keyless,
            reader.qos,
        ),
{
    let use_fetching_subscriber = is_transient_local(&reader.qos);
    let digest = qos_to_key_expr(reader.keyless, &reader.qos);
    let mut lk = String::new();
    lk.append("@ros2_lv/");
    lk.append(plugin_id);
    lk.append("/sub/");
    lk.append(name);
    lk.append("/");
    lk.append(reader.typ_name.as_str());
    lk.append("/");
    lk.append(digest.as_str());
    proof {
        assert(lk@ =~= sub_liveliness_ke(
            plugin_id@,
            name@,
            reader.typ_name@,
            reader.keyless,
            reader.qos,
        ));
    }
    let writer_qos = crate::qos::adapt_reader_qos_for_writer(&reader.qos);
    SubscriberRoutePlan {
        ke: name.to_owned(),
        topic_name: reader.topic_name.clone(),
        typ_name: reader.typ_name.clone(),
        keyless: reader.keyless,
        writer_qos,
        use_fetching_subscriber,
        sample_origin: OriginFilter::Remote,
        queries_timeout_ns: config.queries_timeout_ns,
        liveliness_ke: lk,
    }
}

/// The route admin entries whose key intersects `sub`, in admin order.
pub open spec fn route_admin_matches(
    admin: Seq<RouteAdminEntryView>,
    sub: Seq<char>,
) -> Seq<RouteAdminEntryView>
    decreases admin.len(),
{
    if admin.len() == 0 {
        Seq::empty()
    } else {
        let head: Seq<RouteAdminEntryView> = if crate::keyexpr::ke_intersects_spec(
            sub,
            admin[0].key,
        ) {
            seq![admin[0]]
        } else {
            Seq::empty()
        };
        head + route_admin_matches(admin.skip(1), sub)
    }
}

/// An entry stands in the matches exactly when it stands in the route admin
/// space and its key intersects the sub-selector.
pub proof fn lemma_route_admin_matches_exact(admin: Seq<RouteAdminEntryView>, sub: Seq<char>)
    ensures
        forall|e: RouteAdminEntryView| #[trigger]
            route_admin_matches(admin, sub).contains(e) ==> admin.contains(e)
                && crate::keyexpr::ke_intersects_spec(sub, e.key),
        forall|e: RouteAdminEntryView| #[trigger]
            admin.contains(e) && crate::keyexpr::ke_intersects_spec(sub, e.key)
                ==> route_admin_matches(admin, sub).contains(e),
    decreases admin.len(),
{
    if admin.len() > 0 {
        lemma_route_admin_matches_exact(admin.skip(1), sub);
        assert forall|e: RouteAdminEntryView|
            route_admin_matches(admin, sub).contains(e) implies admin.contains(e)
            && crate::keyexpr::ke_intersects_spec(sub, e.key) by {
            let m = route_admin_matches(admin, sub);
            let i = choose|i: int| 0 <= i < m.len() && m[i] == e;
            let head: Seq<RouteAdminEntryView> = if crate::keyexpr::ke_intersects_spec(
                sub,
                admin[0].key,
            ) {
                seq![admin[0]]
            } else {
                Seq::empty()
            };
            if i < head.len() {
                assert(e == admin[0]);
                assert(admin.contains(e)) by {
                    assert(admin[0] == e);
                }
            } else {
                assert(route_admin_matches(admin.skip(1), sub)[i - head.len()] == e);
                assert(route_admin_matches(admin.skip(1), sub).contains(e));
                assert(admin.skip(1).contains(e) && crate::keyexpr::ke_intersects_spec(
                    sub,
                    e.key,
                ));
                let j = choose|j: int| 0 <= j < admin.skip(1).len() && admin.skip(1)[j] == e;
                assert(admin[j + 1] == e);
                assert(admin.contains(e)) by {
                    assert(admin[j + 1] == e);
                }
            }
        }
        assert forall|e: RouteAdminEntryView|
            admin.contains(e) && crate::keyexpr::ke_intersects_spec(
                sub,
                e.key,
            ) implies route_admin_matches(admin, sub).contains(e) by {
            let i = choose|i: int| 0 <= i < admin.len() && admin[i] == e;
            let head: Seq<RouteAdminEntryView> = if crate::keyexpr::ke_intersects_spec(
                sub,
                admin[0].key,
            ) {
                seq![admin[0]]
            } else {
                Seq::empty()
            };
            if i == 0 {
                assert(route_admin_matches(admin, sub)[0] == e);
            } else {
                assert(admin.skip(1)[i - 1] == e);
                assert(admin.skip(1).contains(e));
                let j = choose|j: int|
                    0 <= j < route_admin_matches(admin.skip(1), sub).len()
                        && route_admin_matches(admin.skip(1), sub)[j] == e;
                assert(route_admin_matches(admin, sub)[head.len() + j] == e);
            }
        }
    }
}

/// What a route admin query replies: the selector is stripped of the admin
/// prefix; a wild remainder is matched against every route admin key by key
/// intersection, a plain one looked up directly; a selector outside the
/// prefix gets no reply.
pub open spec fn route_admin_query_spec(
    admin: Seq<RouteAdminEntryView>,
    selector: Seq<char>,
    prefix: Seq<char>,
) -> Seq<RouteAdminEntryView> {
    if !crate::text::has_prefix(selector, prefix) {
        Seq::empty()
    } else {
        let sub = selector.skip(prefix.len() as int);
        if sub.contains('*') {
            route_admin_matches(admin, sub)
        } else {
            let i = first_where(admin, by_route_key(sub));
            if i < admin.len() {
                seq![admin[i]]
            } else {
                Seq::empty()
            }
        }
    }
}

impl RouteRef {
    /// An identical copy.
    pub fn duplicate(&self) -> (r: RouteRef)
        ensures
            r@ == self@,
    {
        match self {
            RouteRef::PublisherRoute(n) => RouteRef::PublisherRoute(n.clone()),
            RouteRef::SubscriberRoute(n) => RouteRef::SubscriberRoute(n.clone()),
        }
    }
}

impl RoutesMgr {
    /// Answers an admin query over the route admin space: the entries to
    /// reply for, in admin order. The caller resolves each reference
    /// against the route tables and renders the reply.
    #[verifier::loop_isolation(false)]
    pub fn treat_admin_query(&self, selector: &str, admin_prefix: &str) -> (r: Vec<
        RouteAdminEntry,
    >)
        ensures
            route_admin_view(r@) == route_admin_query_spec(
                route_admin_view(self.admin_space@),
                selector@,
                admin_prefix@,
            ),
    {
        let ghost a0 = route_admin_view(self.admin_space@);
        let mut out: Vec<RouteAdminEntry> = Vec::new();
        if !crate::text::starts_with(selector, admin_prefix) {
            proof {
                assert(route_admin_view(out@) =~= Seq::<RouteAdminEntryView>::empty());
            }
            return out;
        }
        let sub = selector.substring_char(admin_prefix.unicode_len(), selector.unicode_len());
        proof {
            assert(sub@ =~= selector@.skip(admin_prefix@.len() as int));
        }
        if crate::text::contains_char(sub, '*') {
            let n = self.admin_space.len();
            let mut i: usize = 0;
            proof {
                assert(a0.skip(0) =~= a0);
                assert(route_admin_view(out@) + route_admin_matches(a0, sub@)
                    =~= route_admin_matches(a0, sub@));
            }
            while i < n
                invariant
                    i <= n,
                    n == self.admin_space@.len(),
                    route_admin_matches(a0, sub@) == route_admin_view(out@)
                        + route_admin_matches(a0.skip(i as int), sub@),
                decreases n - i,
            {
                let ghost rest = a0.skip(i as int);
                proof {
                    assert(rest[0] == a0[i as int]);
                    assert(rest.skip(1) =~= a0.skip(i as int + 1));
                    assert(a0[i as int] == self.admin_space@[i as int]@);
                }
                if crate::keyexpr::ke_intersects(sub, self.admin_space[i].key.as_str()) {
                    let ghost out_pre = out@;
                    out.push(
                        RouteAdminEntry {
                            key: self.admin_space[i].key.clone(),
                            route: self.admin_space[i].route.duplicate(),
                        },
                    );
                    proof {
                        assert(route_admin_view(out@) =~= route_admin_view(out_pre).push(
                            a0[i as int],
                        ));
                        assert(route_admin_view(out_pre) + (seq![rest[0]]
                            + route_admin_matches(rest.skip(1), sub@)) =~= route_admin_view(
                            out@,
                        ) + route_admin_matches(rest.skip(1), sub@));
                    }
                } else {
                    proof {
                        assert(route_admin_view(out@) + (Seq::<RouteAdminEntryView>::empty()
                            + route_admin_matches(rest.skip(1), sub@)) =~= route_admin_view(
                            out@,
                        ) + route_admin_matches(rest.skip(1), sub@));
                    }
                }
                i += 1;
            }
            proof {
                assert(route_admin_matches(a0.skip(n as int), sub@) =~= Seq::<
                    RouteAdminEntryView,
                >::empty());
                assert(route_admin_view(out@) + Seq::<RouteAdminEntryView>::empty()
                    =~= route_admin_view(out@));
            }
        } else {
            let i = find_route_admin(&self.admin_space, sub);
            if i < self.admin_space.len() {
                proof {
                    lemma_first_where(a0, by_route_key(sub@));
                }
                out.push(
                    RouteAdminEntry {
                        key: self.admin_space[i].key.clone(),
                        route: self.admin_space[i].route.duplicate(),
                    },
                );
                proof {
                    assert(a0[i as int] == self.admin_space@[i as int]@);
                    assert(route_admin_view(out@) =~= seq![a0[i as int]]);
                }
            } else {
                proof {
                    assert(route_admin_view(out@) =~= Seq::<RouteAdminEntryView>::empty());
                }
            }
        }
        out
    }
}

/// What a subscriber route does with one received sample.
pub enum SampleFate {
    /// Hand the payload to the native writer's serialization path.
    Forward,
    /// Log and drop: the payload exceeds the native size bound.
    DropTooLarge,
    /// Log and drop: the native type of the topic is not known.
    DropUnknownType,
}

/// The per-sample forwarding decision of a route: a sample is handed to the
/// native writer exactly when the native type is known and the payload fits
/// the native size bound; a failing sample is dropped and the route itself
/// is untouched.
pub fn sample_forward_decision(payload_len: usize, native_max: usize, type_known: bool) -> (r:
    SampleFate)
    ensures
        r is Forward <==> (type_known && payload_len <= native_max),
        r is DropUnknownType <==> !type_known,
        r is DropTooLarge <==> (type_known && payload_len > native_max),
{
    if !type_known {
        SampleFate::DropUnknownType
    } else if payload_len > native_max {
        SampleFate::DropTooLarge
    } else {
        SampleFate::Forward
    }
}

} // verus!
