//! QoS digest round trip, QoS adaptation, route planning and reference
//! counting, the allow/deny policy and the admin plane.

use ros2_bridge::config::{anchor_pattern, anchor_patterns, compile_regex, event_allowed,
    Allowance, Config, ROS2InterfacesRegex};
use ros2_bridge::endpoints::{DdsEntity, DdsParticipant};
use ros2_bridge::entities::DiscoveredEntities;
use ros2_bridge::gid::Gid;
use ros2_bridge::node_info::{ROS2DiscoveryEvent, TopicPub, TopicSub};
use ros2_bridge::qos::{adapt_reader_qos_for_writer, adapt_writer_qos_for_reader,
    key_expr_to_qos, qos_to_key_expr, Durability, DurabilityKind, DurabilityService, History,
    HistoryKind, IgnoreLocalKind, Qos, Reliability, ReliabilityKind, DDS_100MS_DURATION,
    DDS_LENGTH_UNLIMITED};
use ros2_bridge::routes_mgr::{plan_publisher_route, plan_subscriber_route,
    sample_forward_decision, CongestionMode, RouteCommand, RoutesMgr, SampleFate};

fn writer_entity(key: u128, topic: &str, typ: &str, keyless: bool, qos: Qos) -> DdsEntity {
    DdsEntity {
        key: Gid::new(key),
        participant_key: Gid::new(1),
        topic_name: topic.to_string(),
        typ_name: typ.to_string(),
        keyless,
        qos,
    }
}

#[test]
fn test_qos_key_expr() {
    let mut q = Qos::default();
    assert_eq!(qos_to_key_expr(true, &q), ":::");
    assert_eq!(key_expr_to_qos(&qos_to_key_expr(true, &q)).map(|(k, p)| (k, p.reliability, p.durability, p.history)),
        Ok((true, None, None, None)));
    assert_eq!(qos_to_key_expr(false, &q), "K:::");
    assert_eq!(key_expr_to_qos(&qos_to_key_expr(false, &q)).map(|(k, p)| (k, p.reliability, p.durability, p.history)),
        Ok((false, None, None, None)));

    q.reliability = Some(Reliability { kind: ReliabilityKind::Reliable, max_blocking_time: DDS_100MS_DURATION });
    assert_eq!(qos_to_key_expr(true, &q), format!(":{}::", ReliabilityKind::Reliable.value()));
    assert_eq!(key_expr_to_qos(&qos_to_key_expr(true, &q)).map(|(k, p)| (k, p.reliability, p.durability, p.history)),
        Ok((true, q.reliability, None, None)));
    q.reliability = None;

    q.durability = Some(Durability { kind: DurabilityKind::TransientLocal });
    assert_eq!(qos_to_key_expr(true, &q), format!("::{}:", DurabilityKind::TransientLocal.value()));
    assert_eq!(key_expr_to_qos(&qos_to_key_expr(true, &q)).map(|(k, p)| (k, p.reliability, p.durability, p.history)),
        Ok((true, None, q.durability, None)));
    q.durability = None;

    q.history = Some(History { kind: HistoryKind::KeepLast, depth: 3 });
    assert_eq!(qos_to_key_expr(true, &q), format!(":::{},3", HistoryKind::KeepLast.value()));
    assert_eq!(key_expr_to_qos(&qos_to_key_expr(true, &q)).map(|(k, p)| (k, p.reliability, p.durability, p.history)),
        Ok((true, None, None, q.history)));
}

#[test]
fn qos_digest_rejects_malformed_input() {
    assert!(key_expr_to_qos("::").is_err());
    assert!(key_expr_to_qos("::::").is_err());
    assert!(key_expr_to_qos(":x::").is_err());
    assert!(key_expr_to_qos(":9::").is_err());
    assert!(key_expr_to_qos(":::0").is_err());
    assert!(key_expr_to_qos(":::0,x").is_err());
    assert!(key_expr_to_qos(":::0,3,4").is_err());
    assert!(key_expr_to_qos("K:1:1:0,-7").is_ok());
}

#[test]
fn writer_qos_adapted_for_reader() {
    let mut q = Qos::default();
    q.durability_service = Some(DurabilityService {
        service_cleanup_delay: 0,
        history_kind: HistoryKind::KeepLast,
        history_depth: 5,
        max_samples: DDS_LENGTH_UNLIMITED,
        max_instances: 10,
        max_samples_per_instance: DDS_LENGTH_UNLIMITED,
    });
    q.durability = Some(Durability { kind: DurabilityKind::TransientLocal });
    let r = adapt_writer_qos_for_reader(&q);
    assert!(r.durability_service.is_none());
    assert_eq!(r.durability, q.durability);
    assert_eq!(r.reliability, Some(Reliability { kind: ReliabilityKind::BestEffort, max_blocking_time: DDS_100MS_DURATION }));
}

#[test]
fn reader_qos_adapted_for_writer() {
    let mut q = Qos::default();
    q.durability = Some(Durability { kind: DurabilityKind::TransientLocal });
    q.history = Some(History { kind: HistoryKind::KeepLast, depth: 7 });
    let w = adapt_reader_qos_for_writer(&q);
    assert_eq!(w.ignore_local.map(|i| i.kind), Some(IgnoreLocalKind::Participant));
    let ds = w.durability_service.unwrap();
    assert_eq!(ds.history_depth, 7);
    assert_eq!(ds.max_instances, DDS_LENGTH_UNLIMITED);
    assert_eq!(w.reliability, Some(Reliability { kind: ReliabilityKind::BestEffort, max_blocking_time: DDS_100MS_DURATION + 1 }));
}

#[test]
fn transient_local_cache_history() {
    let mut q = Qos::default();
    q.durability = Some(Durability { kind: DurabilityKind::TransientLocal });
    q.history = Some(History { kind: HistoryKind::KeepLast, depth: 5 });
    let cfg = Config::default();
    let w = writer_entity(0x11, "rt/foo", "pkg::dds_::Foo_", true, q.clone());
    let plan = plan_publisher_route(&cfg, "foo", &w);
    assert!(plan.use_publication_cache);
    assert_eq!(plan.cache_history, 5);

    let mut qk = q.clone();
    qk.durability_service = Some(DurabilityService {
        service_cleanup_delay: 0,
        history_kind: HistoryKind::KeepLast,
        history_depth: 5,
        max_samples: DDS_LENGTH_UNLIMITED,
        max_instances: 10,
        max_samples_per_instance: DDS_LENGTH_UNLIMITED,
    });
    let w = writer_entity(0x12, "rt/foo", "pkg::dds_::Foo_", false, qk);
    let plan = plan_publisher_route(&cfg, "foo", &w);
    assert!(plan.use_publication_cache);
    assert_eq!(plan.cache_history, 50);

    let w = writer_entity(0x13, "rt/foo", "pkg::dds_::Foo_", true, Qos::default());
    let plan = plan_publisher_route(&cfg, "foo", &w);
    assert!(!plan.use_publication_cache);
    assert!(matches!(plan.congestion, CongestionMode::Block));
}

#[test]
fn subscriber_route_plan_announces_itself() {
    let mut q = Qos::default();
    q.durability = Some(Durability { kind: DurabilityKind::TransientLocal });
    let cfg = Config::default();
    let r = writer_entity(0x21, "rt/foo", "pkg::dds_::Foo_", true, q);
    let plan = plan_subscriber_route(&cfg, "p1", "foo", &r);
    assert!(plan.use_fetching_subscriber);
    assert_eq!(plan.queries_timeout_ns, 5_000_000_000);
    assert_eq!(plan.liveliness_ke, "@ros2_lv/p1/sub/foo/pkg::dds_::Foo_/::1:");
    assert_eq!(ros2_bridge::routes_mgr::historical_query_selector("foo"), "@ros2_pub_cache/*/foo");
    assert_eq!(plan.topic_name, "rt/foo");
    assert_eq!(plan.typ_name, "pkg::dds_::Foo_");
    assert!(plan.keyless);
    assert!(matches!(plan.sample_origin, ros2_bridge::routes_mgr::OriginFilter::Remote));
    assert_eq!(plan.writer_qos.ignore_local.map(|i| i.kind), Some(IgnoreLocalKind::Participant));
    let ds = plan.writer_qos.durability_service.unwrap();
    assert_eq!(ds.max_instances, DDS_LENGTH_UNLIMITED);
    assert_eq!(
        plan.writer_qos.reliability,
        Some(Reliability { kind: ReliabilityKind::BestEffort, max_blocking_time: DDS_100MS_DURATION + 1 })
    );
}

#[test]
fn remote_route_bulk_removal_matches_substring() {
    let mut reg = DiscoveredEntities::new();
    let r1 = writer_entity(0x21, "rt/foo", "pkg::dds_::Foo_", true, Qos::default());
    assert!(reg.add_reader(r1).is_none());
    let mut mgr = RoutesMgr::create("p1".to_string(), Config::default());
    let ev = ROS2DiscoveryEvent::DiscoveredTopicSub(
        "/a".to_string(),
        TopicSub::create("foo".to_string(), "pkg/Foo".to_string(), Gid::new(0x21)),
    );
    match mgr.update(&ev, &reg) {
        Ok(RouteCommand::CreateSubscriber { node, name, typ, plan }) => {
            mgr.confirm_subscriber_route(name, typ, plan, node);
        }
        _ => panic!("expected a creation command"),
    }
    mgr.routes_subscribers[0].add_remote_route("@ros2_lv/peer1/sub/foo".to_string());
    mgr.routes_subscribers[0].add_remote_route("@ros2_lv/peer2/sub/foo".to_string());
    mgr.routes_subscribers[0].remove_remote_routes("peer1");
    assert_eq!(
        mgr.routes_subscribers[0].remote_routes,
        vec!["@ros2_lv/peer2/sub/foo".to_string()]
    );
    mgr.routes_subscribers[0].remove_remote_routes("peer2");
    assert!(mgr.routes_subscribers[0].remote_routes.is_empty());
}

#[test]
fn route_admin_query_replies_intersecting_keys() {
    let mut reg = DiscoveredEntities::new();
    let w1 = writer_entity(0x11, "rt/foo", "pkg::dds_::Foo_", true, Qos::default());
    assert!(reg.add_writer(w1).is_none());
    let mut mgr = RoutesMgr::create("p1".to_string(), Config::default());
    let ev = ROS2DiscoveryEvent::DiscoveredTopicPub(
        "/a".to_string(),
        TopicPub::create("foo".to_string(), "pkg/Foo".to_string(), Gid::new(0x11)),
    );
    match mgr.update(&ev, &reg) {
        Ok(RouteCommand::CreatePublisher { node, name, typ, plan }) => {
            mgr.confirm_publisher_route(name, typ, plan, node);
        }
        _ => panic!("expected a creation command"),
    }
    let prefix = "@ros2/p1/";
    let hits = mgr.treat_admin_query("@ros2/p1/route/**", prefix);
    assert_eq!(hits.len(), 1);
    assert_eq!(hits[0].key, "route/topic/pub/foo");
    let hits = mgr.treat_admin_query("@ros2/p1/route/topic/pub/foo", prefix);
    assert_eq!(hits.len(), 1);
    let hits = mgr.treat_admin_query("@ros2/p1/route/topic/sub/**", prefix);
    assert!(hits.is_empty());
    let hits = mgr.treat_admin_query("elsewhere/route/**", prefix);
    assert!(hits.is_empty());
}

#[test]
fn sample_forwarding_drops_only_bad_samples() {
    assert!(matches!(sample_forward_decision(10, 64, true), SampleFate::Forward));
    assert!(matches!(sample_forward_decision(64, 64, true), SampleFate::Forward));
    assert!(matches!(sample_forward_decision(65, 64, true), SampleFate::DropTooLarge));
    assert!(matches!(sample_forward_decision(10, 64, false), SampleFate::DropUnknownType));
}

#[test]
fn route_reference_counting() {
    let mut reg = DiscoveredEntities::new();
    let w1 = writer_entity(0x11, "rt/foo", "pkg::dds_::Foo_", true, Qos::default());
    assert!(reg.add_writer(w1).is_none());
    let mut mgr = RoutesMgr::create("p1".to_string(), Config::default());

    let ev_a = ROS2DiscoveryEvent::DiscoveredTopicPub(
        "/a".to_string(),
        TopicPub::create("foo".to_string(), "pkg/Foo".to_string(), Gid::new(0x11)),
    );
    match mgr.update(&ev_a, &reg) {
        Ok(RouteCommand::CreatePublisher { node, name, typ, plan }) => {
            assert_eq!(node, "/a");
            mgr.confirm_publisher_route(name, typ, plan, node);
        }
        _ => panic!("expected a creation command"),
    }
    assert_eq!(mgr.routes_publishers.len(), 1);
    assert_eq!(mgr.routes_publishers[0].local_nodes, vec!["/a".to_string()]);

    let ev_b = ROS2DiscoveryEvent::DiscoveredTopicPub(
        "/b".to_string(),
        TopicPub::create("foo".to_string(), "pkg/Foo".to_string(), Gid::new(0x11)),
    );
    assert!(matches!(mgr.update(&ev_b, &reg), Ok(RouteCommand::Idle)));
    assert_eq!(mgr.routes_publishers[0].local_nodes, vec!["/a".to_string(), "/b".to_string()]);

    let gone_a = ROS2DiscoveryEvent::UndiscoveredTopicPub(
        "/a".to_string(),
        TopicPub::create("foo".to_string(), "pkg/Foo".to_string(), Gid::new(0x11)),
    );
    assert!(matches!(mgr.update(&gone_a, &reg), Ok(RouteCommand::Idle)));
    assert_eq!(mgr.routes_publishers.len(), 1);
    assert_eq!(mgr.routes_publishers[0].local_nodes, vec!["/b".to_string()]);

    let gone_b = ROS2DiscoveryEvent::UndiscoveredTopicPub(
        "/b".to_string(),
        TopicPub::create("foo".to_string(), "pkg/Foo".to_string(), Gid::new(0x11)),
    );
    match mgr.update(&gone_b, &reg) {
        Ok(RouteCommand::TearDownPublisher { name }) => assert_eq!(name, "foo"),
        _ => panic!("expected a teardown command"),
    }
    assert!(mgr.routes_publishers.is_empty());
    assert!(mgr.admin_space.is_empty());
}

#[test]
fn route_creation_fails_without_endpoint_data() {
    let reg = DiscoveredEntities::new();
    let mut mgr = RoutesMgr::create("p1".to_string(), Config::default());
    let ev = ROS2DiscoveryEvent::DiscoveredTopicPub(
        "/a".to_string(),
        TopicPub::create("foo".to_string(), "pkg/Foo".to_string(), Gid::new(0x99)),
    );
    assert!(mgr.update(&ev, &reg).is_err());
    assert!(mgr.routes_publishers.is_empty());
}

#[test]
fn remote_routes_count_too() {
    let mut reg = DiscoveredEntities::new();
    let r1 = writer_entity(0x21, "rt/foo", "pkg::dds_::Foo_", true, Qos::default());
    assert!(reg.add_reader(r1).is_none());
    let mut mgr = RoutesMgr::create("p1".to_string(), Config::default());
    let ev = ROS2DiscoveryEvent::DiscoveredTopicSub(
        "/a".to_string(),
        TopicSub::create("foo".to_string(), "pkg/Foo".to_string(), Gid::new(0x21)),
    );
    match mgr.update(&ev, &reg) {
        Ok(RouteCommand::CreateSubscriber { node, name, typ, plan }) => {
            mgr.confirm_subscriber_route(name, typ, plan, node);
        }
        _ => panic!("expected a creation command"),
    }
    mgr.routes_subscribers[0].add_remote_route("peer/route/topic/sub/foo".to_string());
    let gone = ROS2DiscoveryEvent::UndiscoveredTopicSub(
        "/a".to_string(),
        TopicSub::create("foo".to_string(), "pkg/Foo".to_string(), Gid::new(0x21)),
    );
    assert!(matches!(mgr.update(&gone, &reg), Ok(RouteCommand::Idle)));
    assert_eq!(mgr.routes_subscribers.len(), 1);
    mgr.routes_subscribers[0].remove_remote_route("peer/route/topic/sub/foo");
    assert!(mgr.routes_subscribers[0].is_unused());
}

#[test]
fn allow_policy_gates_publishers() {
    let re = compile_regex(&anchor_pattern("foo/.*")).unwrap();
    let allowance = Some(Allowance::Allow(ROS2InterfacesRegex {
        publishers: Some(re),
        subscribers: None,
        service_servers: None,
        service_clients: None,
        action_servers: None,
        action_clients: None,
    }));
    let ok = ROS2DiscoveryEvent::DiscoveredTopicPub(
        "/a".to_string(),
        TopicPub::create("foo/bar".to_string(), "pkg/Foo".to_string(), Gid::new(1)),
    );
    let no = ROS2DiscoveryEvent::DiscoveredTopicPub(
        "/a".to_string(),
        TopicPub::create("bar/baz".to_string(), "pkg/Foo".to_string(), Gid::new(1)),
    );
    assert!(event_allowed(&allowance, &ok));
    assert!(!event_allowed(&allowance, &no));
    let sub = ROS2DiscoveryEvent::DiscoveredTopicSub(
        "/a".to_string(),
        TopicSub::create("x".to_string(), "pkg/Foo".to_string(), Gid::new(1)),
    );
    assert!(!event_allowed(&allowance, &sub));
    let gone = ROS2DiscoveryEvent::UndiscoveredTopicPub(
        "/a".to_string(),
        TopicPub::create("bar/baz".to_string(), "pkg/Foo".to_string(), Gid::new(1)),
    );
    assert!(event_allowed(&allowance, &gone));
}

#[test]
fn deny_policy_and_pattern_lists() {
    let joined = anchor_patterns(&vec!["a".to_string(), "b/.*".to_string()]);
    assert_eq!(joined, "^a$|^b/.*$");
    let re = compile_regex(&joined).unwrap();
    let deny = Some(Allowance::Deny(ROS2InterfacesRegex {
        publishers: Some(re),
        subscribers: None,
        service_servers: None,
        service_clients: None,
        action_servers: None,
        action_clients: None,
    }));
    let denied = ROS2DiscoveryEvent::DiscoveredTopicPub(
        "/n".to_string(),
        TopicPub::create("b/c".to_string(), "t".to_string(), Gid::new(1)),
    );
    let passed = ROS2DiscoveryEvent::DiscoveredTopicPub(
        "/n".to_string(),
        TopicPub::create("c".to_string(), "t".to_string(), Gid::new(1)),
    );
    assert!(!event_allowed(&deny, &denied));
    assert!(event_allowed(&deny, &passed));
    assert!(compile_regex("(").is_none());
}

#[test]
fn admin_query_replies_intersecting_keys() {
    let mut reg = DiscoveredEntities::new();
    reg.add_participant(DdsParticipant { key: Gid::new(1), qos: Qos::default() });
    let w = writer_entity(0x11, "rt/foo", "pkg::dds_::Foo_", true, Qos::default());
    assert!(reg.add_writer(w).is_none());
    let prefix = "@ros2/p1/";
    let pkey = format!("dds/{}", Gid::new(1).to_hex());

    let wild = format!("{}dds/**", prefix);
    let hits = reg.treat_admin_query(&wild, prefix);
    assert_eq!(hits.len(), 2);
    assert_eq!(hits[0].key, pkey);

    let point = format!("{}{}", prefix, pkey);
    let hits = reg.treat_admin_query(&point, prefix);
    assert_eq!(hits.len(), 1);
    assert_eq!(hits[0].key, pkey);

    let narrow = format!("{}dds/*/writer/**", prefix);
    let hits = reg.treat_admin_query(&narrow, prefix);
    assert_eq!(hits.len(), 1);
    assert!(hits[0].key.contains("/writer/"));

    let outside = "elsewhere/dds/**";
    assert!(reg.treat_admin_query(outside, prefix).is_empty());
}
