//! Discovery state machine: topic decoding, interface completion, pending
//! queues, and the participant loss cascade.

use ros2_bridge::endpoints::DdsEntity;
use ros2_bridge::entities::DiscoveredEntities;
use ros2_bridge::gid::Gid;
use ros2_bridge::node_info::{NodeInfo, ROS2DiscoveryEvent};
use ros2_bridge::qos::Qos;
use ros2_bridge::ros_discovery::{NodeEntitiesInfo, ParticipantEntitiesInfo};
use ros2_bridge::topic::{dds_action_topic_to_ros, dds_pubsub_topic_to_ros,
    dds_service_topic_to_ros, decode_topic, DdsTopicKind};

fn entity(key: u128, part: u128, topic: &str, typ: &str) -> DdsEntity {
    DdsEntity {
        key: Gid::new(key),
        participant_key: Gid::new(part),
        topic_name: topic.to_string(),
        typ_name: typ.to_string(),
        keyless: true,
        qos: Qos::default(),
    }
}

fn manifest(part: u128, ns: &str, name: &str, readers: Vec<u128>, writers: Vec<u128>) -> ParticipantEntitiesInfo {
    ParticipantEntitiesInfo {
        gid: Gid::new(part),
        node_entities_info_seq: vec![NodeEntitiesInfo {
            node_namespace: ns.to_string(),
            node_name: name.to_string(),
            reader_gid_seq: readers.into_iter().map(Gid::new).collect(),
            writer_gid_seq: writers.into_iter().map(Gid::new).collect(),
        }],
    }
}

#[test]
fn decode_plain_topic() {
    let d = decode_topic("rt/foo", true);
    assert!(matches!(d.kind, DdsTopicKind::TopicPub));
    assert_eq!(d.name, "foo");
    let d = decode_topic("rt/foo", false);
    assert!(matches!(d.kind, DdsTopicKind::TopicSub));
    let d = decode_topic("rq/svcRequest", false);
    assert!(matches!(d.kind, DdsTopicKind::ServiceReq));
    assert_eq!(d.name, "svc");
    let d = decode_topic("rr/svcReply", true);
    assert!(matches!(d.kind, DdsTopicKind::ServiceRep));
    let d = decode_topic("rt/act/_action/status", true);
    assert!(matches!(d.kind, DdsTopicKind::ActionStatus));
    assert_eq!(d.name, "act");
    let d = decode_topic("rq/act/_action/send_goalRequest", false);
    assert!(matches!(d.kind, DdsTopicKind::ActionSendReq));
    assert_eq!(d.name, "act");
    let d = decode_topic("weird", true);
    assert!(matches!(d.kind, DdsTopicKind::NonRos));
    let d = decode_topic("rx", true);
    assert!(matches!(d.kind, DdsTopicKind::NonRos));
}

#[test]
fn type_name_normalization() {
    assert_eq!(dds_pubsub_topic_to_ros("pkg::dds_::Foo_"), "pkg/Foo");
    assert_eq!(dds_pubsub_topic_to_ros("pkg::msg::dds_::Foo_"), "pkg/msg/Foo");
    assert_eq!(dds_service_topic_to_ros("pkg::srv::dds_::Svc_Request_"), "pkg/srv/Svc");
    assert_eq!(dds_service_topic_to_ros("pkg::srv::dds_::Svc_Response_"), "pkg/srv/Svc");
    assert_eq!(dds_action_topic_to_ros("pkg::action::dds_::Act_SendGoal_Request_"), "pkg/action/Act");
    assert_eq!(dds_action_topic_to_ros("pkg::action::dds_::Act_FeedbackMessage_"), "pkg/action/Act");
}

#[test]
fn node_fullname_and_parts() {
    let n = NodeInfo::create("/".to_string(), "n".to_string(), Gid::new(1));
    assert_eq!(n.fullname, "/n");
    assert_eq!(n.namespace(), "/");
    assert_eq!(n.name(), "n");
    let n = NodeInfo::create("/ns".to_string(), "n".to_string(), Gid::new(1));
    assert_eq!(n.fullname, "/ns/n");
    assert_eq!(n.namespace(), "/ns");
    assert_eq!(n.name(), "n");
}

#[test]
fn pub_discovery_writer_then_manifest() {
    let mut reg = DiscoveredEntities::new();
    let w1 = entity(0x11, 0x1, "rt/foo", "pkg::dds_::Foo_");
    assert!(reg.add_writer(w1).is_none());
    let evs = reg.update_participant_info(manifest(0x1, "/", "n", vec![], vec![0x11]));
    assert_eq!(evs.len(), 1);
    match &evs[0] {
        ROS2DiscoveryEvent::DiscoveredTopicPub(node, p) => {
            assert_eq!(node, "/n");
            assert_eq!(p.name, "foo");
            assert_eq!(p.typ, "pkg/Foo");
            assert_eq!(p.writer, Gid::new(0x11));
        }
        other => panic!("unexpected event: {:?}", other.interface_name()),
    }
}

#[test]
fn pub_discovery_manifest_then_writer() {
    let mut reg = DiscoveredEntities::new();
    let evs = reg.update_participant_info(manifest(0x1, "/", "n", vec![], vec![0x11]));
    assert_eq!(evs.len(), 0);
    assert_eq!(reg.nodes_info.len(), 1);
    assert_eq!(reg.nodes_info[0].undiscovered_writer, vec![Gid::new(0x11)]);
    let w1 = entity(0x11, 0x1, "rt/foo", "pkg::dds_::Foo_");
    let ev = reg.add_writer(w1);
    match ev {
        Some(ROS2DiscoveryEvent::DiscoveredTopicPub(node, p)) => {
            assert_eq!(node, "/n");
            assert_eq!(p.name, "foo");
            assert_eq!(p.typ, "pkg/Foo");
        }
        _ => panic!("expected a publisher discovery"),
    }
    assert!(reg.nodes_info[0].undiscovered_writer.is_empty());
}

#[test]
fn service_completion_needs_both_sides() {
    let mut node = NodeInfo::create("/".to_string(), "n".to_string(), Gid::new(1));
    let req = entity(0x21, 0x1, "rq/svcRequest", "pkg::srv::dds_::Svc_Request_");
    assert!(node.update_with_reader(&req).is_none());
    assert!(!node.service_srv[0].is_complete());
    let rep = entity(0x22, 0x1, "rr/svcReply", "pkg::srv::dds_::Svc_Response_");
    match node.update_with_writer(&rep) {
        Some(ROS2DiscoveryEvent::DiscoveredServiceSrv(n, s)) => {
            assert_eq!(n, "/n");
            assert_eq!(s.name, "svc");
            assert_eq!(s.typ, "pkg/srv/Svc");
            assert!(s.is_complete());
        }
        _ => panic!("expected a service server discovery"),
    }
}

#[test]
fn action_completion_needs_all_endpoints() {
    let mut node = NodeInfo::create("/".to_string(), "n".to_string(), Gid::new(1));
    let steps: Vec<(bool, DdsEntity)> = vec![
        (false, entity(0x31, 0x1, "rq/act/_action/send_goalRequest", "pkg::action::dds_::Act_SendGoal_Request_")),
        (true, entity(0x32, 0x1, "rr/act/_action/send_goalReply", "pkg::action::dds_::Act_SendGoal_Response_")),
        (false, entity(0x33, 0x1, "rq/act/_action/cancel_goalRequest", "action_msgs::srv::dds_::CancelGoal_Request_")),
        (true, entity(0x34, 0x1, "rr/act/_action/cancel_goalReply", "action_msgs::srv::dds_::CancelGoal_Response_")),
        (false, entity(0x35, 0x1, "rq/act/_action/get_resultRequest", "pkg::action::dds_::Act_GetResult_Request_")),
        (true, entity(0x36, 0x1, "rr/act/_action/get_resultReply", "pkg::action::dds_::Act_GetResult_Response_")),
        (true, entity(0x37, 0x1, "rt/act/_action/status", "action_msgs::msg::dds_::GoalStatusArray_")),
    ];
    for (is_writer, e) in steps {
        let ev = if is_writer {
            node.update_with_writer(&e)
        } else {
            node.update_with_reader(&e)
        };
        assert!(ev.is_none());
    }
    let last = entity(0x38, 0x1, "rt/act/_action/feedback", "pkg::action::dds_::Act_FeedbackMessage_");
    match node.update_with_writer(&last) {
        Some(ROS2DiscoveryEvent::DiscoveredActionSrv(n, a)) => {
            assert_eq!(n, "/n");
            assert_eq!(a.name, "act");
            assert_eq!(a.typ, "pkg/action/Act");
            assert!(a.is_complete());
        }
        _ => panic!("expected an action server discovery"),
    }
}

#[test]
fn cancel_and_status_never_set_the_type() {
    let mut node = NodeInfo::create("/".to_string(), "n".to_string(), Gid::new(1));
    let cancel = entity(0x33, 0x1, "rq/act/_action/cancel_goalRequest", "action_msgs::srv::dds_::CancelGoal_Request_");
    assert!(node.update_with_reader(&cancel).is_none());
    assert_eq!(node.action_srv[0].typ, "");
    let status = entity(0x37, 0x1, "rt/act/_action/status", "action_msgs::msg::dds_::GoalStatusArray_");
    assert!(node.update_with_writer(&status).is_none());
    assert_eq!(node.action_srv[0].typ, "");
    let send = entity(0x31, 0x1, "rq/act/_action/send_goalRequest", "pkg::action::dds_::Act_SendGoal_Request_");
    assert!(node.update_with_reader(&send).is_none());
    assert_eq!(node.action_srv[0].typ, "pkg/action/Act");
}

#[test]
fn participant_loss_cascade() {
    let mut reg = DiscoveredEntities::new();
    reg.add_participant(ros2_bridge::endpoints::DdsParticipant {
        key: Gid::new(0x1),
        qos: Qos::default(),
    });
    let w1 = entity(0x11, 0x1, "rt/foo", "pkg::dds_::Foo_");
    assert!(reg.add_writer(w1).is_none());
    let evs = reg.update_participant_info(manifest(0x1, "/", "n", vec![], vec![0x11]));
    assert_eq!(evs.len(), 1);
    let evs = reg.remove_participant(&Gid::new(0x1));
    assert_eq!(evs.len(), 1);
    match &evs[0] {
        ROS2DiscoveryEvent::UndiscoveredTopicPub(node, p) => {
            assert_eq!(node, "/n");
            assert_eq!(p.name, "foo");
        }
        _ => panic!("expected an undiscovered publisher"),
    }
    assert!(reg.participants.is_empty());
    assert!(reg.writers.is_empty());
    assert!(reg.nodes_info.is_empty());
    assert!(reg.admin_space.is_empty());
}

#[test]
fn participant_loss_spares_other_participants() {
    let mut reg = DiscoveredEntities::new();
    let w1 = entity(0x11, 0x1, "rt/foo", "pkg::dds_::Foo_");
    let w2 = entity(0x22, 0x2, "rt/bar", "pkg::dds_::Bar_");
    assert!(reg.add_writer(w1).is_none());
    assert!(reg.add_writer(w2).is_none());
    let _ = reg.remove_participant(&Gid::new(0x1));
    assert_eq!(reg.writers.len(), 1);
    assert_eq!(reg.writers[0].key, Gid::new(0x22));
    assert_eq!(reg.admin_space.len(), 1);
    assert!(reg.admin_space[0].key.contains("/writer/"));
}

#[test]
fn incomplete_interface_is_dropped_silently() {
    let mut reg = DiscoveredEntities::new();
    let req = entity(0x21, 0x1, "rq/svcRequest", "pkg::srv::dds_::Svc_Request_");
    assert!(reg.add_reader(req).is_none());
    let evs = reg.update_participant_info(manifest(0x1, "/", "n", vec![0x21], vec![]));
    assert_eq!(evs.len(), 0);
    assert_eq!(reg.nodes_info.len(), 1);
    assert!(!reg.nodes_info[0].service_srv.is_empty());
    let empty = ParticipantEntitiesInfo {
        gid: Gid::new(0x1),
        node_entities_info_seq: vec![],
    };
    let evs = reg.update_participant_info(empty);
    assert_eq!(evs.len(), 0);
    assert!(reg.nodes_info.is_empty());
}

#[test]
fn node_dropped_when_manifest_omits_it() {
    let mut reg = DiscoveredEntities::new();
    let w1 = entity(0x11, 0x1, "rt/foo", "pkg::dds_::Foo_");
    assert!(reg.add_writer(w1).is_none());
    let evs = reg.update_participant_info(manifest(0x1, "/", "n", vec![], vec![0x11]));
    assert_eq!(evs.len(), 1);
    let empty = ParticipantEntitiesInfo {
        gid: Gid::new(0x1),
        node_entities_info_seq: vec![],
    };
    let evs = reg.update_participant_info(empty);
    assert_eq!(evs.len(), 1);
    assert!(matches!(&evs[0], ROS2DiscoveryEvent::UndiscoveredTopicPub(_, _)));
    assert!(reg.nodes_info.is_empty());
}

#[test]
fn removed_reader_undiscovers_its_interface() {
    let mut reg = DiscoveredEntities::new();
    let r1 = entity(0x41, 0x1, "rt/bar", "pkg::dds_::Bar_");
    assert!(reg.add_reader(r1).is_none());
    let evs = reg.update_participant_info(manifest(0x1, "/", "n", vec![0x41], vec![]));
    assert_eq!(evs.len(), 1);
    match reg.remove_reader(&Gid::new(0x41)) {
        Some(ROS2DiscoveryEvent::UndiscoveredTopicSub(node, s)) => {
            assert_eq!(node, "/n");
            assert_eq!(s.name, "bar");
        }
        _ => panic!("expected an undiscovered subscriber"),
    }
    assert!(reg.nodes_info[0].topic_sub.is_empty());
}

#[test]
fn gid_hex_display() {
    assert_eq!(Gid::new(1).to_hex(), "00000000000000000000000000000001");
    assert_eq!(Gid::new(0xdeadbeef).to_hex(), "000000000000000000000000deadbeef");
    assert_eq!(Gid::not_discovered().to_hex(), "ffffffffffffffffffffffffffffffff");
}
