//! Topic-name decoder: pure functions mapping flat DDS topic and type names
//! to ROS 2 interface names, kinds and action sub-roles.
//!
//! A DDS topic bridging a ROS 2 interface starts with `rt/` (topic stream),
//! `rq/` (request stream) or `rr/` (reply stream); the remainder is the
//! interface name followed by a role suffix. Type names carry a `::dds_::`
//! infix, `::` separators and decoration suffixes that are stripped.

use vstd::prelude::*;

use crate::text::{ends_with, has_prefix, has_suffix, replace, seq_replace, starts_with,
    strip_suffix};

verus! {

/// The role a DDS topic name encodes.
#[derive(Clone, Copy, PartialEq, Eq, Structural, Debug)]
pub enum DdsTopicKind {
    /// `rt/…` seen on a writer: a topic publisher.
    TopicPub,
    /// `rt/…` seen on a reader: a topic subscriber.
    TopicSub,
    /// `rt/…/_action/status`.
    ActionStatus,
    /// `rt/…/_action/feedback`.
    ActionFeedback,
    /// `rq/…Request` of a plain service.
    ServiceReq,
    /// `rr/…Reply` of a plain service.
    ServiceRep,
    /// `rq/…/_action/send_goalRequest`.
    ActionSendReq,
    /// `rr/…/_action/send_goalReply`.
    ActionSendRep,
    /// `rq/…/_action/cancel_goalRequest`.
    ActionCancelReq,
    /// `rr/…/_action/cancel_goalReply`.
    ActionCancelRep,
    /// `rq/…/_action/get_resultRequest`.
    ActionResultReq,
    /// `rr/…/_action/get_resultReply`.
    ActionResultRep,
    /// Not a ROS 2 formed topic: ignored by the bridge.
    NonRos,
}

/// A decoded topic: its role and the interface name it belongs to.
pub struct DecodedTopic {
    pub kind: DdsTopicKind,
    pub name: String,
}

/// Ghost image of a decoded topic.
#[verifier::ext_equal]
pub struct DecodedTopicView {
    pub kind: DdsTopicKind,
    pub name: Seq<char>,
}

impl View for DecodedTopic {
    type V = DecodedTopicView;

    open spec fn view(&self) -> DecodedTopicView {
        DecodedTopicView { kind: self.kind, name: self.name@ }
    }
}

/// What a DDS topic name decodes to, the side of the endpoint deciding
/// between publisher and subscriber for plain topic streams.
pub open spec fn decode_topic_spec(topic: Seq<char>, is_writer: bool) -> DecodedTopicView {
    if has_prefix(topic, "rt/"@) {
        let rest = topic.skip(3);
        if has_suffix(rest, "/_action/status"@) {
            DecodedTopicView {
                kind: DdsTopicKind::ActionStatus,
                name: rest.take(rest.len() - "/_action/status"@.len()),
            }
        } else if has_suffix(rest, "/_action/feedback"@) {
            DecodedTopicView {
                kind: DdsTopicKind::ActionFeedback,
                name: rest.take(rest.len() - "/_action/feedback"@.len()),
            }
        } else {
            DecodedTopicView {
                kind: if is_writer {
                    DdsTopicKind::TopicPub
                } else {
                    DdsTopicKind::TopicSub
                },
                name: rest,
            }
        }
    } else if has_prefix(topic, "rq/"@) {
        let rest = topic.skip(3);
        if has_suffix(rest, "/_action/send_goalRequest"@) {
            DecodedTopicView {
                kind: DdsTopicKind::ActionSendReq,
                name: rest.take(rest.len() - "/_action/send_goalRequest"@.len()),
            }
        } else if has_suffix(rest, "/_action/cancel_goalRequest"@) {
            DecodedTopicView {
                kind: DdsTopicKind::ActionCancelReq,
                name: rest.take(rest.len() - "/_action/cancel_goalRequest"@.len()),
            }
        } else if has_suffix(rest, "/_action/get_resultRequest"@) {
            DecodedTopicView {
                kind: DdsTopicKind::ActionResultReq,
                name: rest.take(rest.len() - "/_action/get_resultRequest"@.len()),
            }
        } else if has_suffix(rest, "Request"@) {
            DecodedTopicView {
                kind: DdsTopicKind::ServiceReq,
                name: rest.take(rest.len() - "Request"@.len()),
            }
        } else {
            DecodedTopicView { kind: DdsTopicKind::NonRos, name: Seq::empty() }
        }
    } else if has_prefix(topic, "rr/"@) {
        let rest = topic.skip(3);
        if has_suffix(rest, "/_action/send_goalReply"@) {
            DecodedTopicView {
                kind: DdsTopicKind::ActionSendRep,
                name: rest.take(rest.len() - "/_action/send_goalReply"@.len()),
            }
        } else if has_suffix(rest, "/_action/cancel_goalReply"@) {
            DecodedTopicView {
                kind: DdsTopicKind::ActionCancelRep,
                name: rest.take(rest.len() - "/_action/cancel_goalReply"@.len()),
            }
        } else if has_suffix(rest, "/_action/get_resultReply"@) {
            DecodedTopicView {
                kind: DdsTopicKind::ActionResultRep,
                name: rest.take(rest.len() - "/_action/get_resultReply"@.len()),
            }
        } else if has_suffix(rest, "Reply"@) {
            DecodedTopicView {
                kind: DdsTopicKind::ServiceRep,
                name: rest.take(rest.len() - "Reply"@.len()),
            }
        } else {
            DecodedTopicView { kind: DdsTopicKind::NonRos, name: Seq::empty() }
        }
    } else {
        DecodedTopicView { kind: DdsTopicKind::NonRos, name: Seq::empty() }
    }
}

/// Strips a recognized suffix from `rest` and tags it `kind`.
fn decoded(rest: &str, suffix: &str, kind: DdsTopicKind) -> (r: Option<DecodedTopic>)
    ensures
        match r {
            Some(d) => has_suffix(rest@, suffix@) && d@.kind == kind && d@.name == rest@.take(
                rest@.len() - suffix@.len(),
            ),
            None => !has_suffix(rest@, suffix@),
        },
{
    match strip_suffix(rest, suffix) {
        Some(name) => {
            assert(name@ =~= rest@.take(rest@.len() - suffix@.len()));
            Some(DecodedTopic { kind, name: name.to_owned() })
        },
        None => None,
    }
}

/// Classifies a DDS topic name: its ROS 2 role and interface name.
/// `is_writer` tells which side of the endpoint carried the name and only
/// decides between publisher and subscriber for plain topic streams.
pub fn decode_topic(topic: &str, is_writer: bool) -> (r: DecodedTopic)
    ensures
        r@ == decode_topic_spec(topic@, is_writer),
{
    if starts_with(topic, "rt/") {
        proof {
            reveal_strlit("rt/");
        }
        let rest = topic.substring_char(3, topic.unicode_len());
        assert(rest@ =~= topic@.skip(3));
        if let Some(d) = decoded(rest, "/_action/status", DdsTopicKind::ActionStatus) {
            return d;
        }
        if let Some(d) = decoded(rest, "/_action/feedback", DdsTopicKind::ActionFeedback) {
            return d;
        }
        DecodedTopic {
            kind: if is_writer {
                DdsTopicKind::TopicPub
            } else {
                DdsTopicKind::TopicSub
            },
            name: rest.to_owned(),
        }
    } else if starts_with(topic, "rq/") {
        proof {
            reveal_strlit("rq/");
        }
        let rest = topic.substring_char(3, topic.unicode_len());
        assert(rest@ =~= topic@.skip(3));
        if let Some(d) = decoded(rest, "/_action/send_goalRequest", DdsTopicKind::ActionSendReq) {
            return d;
        }
        if let Some(d) = decoded(
            rest,
            "/_action/cancel_goalRequest",
            DdsTopicKind::ActionCancelReq,
        ) {
            return d;
        }
        if let Some(d) = decoded(rest, "/_action/get_resultRequest", DdsTopicKind::ActionResultReq) {
            return d;
        }
        if let Some(d) = decoded(rest, "Request", DdsTopicKind::ServiceReq) {
            return d;
        }
        DecodedTopic { kind: DdsTopicKind::NonRos, name: String::new() }
    } else if starts_with(topic, "rr/") {
        proof {
            reveal_strlit("rr/");
        }
        let rest = topic.substring_char(3, topic.unicode_len());
        assert(rest@ =~= topic@.skip(3));
        if let Some(d) = decoded(rest, "/_action/send_goalReply", DdsTopicKind::ActionSendRep) {
            return d;
        }
        if let Some(d) = decoded(rest, "/_action/cancel_goalReply", DdsTopicKind::ActionCancelRep) {
            return d;
        }
        if let Some(d) = decoded(rest, "/_action/get_resultReply", DdsTopicKind::ActionResultRep) {
            return d;
        }
        if let Some(d) = decoded(rest, "Reply", DdsTopicKind::ServiceRep) {
            return d;
        }
        DecodedTopic { kind: DdsTopicKind::NonRos, name: String::new() }
    } else {
        DecodedTopic { kind: DdsTopicKind::NonRos, name: String::new() }
    }
}

/// Normalization of a DDS message type name into a ROS 2 type name:
/// drop the `::dds_::` infix, turn `::` into `/`, drop one trailing `_`.
pub open spec fn ros_type_of(t: Seq<char>) -> Seq<char> {
    let collapsed = seq_replace(seq_replace(t, "::dds_::"@, "::"@), "::"@, "/"@);
    if collapsed.len() > 0 && collapsed.last() == '_' {
        collapsed.drop_last()
    } else {
        collapsed
    }
}

/// Normalization of a service-stream type name: the request/response
/// decoration is stripped before the common normalization.
pub open spec fn ros_service_type_of(t: Seq<char>) -> Seq<char> {
    if has_suffix(t, "_Request_"@) {
        ros_type_of(t.take(t.len() - "_Request_"@.len()))
    } else if has_suffix(t, "_Response_"@) {
        ros_type_of(t.take(t.len() - "_Response_"@.len()))
    } else {
        ros_type_of(t)
    }
}

/// Normalization of an action-stream type name: the sub-stream decoration is
/// stripped before the common normalization.
pub open spec fn ros_action_type_of(t: Seq<char>) -> Seq<char> {
    if has_suffix(t, "_SendGoal_Request_"@) {
        ros_type_of(t.take(t.len() - "_SendGoal_Request_"@.len()))
    } else if has_suffix(t, "_SendGoal_Response_"@) {
        ros_type_of(t.take(t.len() - "_SendGoal_Response_"@.len()))
    } else if has_suffix(t, "_GetResult_Request_"@) {
        ros_type_of(t.take(t.len() - "_GetResult_Request_"@.len()))
    } else if has_suffix(t, "_GetResult_Response_"@) {
        ros_type_of(t.take(t.len() - "_GetResult_Response_"@.len()))
    } else if has_suffix(t, "_FeedbackMessage_"@) {
        ros_type_of(t.take(t.len() - "_FeedbackMessage_"@.len()))
    } else {
        ros_type_of(t)
    }
}

/// Converts a DDS message type name to the ROS 2 type name.
pub fn dds_pubsub_topic_to_ros(dds_topic: &str) -> (r: String)
    ensures
        r@ == ros_type_of(dds_topic@),
{
    let collapsed = replace(&replace(dds_topic, "::dds_::", "::"), "::", "/");
    let clen = collapsed.as_str().unicode_len();
    if clen > 0 && collapsed.as_str().get_char(clen - 1) == '_' {
        let r = collapsed.as_str().substring_char(0, clen - 1).to_owned();
        assert(r@ =~= ros_type_of(dds_topic@));
        r
    } else {
        collapsed
    }
}

/// Converts a DDS service-stream type name to the ROS 2 type name.
pub fn dds_service_topic_to_ros(dds_topic: &str) -> (r: String)
    ensures
        r@ == ros_service_type_of(dds_topic@),
{
    if let Some(t) = strip_suffix(dds_topic, "_Request_") {
        return dds_pubsub_topic_to_ros(t);
    }
    if let Some(t) = strip_suffix(dds_topic, "_Response_") {
        return dds_pubsub_topic_to_ros(t);
    }
    dds_pubsub_topic_to_ros(dds_topic)
}

/// Converts a DDS action-stream type name to the ROS 2 type name.
pub fn dds_action_topic_to_ros(dds_topic: &str) -> (r: String)
    ensures
        r@ == ros_action_type_of(dds_topic@),
{
    if let Some(t) = strip_suffix(dds_topic, "_SendGoal_Request_") {
        return dds_pubsub_topic_to_ros(t);
    }
    if let Some(t) = strip_suffix(dds_topic, "_SendGoal_Response_") {
        return dds_pubsub_topic_to_ros(t);
    }
    if let Some(t) = strip_suffix(dds_topic, "_GetResult_Request_") {
        return dds_pubsub_topic_to_ros(t);
    }
    if let Some(t) = strip_suffix(dds_topic, "_GetResult_Response_") {
        return dds_pubsub_topic_to_ros(t);
    }
    if let Some(t) = strip_suffix(dds_topic, "_FeedbackMessage_") {
        return dds_pubsub_topic_to_ros(t);
    }
    dds_pubsub_topic_to_ros(dds_topic)
}

} // verus!
