//! Per-node interface model: publishers, subscribers, service servers and
//! clients, action servers and clients, with their completeness predicates,
//! and the update protocol that assembles them from flat DDS endpoints and
//! emits discovery events at the right moment.

use vstd::prelude::*;

use crate::gid::{not_discovered_gid, Gid};
use crate::seq_find::{first_where, lemma_first_where, lemma_first_where_is,
    lemma_first_where_none};
use crate::text::str_eq;
use crate::topic::{decode_topic, decode_topic_spec, dds_action_topic_to_ros,
    dds_pubsub_topic_to_ros, dds_service_topic_to_ros, ros_action_type_of, ros_service_type_of,
    ros_type_of, DdsTopicKind};

verus! {

/// A topic publisher: complete once its writer is known.
pub struct TopicPub {
    pub name: String,
    pub typ: String,
    pub writer: Gid,
}

/// Ghost image of a publisher.
#[verifier::ext_equal]
pub struct TopicPubView {
    pub name: Seq<char>,
    pub typ: Seq<char>,
    pub writer: Gid,
}

impl View for TopicPub {
    type V = TopicPubView;

    open spec fn view(&self) -> TopicPubView {
        TopicPubView { name: self.name@, typ: self.typ@, writer: self.writer }
    }
}

impl TopicPub {
    pub fn create(name: String, typ: String, writer: Gid) -> (r: TopicPub)
        ensures
            r@ == (TopicPubView { name: name@, typ: typ@, writer }),
    {
        TopicPub { name, typ, writer }
    }

    /// An identical copy.
    pub fn duplicate(&self) -> (r: TopicPub)
        ensures
            r@ == self@,
    {
        TopicPub { name: self.name.clone(), typ: self.typ.clone(), writer: self.writer }
    }
}

/// A topic subscriber: complete once its reader is known.
pub struct TopicSub {
    pub name: String,
    pub typ: String,
    pub reader: Gid,
}

/// Ghost image of a subscriber.
#[verifier::ext_equal]
pub struct TopicSubView {
    pub name: Seq<char>,
    pub typ: Seq<char>,
    pub reader: Gid,
}

impl View for TopicSub {
    type V = TopicSubView;

    open spec fn view(&self) -> TopicSubView {
        TopicSubView { name: self.name@, typ: self.typ@, reader: self.reader }
    }
}

impl TopicSub {
    pub fn create(name: String, typ: String, reader: Gid) -> (r: TopicSub)
        ensures
            r@ == (TopicSubView { name: name@, typ: typ@, reader }),
    {
        TopicSub { name, typ, reader }
    }

    /// An identical copy.
    pub fn duplicate(&self) -> (r: TopicSub)
        ensures
            r@ == self@,
    {
        TopicSub { name: self.name.clone(), typ: self.typ.clone(), reader: self.reader }
    }
}

/// The two endpoints a service server owns.
#[derive(Clone, Copy, PartialEq, Eq, Structural, Debug)]
pub struct ServiceSrvEntities {
    pub req_reader: Gid,
    pub rep_writer: Gid,
}

impl Default for ServiceSrvEntities {
    /// Both endpoints still awaited.
    fn default() -> (r: Self)
        ensures
            r.req_reader == not_discovered_gid(),
            r.rep_writer == not_discovered_gid(),
    {
        ServiceSrvEntities { req_reader: Gid::not_discovered(), rep_writer: Gid::not_discovered() }
    }
}

impl ServiceSrvEntities {
    pub open spec fn spec_is_complete(self) -> bool {
        self.req_reader != not_discovered_gid() && self.rep_writer != not_discovered_gid()
    }

    pub fn is_complete(&self) -> (b: bool)
        ensures
            b == self.spec_is_complete(),
    {
        !self.req_reader.is_not_discovered() && !self.rep_writer.is_not_discovered()
    }
}

/// A service server: complete once request reader and reply writer are
/// known.
pub struct ServiceSrv {
    pub name: String,
    pub typ: String,
    pub entities: ServiceSrvEntities,
}

/// Ghost image of a service server.
#[verifier::ext_equal]
pub struct ServiceSrvView {
    pub name: Seq<char>,
    pub typ: Seq<char>,
    pub entities: ServiceSrvEntities,
}

impl View for ServiceSrv {
    type V = ServiceSrvView;

    open spec fn view(&self) -> ServiceSrvView {
        ServiceSrvView { name: self.name@, typ: self.typ@, entities: self.entities }
    }
}

impl ServiceSrv {
    pub fn create(name: String, typ: String) -> (r: ServiceSrv)
        ensures
            r@.name == name@,
            r@.typ == typ@,
            r@.entities.req_reader == not_discovered_gid(),
            r@.entities.rep_writer == not_discovered_gid(),
    {
        ServiceSrv { name, typ, entities: ServiceSrvEntities::default() }
    }

    pub fn is_complete(&self) -> (b: bool)
        ensures
            b == self.entities.spec_is_complete(),
    {
        self.entities.is_complete()
    }

    /// An identical copy.
    pub fn duplicate(&self) -> (r: ServiceSrv)
        ensures
            r@ == self@,
    {
        ServiceSrv { name: self.name.clone(), typ: self.typ.clone(), entities: self.entities }
    }
}

/// The two endpoints a service client owns.
#[derive(Clone, Copy, PartialEq, Eq, Structural, Debug)]
pub struct ServiceCliEntities {
    pub req_writer: Gid,
    pub rep_reader: Gid,
}

impl Default for ServiceCliEntities {
    /// Both endpoints still awaited.
    fn default() -> (r: Self)
        ensures
            r.req_writer == not_discovered_gid(),
            r.rep_reader == not_discovered_gid(),
    {
        ServiceCliEntities { req_writer: Gid::not_discovered(), rep_reader: Gid::not_discovered() }
    }
}

impl ServiceCliEntities {
    pub open spec fn spec_is_complete(self) -> bool {
        self.rep_reader != not_discovered_gid() && self.req_writer != not_discovered_gid()
    }

    pub fn is_complete(&self) -> (b: bool)
        ensures
            b == self.spec_is_complete(),
    {
        !self.rep_reader.is_not_discovered() && !self.req_writer.is_not_discovered()
    }
}

/// A service client: complete once request writer and reply reader are
/// known.
pub struct ServiceCli {
    pub name: String,
    pub typ: String,
    pub entities: ServiceCliEntities,
}

/// Ghost image of a service client.
#[verifier::ext_equal]
pub struct ServiceCliView {
    pub name: Seq<char>,
    pub typ: Seq<char>,
    pub entities: ServiceCliEntities,
}

impl View for ServiceCli {
    type V = ServiceCliView;

    open spec fn view(&self) -> ServiceCliView {
        ServiceCliView { name: self.name@, typ: self.typ@, entities: self.entities }
    }
}

impl ServiceCli {
    pub fn create(name: String, typ: String) -> (r: ServiceCli)
        ensures
            r@.name == name@,
            r@.typ == typ@,
            r@.entities.req_writer == not_discovered_gid(),
            r@.entities.rep_reader == not_discovered_gid(),
    {
        ServiceCli { name, typ, entities: ServiceCliEntities::default() }
    }

    pub fn is_complete(&self) -> (b: bool)
        ensures
            b == self.entities.spec_is_complete(),
    {
        self.entities.is_complete()
    }

    /// An identical copy.
    pub fn duplicate(&self) -> (r: ServiceCli)
        ensures
            r@ == self@,
    {
        ServiceCli { name: self.name.clone(), typ: self.typ.clone(), entities: self.entities }
    }
}

/// The six endpoints an action server owns.
#[derive(Clone, Copy, PartialEq, Eq, Structural, Debug)]
pub struct ActionSrvEntities {
    pub send_goal: ServiceSrvEntities,
    pub cancel_goal: ServiceSrvEntities,
    pub get_result: ServiceSrvEntities,
    pub status_writer: Gid,
    pub feedback_writer: Gid,
}

impl Default for ActionSrvEntities {
    /// Every endpoint still awaited.
    fn default() -> (r: Self)
        ensures
            r.send_goal == (ServiceSrvEntities {
                req_reader: not_discovered_gid(),
                rep_writer: not_discovered_gid(),
            }),
            r.cancel_goal == r.send_goal,
            r.get_result == r.send_goal,
            r.status_writer == not_discovered_gid(),
            r.feedback_writer == not_discovered_gid(),
    {
        ActionSrvEntities {
            send_goal: ServiceSrvEntities::default(),
            cancel_goal: ServiceSrvEntities::default(),
            get_result: ServiceSrvEntities::default(),
            status_writer: Gid::not_discovered(),
            feedback_writer: Gid::not_discovered(),
        }
    }
}

impl ActionSrvEntities {
    pub open spec fn spec_is_complete(self) -> bool {
        self.send_goal.spec_is_complete() && self.cancel_goal.spec_is_complete()
            && self.get_result.spec_is_complete() && self.status_writer != not_discovered_gid()
            && self.feedback_writer != not_discovered_gid()
    }

    pub fn is_complete(&self) -> (b: bool)
        ensures
            b == self.spec_is_complete(),
    {
        self.send_goal.is_complete() && self.cancel_goal.is_complete()
            && self.get_result.is_complete() && !self.status_writer.is_not_discovered()
            && !self.feedback_writer.is_not_discovered()
    }
}

/// An action server: complete once all six endpoints are known.
pub struct ActionSrv {
    pub name: String,
    pub typ: String,
    pub entities: ActionSrvEntities,
}

/// Ghost image of an action server.
#[verifier::ext_equal]
pub struct ActionSrvView {
    pub name: Seq<char>,
    pub typ: Seq<char>,
    pub entities: ActionSrvEntities,
}

impl View for ActionSrv {
    type V = ActionSrvView;

    open spec fn view(&self) -> ActionSrvView {
        ActionSrvView { name: self.name@, typ: self.typ@, entities: self.entities }
    }
}

impl ActionSrv {
    pub fn create(name: String, typ: String) -> (r: ActionSrv)
        ensures
            r@.name == name@,
            r@.typ == typ@,
            !r@.entities.spec_is_complete(),
            r@.entities == ActionSrvEntities::default_spec(),
    {
        ActionSrv { name, typ, entities: ActionSrvEntities::default() }
    }

    pub fn is_complete(&self) -> (b: bool)
        ensures
            b == self.entities.spec_is_complete(),
    {
        self.entities.is_complete()
    }

    /// An identical copy.
    pub fn duplicate(&self) -> (r: ActionSrv)
        ensures
            r@ == self@,
    {
        ActionSrv { name: self.name.clone(), typ: self.typ.clone(), entities: self.entities }
    }
}

impl ActionSrvEntities {
    /// The all-awaited value `default` returns.
    pub open spec fn default_spec() -> ActionSrvEntities {
        ActionSrvEntities {
            send_goal: ServiceSrvEntities {
                req_reader: not_discovered_gid(),
                rep_writer: not_discovered_gid(),
            },
            cancel_goal: ServiceSrvEntities {
                req_reader: not_discovered_gid(),
                rep_writer: not_discovered_gid(),
            },
            get_result: ServiceSrvEntities {
                req_reader: not_discovered_gid(),
                rep_writer: not_discovered_gid(),
            },
            status_writer: not_discovered_gid(),
            feedback_writer: not_discovered_gid(),
        }
    }
}

/// The six endpoints an action client owns.
#[derive(Clone, Copy, PartialEq, Eq, Structural, Debug)]
pub struct ActionCliEntities {
    pub send_goal: ServiceCliEntities,
    pub cancel_goal: ServiceCliEntities,
    pub get_result: ServiceCliEntities,
    pub status_reader: Gid,
    pub feedback_reader: Gid,
}

impl ActionCliEntities {
    /// The all-awaited value `default` returns.
    pub open spec fn default_spec() -> ActionCliEntities {
        ActionCliEntities {
            send_goal: ServiceCliEntities {
                req_writer: not_discovered_gid(),
                rep_reader: not_discovered_gid(),
            },
            cancel_goal: ServiceCliEntities {
                req_writer: not_discovered_gid(),
                rep_reader: not_discovered_gid(),
            },
            get_result: ServiceCliEntities {
                req_writer: not_discovered_gid(),
                rep_reader: not_discovered_gid(),
            },
            status_reader: not_discovered_gid(),
            feedback_reader: not_discovered_gid(),
        }
    }

    pub open spec fn spec_is_complete(self) -> bool {
        self.send_goal.spec_is_complete() && self.cancel_goal.spec_is_complete()
            && self.get_result.spec_is_complete() && self.status_reader != not_discovered_gid()
            && self.feedback_reader != not_discovered_gid()
    }

    pub fn is_complete(&self) -> (b: bool)
        ensures
            b == self.spec_is_complete(),
    {
        self.send_goal.is_complete() && self.cancel_goal.is_complete()
            && self.get_result.is_complete() && !self.status_reader.is_not_discovered()
            && !self.feedback_reader.is_not_discovered()
    }
}

impl Default for ActionCliEntities {
    /// Every endpoint still awaited.
    fn default() -> (r: Self)
        ensures
            r == ActionCliEntities::default_spec(),
    {
        ActionCliEntities {
            send_goal: ServiceCliEntities::default(),
            cancel_goal: ServiceCliEntities::default(),
            get_result: ServiceCliEntities::default(),
            status_reader: Gid::not_discovered(),
            feedback_reader: Gid::not_discovered(),
        }
    }
}

/// An action client: complete once all six endpoints are known.
pub struct ActionCli {
    pub name: String,
    pub typ: String,
    pub entities: ActionCliEntities,
}

/// Ghost image of an action client.
#[verifier::ext_equal]
pub struct ActionCliView {
    pub name: Seq<char>,
    pub typ: Seq<char>,
    pub entities: ActionCliEntities,
}

impl View for ActionCli {
    type V = ActionCliView;

    open spec fn view(&self) -> ActionCliView {
        ActionCliView { name: self.name@, typ: self.typ@, entities: self.entities }
    }
}

impl ActionCli {
    pub fn create(name: String, typ: String) -> (r: ActionCli)
        ensures
            r@.name == name@,
            r@.typ == typ@,
            !r@.entities.spec_is_complete(),
            r@.entities == ActionCliEntities::default_spec(),
    {
        ActionCli { name, typ, entities: ActionCliEntities::default() }
    }

    pub fn is_complete(&self) -> (b: bool)
        ensures
            b == self.entities.spec_is_complete(),
    {
        self.entities.is_complete()
    }

    /// An identical copy.
    pub fn duplicate(&self) -> (r: ActionCli)
        ensures
            r@ == self@,
    {
        ActionCli { name: self.name.clone(), typ: self.typ.clone(), entities: self.entities }
    }
}

/// A discovery or undiscovery event: the owning node's full name and the
/// interface that became complete, changed, or went away.
pub enum ROS2DiscoveryEvent {
    DiscoveredTopicPub(String, TopicPub),
    UndiscoveredTopicPub(String, TopicPub),
    DiscoveredTopicSub(String, TopicSub),
    UndiscoveredTopicSub(String, TopicSub),
    DiscoveredServiceSrv(String, ServiceSrv),
    UndiscoveredServiceSrv(String, ServiceSrv),
    DiscoveredServiceCli(String, ServiceCli),
    UndiscoveredServiceCli(String, ServiceCli),
    DiscoveredActionSrv(String, ActionSrv),
    UndiscoveredActionSrv(String, ActionSrv),
    DiscoveredActionCli(String, ActionCli),
    UndiscoveredActionCli(String, ActionCli),
}

/// Ghost image of a discovery event.
#[verifier::ext_equal]
pub enum EventView {
    DiscoveredTopicPub(Seq<char>, TopicPubView),
    UndiscoveredTopicPub(Seq<char>, TopicPubView),
    DiscoveredTopicSub(Seq<char>, TopicSubView),
    UndiscoveredTopicSub(Seq<char>, TopicSubView),
    DiscoveredServiceSrv(Seq<char>, ServiceSrvView),
    UndiscoveredServiceSrv(Seq<char>, ServiceSrvView),
    DiscoveredServiceCli(Seq<char>, ServiceCliView),
    UndiscoveredServiceCli(Seq<char>, ServiceCliView),
    DiscoveredActionSrv(Seq<char>, ActionSrvView),
    UndiscoveredActionSrv(Seq<char>, ActionSrvView),
    DiscoveredActionCli(Seq<char>, ActionCliView),
    UndiscoveredActionCli(Seq<char>, ActionCliView),
}

impl View for ROS2DiscoveryEvent {
    type V = EventView;

    open spec fn view(&self) -> EventView {
        match self {
            ROS2DiscoveryEvent::DiscoveredTopicPub(n, i) => EventView::DiscoveredTopicPub(
                n@,
                i@,
            ),
            ROS2DiscoveryEvent::UndiscoveredTopicPub(n, i) => EventView::UndiscoveredTopicPub(
                n@,
                i@,
            ),
            ROS2DiscoveryEvent::DiscoveredTopicSub(n, i) => EventView::DiscoveredTopicSub(
                n@,
                i@,
            ),
            ROS2DiscoveryEvent::UndiscoveredTopicSub(n, i) => EventView::UndiscoveredTopicSub(
                n@,
                i@,
            ),
            ROS2DiscoveryEvent::DiscoveredServiceSrv(n, i) => EventView::DiscoveredServiceSrv(
                n@,
                i@,
            ),
            ROS2DiscoveryEvent::UndiscoveredServiceSrv(n, i) => EventView::UndiscoveredServiceSrv(
                n@,
                i@,
            ),
            ROS2DiscoveryEvent::DiscoveredServiceCli(n, i) => EventView::DiscoveredServiceCli(
                n@,
                i@,
            ),
            ROS2DiscoveryEvent::UndiscoveredServiceCli(n, i) => EventView::UndiscoveredServiceCli(
                n@,
                i@,
            ),
            ROS2DiscoveryEvent::DiscoveredActionSrv(n, i) => EventView::DiscoveredActionSrv(
                n@,
                i@,
            ),
            ROS2DiscoveryEvent::UndiscoveredActionSrv(n, i) => EventView::UndiscoveredActionSrv(
                n@,
                i@,
            ),
            ROS2DiscoveryEvent::DiscoveredActionCli(n, i) => EventView::DiscoveredActionCli(
                n@,
                i@,
            ),
            ROS2DiscoveryEvent::UndiscoveredActionCli(n, i) => EventView::UndiscoveredActionCli(
                n@,
                i@,
            ),
        }
    }
}

impl EventView {
    /// The full name of the node the event concerns.
    pub open spec fn node_name(self) -> Seq<char> {
        match self {
            EventView::DiscoveredTopicPub(n, _) => n,
            EventView::UndiscoveredTopicPub(n, _) => n,
            EventView::DiscoveredTopicSub(n, _) => n,
            EventView::UndiscoveredTopicSub(n, _) => n,
            EventView::DiscoveredServiceSrv(n, _) => n,
            EventView::UndiscoveredServiceSrv(n, _) => n,
            EventView::DiscoveredServiceCli(n, _) => n,
            EventView::UndiscoveredServiceCli(n, _) => n,
            EventView::DiscoveredActionSrv(n, _) => n,
            EventView::UndiscoveredActionSrv(n, _) => n,
            EventView::DiscoveredActionCli(n, _) => n,
            EventView::UndiscoveredActionCli(n, _) => n,
        }
    }

    /// The name of the interface the event concerns.
    pub open spec fn interface_name(self) -> Seq<char> {
        match self {
            EventView::DiscoveredTopicPub(_, i) => i.name,
            EventView::UndiscoveredTopicPub(_, i) => i.name,
            EventView::DiscoveredTopicSub(_, i) => i.name,
            EventView::UndiscoveredTopicSub(_, i) => i.name,
            EventView::DiscoveredServiceSrv(_, i) => i.name,
            EventView::UndiscoveredServiceSrv(_, i) => i.name,
            EventView::DiscoveredServiceCli(_, i) => i.name,
            EventView::UndiscoveredServiceCli(_, i) => i.name,
            EventView::DiscoveredActionSrv(_, i) => i.name,
            EventView::UndiscoveredActionSrv(_, i) => i.name,
            EventView::DiscoveredActionCli(_, i) => i.name,
            EventView::UndiscoveredActionCli(_, i) => i.name,
        }
    }
}

impl ROS2DiscoveryEvent {
    /// The full name of the node the event concerns.
    pub fn node_name(&self) -> (r: &str)
        ensures
            r@ == self@.node_name(),
    {
        match self {
            ROS2DiscoveryEvent::DiscoveredTopicPub(node, _) => node.as_str(),
            ROS2DiscoveryEvent::UndiscoveredTopicPub(node, _) => node.as_str(),
            ROS2DiscoveryEvent::DiscoveredTopicSub(node, _) => node.as_str(),
            ROS2DiscoveryEvent::UndiscoveredTopicSub(node, _) => node.as_str(),
            ROS2DiscoveryEvent::DiscoveredServiceSrv(node, _) => node.as_str(),
            ROS2DiscoveryEvent::UndiscoveredServiceSrv(node, _) => node.as_str(),
            ROS2DiscoveryEvent::DiscoveredServiceCli(node, _) => node.as_str(),
            ROS2DiscoveryEvent::UndiscoveredServiceCli(node, _) => node.as_str(),
            ROS2DiscoveryEvent::DiscoveredActionSrv(node, _) => node.as_str(),
            ROS2DiscoveryEvent::UndiscoveredActionSrv(node, _) => node.as_str(),
            ROS2DiscoveryEvent::DiscoveredActionCli(node, _) => node.as_str(),
            ROS2DiscoveryEvent::UndiscoveredActionCli(node, _) => node.as_str(),
        }
    }

    /// The name of the interface the event concerns.
    pub fn interface_name(&self) -> (r: &str)
        ensures
            r@ == self@.interface_name(),
    {
        match self {
            ROS2DiscoveryEvent::DiscoveredTopicPub(_, iface) => iface.name.as_str(),
            ROS2DiscoveryEvent::UndiscoveredTopicPub(_, iface) => iface.name.as_str(),
            ROS2DiscoveryEvent::DiscoveredTopicSub(_, iface) => iface.name.as_str(),
            ROS2DiscoveryEvent::UndiscoveredTopicSub(_, iface) => iface.name.as_str(),
            ROS2DiscoveryEvent::DiscoveredServiceSrv(_, iface) => iface.name.as_str(),
            ROS2DiscoveryEvent::UndiscoveredServiceSrv(_, iface) => iface.name.as_str(),
            ROS2DiscoveryEvent::DiscoveredServiceCli(_, iface) => iface.name.as_str(),
            ROS2DiscoveryEvent::UndiscoveredServiceCli(_, iface) => iface.name.as_str(),
            ROS2DiscoveryEvent::DiscoveredActionSrv(_, iface) => iface.name.as_str(),
            ROS2DiscoveryEvent::UndiscoveredActionSrv(_, iface) => iface.name.as_str(),
            ROS2DiscoveryEvent::DiscoveredActionCli(_, iface) => iface.name.as_str(),
            ROS2DiscoveryEvent::UndiscoveredActionCli(_, iface) => iface.name.as_str(),
        }
    }
}

/// Ghost images of whole interface tables.
pub open spec fn pubs_view(s: Seq<TopicPub>) -> Seq<TopicPubView> {
    s.map_values(|x: TopicPub| x@)
}

pub open spec fn subs_view(s: Seq<TopicSub>) -> Seq<TopicSubView> {
    s.map_values(|x: TopicSub| x@)
}

pub open spec fn srvs_view(s: Seq<ServiceSrv>) -> Seq<ServiceSrvView> {
    s.map_values(|x: ServiceSrv| x@)
}

pub open spec fn clis_view(s: Seq<ServiceCli>) -> Seq<ServiceCliView> {
    s.map_values(|x: ServiceCli| x@)
}

pub open spec fn asrvs_view(s: Seq<ActionSrv>) -> Seq<ActionSrvView> {
    s.map_values(|x: ActionSrv| x@)
}

pub open spec fn aclis_view(s: Seq<ActionCli>) -> Seq<ActionCliView> {
    s.map_values(|x: ActionCli| x@)
}

/// Name-match predicates, shared between transition functions and searches.
pub open spec fn by_pub_name(name: Seq<char>) -> spec_fn(TopicPubView) -> bool {
    |e: TopicPubView| e.name == name
}

pub open spec fn by_sub_name(name: Seq<char>) -> spec_fn(TopicSubView) -> bool {
    |e: TopicSubView| e.name == name
}

pub open spec fn by_srv_name(name: Seq<char>) -> spec_fn(ServiceSrvView) -> bool {
    |e: ServiceSrvView| e.name == name
}

pub open spec fn by_cli_name(name: Seq<char>) -> spec_fn(ServiceCliView) -> bool {
    |e: ServiceCliView| e.name == name
}

pub open spec fn by_asrv_name(name: Seq<char>) -> spec_fn(ActionSrvView) -> bool {
    |e: ActionSrvView| e.name == name
}

pub open spec fn by_acli_name(name: Seq<char>) -> spec_fn(ActionCliView) -> bool {
    |e: ActionCliView| e.name == name
}

/// The interface-layer picture of one node: six interface tables keyed by
/// interface name, and the queues of endpoint identifiers its manifest
/// referenced before discovery delivered them.
pub struct NodeInfo {
    pub fullname: String,
    pub node_name_idx: usize,
    pub participant: Gid,
    pub topic_pub: Vec<TopicPub>,
    pub topic_sub: Vec<TopicSub>,
    pub service_srv: Vec<ServiceSrv>,
    pub service_cli: Vec<ServiceCli>,
    pub action_srv: Vec<ActionSrv>,
    pub action_cli: Vec<ActionCli>,
    pub undiscovered_reader: Vec<Gid>,
    pub undiscovered_writer: Vec<Gid>,
}

/// Ghost image of a node.
#[verifier::ext_equal]
pub struct NodeInfoView {
    pub fullname: Seq<char>,
    pub node_name_idx: int,
    pub participant: Gid,
    pub topic_pub: Seq<TopicPubView>,
    pub topic_sub: Seq<TopicSubView>,
    pub service_srv: Seq<ServiceSrvView>,
    pub service_cli: Seq<ServiceCliView>,
    pub action_srv: Seq<ActionSrvView>,
    pub action_cli: Seq<ActionCliView>,
    pub undiscovered_reader: Seq<Gid>,
    pub undiscovered_writer: Seq<Gid>,
}

impl View for NodeInfo {
    type V = NodeInfoView;

    open spec fn view(&self) -> NodeInfoView {
        NodeInfoView {
            fullname: self.fullname@,
            node_name_idx: self.node_name_idx as int,
            participant: self.participant,
            topic_pub: pubs_view(self.topic_pub@),
            topic_sub: subs_view(self.topic_sub@),
            service_srv: srvs_view(self.service_srv@),
            service_cli: clis_view(self.service_cli@),
            action_srv: asrvs_view(self.action_srv@),
            action_cli: aclis_view(self.action_cli@),
            undiscovered_reader: self.undiscovered_reader@,
            undiscovered_writer: self.undiscovered_writer@,
        }
    }
}

impl NodeInfoView {
    pub open spec fn with_pubs(self, m: Seq<TopicPubView>) -> NodeInfoView {
        NodeInfoView { topic_pub: m, ..self }
    }

    pub open spec fn with_subs(self, m: Seq<TopicSubView>) -> NodeInfoView {
        NodeInfoView { topic_sub: m, ..self }
    }

    pub open spec fn with_srvs(self, m: Seq<ServiceSrvView>) -> NodeInfoView {
        NodeInfoView { service_srv: m, ..self }
    }

    pub open spec fn with_clis(self, m: Seq<ServiceCliView>) -> NodeInfoView {
        NodeInfoView { service_cli: m, ..self }
    }

    pub open spec fn with_asrvs(self, m: Seq<ActionSrvView>) -> NodeInfoView {
        NodeInfoView { action_srv: m, ..self }
    }

    pub open spec fn with_aclis(self, m: Seq<ActionCliView>) -> NodeInfoView {
        NodeInfoView { action_cli: m, ..self }
    }

    /// Well-formedness: the node-name index cuts the full name after the
    /// namespace, and each table is keyed by its interface names.
    pub open spec fn wf(self) -> bool {
        &&& 1 <= self.node_name_idx <= self.fullname.len()
        &&& forall|i: int, j: int|
            0 <= i < j < self.topic_pub.len() ==> self.topic_pub[i].name
                != self.topic_pub[j].name
        &&& forall|i: int, j: int|
            0 <= i < j < self.topic_sub.len() ==> self.topic_sub[i].name
                != self.topic_sub[j].name
        &&& forall|i: int, j: int|
            0 <= i < j < self.service_srv.len() ==> self.service_srv[i].name
                != self.service_srv[j].name
        &&& forall|i: int, j: int|
            0 <= i < j < self.service_cli.len() ==> self.service_cli[i].name
                != self.service_cli[j].name
        &&& forall|i: int, j: int|
            0 <= i < j < self.action_srv.len() ==> self.action_srv[i].name
                != self.action_srv[j].name
        &&& forall|i: int, j: int|
            0 <= i < j < self.action_cli.len() ==> self.action_cli[i].name
                != self.action_cli[j].name
    }
}

/// The discovery rule for publishers: recording an endpoint with a real
/// writer emits an event exactly when the stored record is complete
/// afterwards and it changed — on first sight, or when its type or writer
/// was rewritten.
pub proof fn lemma_topic_pub_event_rule(
    m: Seq<TopicPubView>,
    name: Seq<char>,
    typ: Seq<char>,
    writer: Gid,
)
    requires
        writer != not_discovered_gid(),
    ensures
        ({
            let u = upd_topic_pub_spec(m, name, typ, writer);
            let i = first_where(m, by_pub_name(name));
            let entry = TopicPubView { name, typ, writer };
            u.1 <==> (entry.writer != not_discovered_gid() && (i == m.len() || m[i] != entry))
        }),
{
    lemma_first_where(m, by_pub_name(name));
    let i = first_where(m, by_pub_name(name));
    if i < m.len() {
        assert(m[i].name == name);
    }
}

/// The discovery rule for subscribers.
pub proof fn lemma_topic_sub_event_rule(
    m: Seq<TopicSubView>,
    name: Seq<char>,
    typ: Seq<char>,
    reader: Gid,
)
    requires
        reader != not_discovered_gid(),
    ensures
        ({
            let u = upd_topic_sub_spec(m, name, typ, reader);
            let i = first_where(m, by_sub_name(name));
            let entry = TopicSubView { name, typ, reader };
            u.1 <==> (entry.reader != not_discovered_gid() && (i == m.len() || m[i] != entry))
        }),
{
    lemma_first_where(m, by_sub_name(name));
    let i = first_where(m, by_sub_name(name));
    if i < m.len() {
        assert(m[i].name == name);
    }
}

/// The discovery rule for service servers: recording one endpoint emits an
/// event exactly when the stored record is complete afterwards and it
/// changed.
pub proof fn lemma_service_srv_event_rule(
    m: Seq<ServiceSrvView>,
    name: Seq<char>,
    typ: Seq<char>,
    gid: Gid,
    is_req_reader: bool,
)
    requires
        gid != not_discovered_gid(),
    ensures
        ({
            let u = upd_service_srv_spec(m, name, typ, gid, is_req_reader);
            let i = first_where(m, by_srv_name(name));
            let entry = if i == m.len() {
                u.0[m.len() as int]
            } else {
                u.0[i]
            };
            u.1 <==> (entry.entities.spec_is_complete() && (i == m.len() || m[i] != entry))
        }),
{
    lemma_first_where(m, by_srv_name(name));
    let i = first_where(m, by_srv_name(name));
    if i < m.len() {
        assert(m[i].name == name);
    }
}

/// The discovery rule for service clients.
pub proof fn lemma_service_cli_event_rule(
    m: Seq<ServiceCliView>,
    name: Seq<char>,
    typ: Seq<char>,
    gid: Gid,
    is_rep_reader: bool,
)
    requires
        gid != not_discovered_gid(),
    ensures
        ({
            let u = upd_service_cli_spec(m, name, typ, gid, is_rep_reader);
            let i = first_where(m, by_cli_name(name));
            let entry = if i == m.len() {
                u.0[m.len() as int]
            } else {
                u.0[i]
            };
            u.1 <==> (entry.entities.spec_is_complete() && (i == m.len() || m[i] != entry))
        }),
{
    lemma_first_where(m, by_cli_name(name));
    let i = first_where(m, by_cli_name(name));
    if i < m.len() {
        assert(m[i].name == name);
    }
}

/// The discovery rule for action servers: an event exactly when all six
/// endpoints are present afterwards and the record changed.
pub proof fn lemma_action_srv_event_rule(
    m: Seq<ActionSrvView>,
    name: Seq<char>,
    typ: Option<Seq<char>>,
    gid: Gid,
    slot: ActionSrvSlot,
)
    requires
        gid != not_discovered_gid(),
    ensures
        ({
            let u = upd_action_srv_spec(m, name, typ, gid, slot);
            let i = first_where(m, by_asrv_name(name));
            let entry = if i == m.len() {
                u.0[m.len() as int]
            } else {
                u.0[i]
            };
            u.1 <==> (entry.entities.spec_is_complete() && (i == m.len() || m[i] != entry))
        }),
{
    lemma_first_where(m, by_asrv_name(name));
    let i = first_where(m, by_asrv_name(name));
    if i < m.len() {
        assert(m[i].name == name);
    }
}

/// The discovery rule for action clients.
pub proof fn lemma_action_cli_event_rule(
    m: Seq<ActionCliView>,
    name: Seq<char>,
    typ: Option<Seq<char>>,
    gid: Gid,
    slot: ActionCliSlot,
)
    requires
        gid != not_discovered_gid(),
    ensures
        ({
            let u = upd_action_cli_spec(m, name, typ, gid, slot);
            let i = first_where(m, by_acli_name(name));
            let entry = if i == m.len() {
                u.0[m.len() as int]
            } else {
                u.0[i]
            };
            u.1 <==> (entry.entities.spec_is_complete() && (i == m.len() || m[i] != entry))
        }),
{
    lemma_first_where(m, by_acli_name(name));
    let i = first_where(m, by_acli_name(name));
    if i < m.len() {
        assert(m[i].name == name);
    }
}

/// The full name of a node: namespace and node name joined by `/`, the root
/// namespace contributing only its slash.
pub open spec fn spec_fullname(namespace: Seq<char>, node_name: Seq<char>) -> Seq<char> {
    if namespace == "/"@ {
        "/"@ + node_name
    } else {
        namespace + "/"@ + node_name
    }
}

impl NodeInfoView {
    /// The namespace part of the full name.
    pub open spec fn spec_namespace(self) -> Seq<char> {
        if self.node_name_idx == 1 {
            "/"@
        } else {
            self.fullname.take(self.node_name_idx - 1)
        }
    }

    /// The node-name part of the full name.
    pub open spec fn spec_name(self) -> Seq<char> {
        self.fullname.skip(self.node_name_idx)
    }
}

impl NodeInfo {
    /// Builds an empty node record for `namespace`/`node_name` owned by
    /// `participant`.
    pub fn create(namespace: String, node_name: String, participant: Gid) -> (r: NodeInfo)
        ensures
            r@.wf(),
            r@.fullname == spec_fullname(namespace@, node_name@),
            r@.node_name_idx == r@.fullname.len() - node_name@.len(),
            r@.participant == participant,
            r@.topic_pub.len() == 0,
            r@.topic_sub.len() == 0,
            r@.service_srv.len() == 0,
            r@.service_cli.len() == 0,
            r@.action_srv.len() == 0,
            r@.action_cli.len() == 0,
            r@.undiscovered_reader.len() == 0,
            r@.undiscovered_writer.len() == 0,
    {
        proof {
            reveal_strlit("/");
        }
        let mut fullname = String::new();
        if str_eq(namespace.as_str(), "/") {
            fullname.append("/");
            fullname.append(node_name.as_str());
        } else {
            fullname.append(namespace.as_str());
            fullname.append("/");
            fullname.append(node_name.as_str());
        }
        let flen = fullname.as_str().unicode_len();
        let nlen = node_name.as_str().unicode_len();
        let node_name_idx = flen - nlen;
        let r = NodeInfo {
            fullname,
            node_name_idx,
            participant,
            topic_pub: Vec::new(),
            topic_sub: Vec::new(),
            service_srv: Vec::new(),
            service_cli: Vec::new(),
            action_srv: Vec::new(),
            action_cli: Vec::new(),
            undiscovered_reader: Vec::new(),
            undiscovered_writer: Vec::new(),
        };
        proof {
            assert(pubs_view(Seq::<TopicPub>::empty()).len() == 0);
        }
        r
    }

    /// The namespace the node lives in.
    pub fn namespace(&self) -> (r: &str)
        requires
            self@.wf(),
        ensures
            r@ == self@.spec_namespace(),
    {
        if self.node_name_idx == 1 {
            "/"
        } else {
            self.fullname.as_str().substring_char(0, self.node_name_idx - 1)
        }
    }

    /// The node's own name, without the namespace.
    pub fn name(&self) -> (r: &str)
        requires
            self@.wf(),
        ensures
            r@ == self@.spec_name(),
    {
        self.fullname.as_str().substring_char(
            self.node_name_idx,
            self.fullname.as_str().unicode_len(),
        )
    }
}

/// The writer slot an action-server endpoint fills.
#[derive(Clone, Copy, PartialEq, Eq, Structural, Debug)]
pub enum ActionSrvSlot {
    SendGoalReqReader,
    SendGoalRepWriter,
    CancelReqReader,
    CancelRepWriter,
    ResultReqReader,
    ResultRepWriter,
    StatusWriter,
    FeedbackWriter,
}

/// The slot an action-client endpoint fills.
#[derive(Clone, Copy, PartialEq, Eq, Structural, Debug)]
pub enum ActionCliSlot {
    SendGoalReqWriter,
    SendGoalRepReader,
    CancelReqWriter,
    CancelRepReader,
    ResultReqWriter,
    ResultRepReader,
    StatusReader,
    FeedbackReader,
}

/// Entities of a service server with one slot replaced.
pub open spec fn srv_slot_set(e: ServiceSrvEntities, is_req_reader: bool, gid: Gid) -> ServiceSrvEntities {
    if is_req_reader {
        ServiceSrvEntities { req_reader: gid, ..e }
    } else {
        ServiceSrvEntities { rep_writer: gid, ..e }
    }
}

/// Entities of a service client with one slot replaced.
pub open spec fn cli_slot_set(e: ServiceCliEntities, is_rep_reader: bool, gid: Gid) -> ServiceCliEntities {
    if is_rep_reader {
        ServiceCliEntities { rep_reader: gid, ..e }
    } else {
        ServiceCliEntities { req_writer: gid, ..e }
    }
}

/// Entities of an action server with one slot replaced.
pub open spec fn asrv_slot_set(e: ActionSrvEntities, slot: ActionSrvSlot, gid: Gid) -> ActionSrvEntities {
    match slot {
        ActionSrvSlot::SendGoalReqReader => ActionSrvEntities {
            send_goal: ServiceSrvEntities { req_reader: gid, ..e.send_goal },
            ..e
        },
        ActionSrvSlot::SendGoalRepWriter => ActionSrvEntities {
            send_goal: ServiceSrvEntities { rep_writer: gid, ..e.send_goal },
            ..e
        },
        ActionSrvSlot::CancelReqReader => ActionSrvEntities {
            cancel_goal: ServiceSrvEntities { req_reader: gid, ..e.cancel_goal },
            ..e
        },
        ActionSrvSlot::CancelRepWriter => ActionSrvEntities {
            cancel_goal: ServiceSrvEntities { rep_writer: gid, ..e.cancel_goal },
            ..e
        },
        ActionSrvSlot::ResultReqReader => ActionSrvEntities {
            get_result: ServiceSrvEntities { req_reader: gid, ..e.get_result },
            ..e
        },
        ActionSrvSlot::ResultRepWriter => ActionSrvEntities {
            get_result: ServiceSrvEntities { rep_writer: gid, ..e.get_result },
            ..e
        },
        ActionSrvSlot::StatusWriter => ActionSrvEntities { status_writer: gid, ..e },
        ActionSrvSlot::FeedbackWriter => ActionSrvEntities { feedback_writer: gid, ..e },
    }
}

/// Entities of an action client with one slot replaced.
pub open spec fn acli_slot_set(e: ActionCliEntities, slot: ActionCliSlot, gid: Gid) -> ActionCliEntities {
    match slot {
        ActionCliSlot::SendGoalReqWriter => ActionCliEntities {
            send_goal: ServiceCliEntities { req_writer: gid, ..e.send_goal },
            ..e
        },
        ActionCliSlot::SendGoalRepReader => ActionCliEntities {
            send_goal: ServiceCliEntities { rep_reader: gid, ..e.send_goal },
            ..e
        },
        ActionCliSlot::CancelReqWriter => ActionCliEntities {
            cancel_goal: ServiceCliEntities { req_writer: gid, ..e.cancel_goal },
            ..e
        },
        ActionCliSlot::CancelRepReader => ActionCliEntities {
            cancel_goal: ServiceCliEntities { rep_reader: gid, ..e.cancel_goal },
            ..e
        },
        ActionCliSlot::ResultReqWriter => ActionCliEntities {
            get_result: ServiceCliEntities { req_writer: gid, ..e.get_result },
            ..e
        },
        ActionCliSlot::ResultRepReader => ActionCliEntities {
            get_result: ServiceCliEntities { rep_reader: gid, ..e.get_result },
            ..e
        },
        ActionCliSlot::StatusReader => ActionCliEntities { status_reader: gid, ..e },
        ActionCliSlot::FeedbackReader => ActionCliEntities { feedback_reader: gid, ..e },
    }
}

/// The publisher table after recording `name`/`typ`/`writer`, and whether a
/// discovery event fires: on first sight, or on any field change.
pub open spec fn upd_topic_pub_spec(
    m: Seq<TopicPubView>,
    name: Seq<char>,
    typ: Seq<char>,
    writer: Gid,
) -> (Seq<TopicPubView>, bool) {
    let i = first_where(m, by_pub_name(name));
    let entry = TopicPubView { name, typ, writer };
    if i == m.len() {
        (m.push(entry), true)
    } else {
        (m.update(i, entry), m[i].typ != typ || m[i].writer != writer)
    }
}

/// The subscriber table after recording `name`/`typ`/`reader`, and whether a
/// discovery event fires.
pub open spec fn upd_topic_sub_spec(
    m: Seq<TopicSubView>,
    name: Seq<char>,
    typ: Seq<char>,
    reader: Gid,
) -> (Seq<TopicSubView>, bool) {
    let i = first_where(m, by_sub_name(name));
    let entry = TopicSubView { name, typ, reader };
    if i == m.len() {
        (m.push(entry), true)
    } else {
        (m.update(i, entry), m[i].typ != typ || m[i].reader != reader)
    }
}

/// The service-server table after recording one endpoint, and whether a
/// discovery event fires: only when a field changed and the server is
/// complete afterwards.
pub open spec fn upd_service_srv_spec(
    m: Seq<ServiceSrvView>,
    name: Seq<char>,
    typ: Seq<char>,
    gid: Gid,
    is_req_reader: bool,
) -> (Seq<ServiceSrvView>, bool) {
    let i = first_where(m, by_srv_name(name));
    if i == m.len() {
        let ents = srv_slot_set(
            ServiceSrvEntities {
                req_reader: not_discovered_gid(),
                rep_writer: not_discovered_gid(),
            },
            is_req_reader,
            gid,
        );
        (m.push(ServiceSrvView { name, typ, entities: ents }), false)
    } else {
        let ents = srv_slot_set(m[i].entities, is_req_reader, gid);
        let changed = m[i].typ != typ || m[i].entities != ents;
        (
            m.update(i, ServiceSrvView { name, typ, entities: ents }),
            changed && ents.spec_is_complete(),
        )
    }
}

/// The service-client table after recording one endpoint, and whether a
/// discovery event fires.
pub open spec fn upd_service_cli_spec(
    m: Seq<ServiceCliView>,
    name: Seq<char>,
    typ: Seq<char>,
    gid: Gid,
    is_rep_reader: bool,
) -> (Seq<ServiceCliView>, bool) {
    let i = first_where(m, by_cli_name(name));
    if i == m.len() {
        let ents = cli_slot_set(
            ServiceCliEntities {
                req_writer: not_discovered_gid(),
                rep_reader: not_discovered_gid(),
            },
            is_rep_reader,
            gid,
        );
        (m.push(ServiceCliView { name, typ, entities: ents }), false)
    } else {
        let ents = cli_slot_set(m[i].entities, is_rep_reader, gid);
        let changed = m[i].typ != typ || m[i].entities != ents;
        (
            m.update(i, ServiceCliView { name, typ, entities: ents }),
            changed && ents.spec_is_complete(),
        )
    }
}

/// The action-server table after recording one endpoint into `slot`; the
/// cancel and status slots never carry a type. A discovery event fires only
/// when a field changed and the server is complete afterwards.
pub open spec fn upd_action_srv_spec(
    m: Seq<ActionSrvView>,
    name: Seq<char>,
    typ: Option<Seq<char>>,
    gid: Gid,
    slot: ActionSrvSlot,
) -> (Seq<ActionSrvView>, bool) {
    let i = first_where(m, by_asrv_name(name));
    if i == m.len() {
        let typ0 = match typ {
            Some(t) => t,
            None => Seq::empty(),
        };
        let ents = asrv_slot_set(ActionSrvEntities::default_spec(), slot, gid);
        (m.push(ActionSrvView { name, typ: typ0, entities: ents }), false)
    } else {
        let new_typ = match typ {
            Some(t) => t,
            None => m[i].typ,
        };
        let ents = asrv_slot_set(m[i].entities, slot, gid);
        let changed = m[i].typ != new_typ || m[i].entities != ents;
        (
            m.update(i, ActionSrvView { name, typ: new_typ, entities: ents }),
            changed && ents.spec_is_complete(),
        )
    }
}

/// The action-client table after recording one endpoint into `slot`.
pub open spec fn upd_action_cli_spec(
    m: Seq<ActionCliView>,
    name: Seq<char>,
    typ: Option<Seq<char>>,
    gid: Gid,
    slot: ActionCliSlot,
) -> (Seq<ActionCliView>, bool) {
    let i = first_where(m, by_acli_name(name));
    if i == m.len() {
        let typ0 = match typ {
            Some(t) => t,
            None => Seq::empty(),
        };
        let ents = acli_slot_set(ActionCliEntities::default_spec(), slot, gid);
        (m.push(ActionCliView { name, typ: typ0, entities: ents }), false)
    } else {
        let new_typ = match typ {
            Some(t) => t,
            None => m[i].typ,
        };
        let ents = acli_slot_set(m[i].entities, slot, gid);
        let changed = m[i].typ != new_typ || m[i].entities != ents;
        (
            m.update(i, ActionCliView { name, typ: new_typ, entities: ents }),
            changed && ents.spec_is_complete(),
        )
    }
}

fn find_pub(v: &Vec<TopicPub>, name: &str) -> (i: usize)
    ensures
        i as int == first_where(pubs_view(v@), by_pub_name(name@)),
        i <= v@.len(),
        i < v@.len() ==> v@[i as int]@.name == name@,
        forall|j: int| 0 <= j < i ==> v@[j]@.name != name@,
{
    let n = v.len();
    let mut i: usize = 0;
    while i < n
        invariant
            i <= n,
            n == v@.len(),
            forall|j: int| 0 <= j < i ==> v@[j]@.name != name@,
        decreases n - i,
    {
        if str_eq(v[i].name.as_str(), name) {
            proof {
                assert(forall|j: int| 0 <= j < n ==> pubs_view(v@)[j] == v@[j]@);
                lemma_first_where_is(pubs_view(v@), by_pub_name(name@), i as int);
            }
            return i;
        }
        i += 1;
    }
    proof {
        assert(forall|j: int| 0 <= j < n ==> pubs_view(v@)[j] == v@[j]@);
        lemma_first_where_none(pubs_view(v@), by_pub_name(name@));
    }
    n
}

fn find_sub(v: &Vec<TopicSub>, name: &str) -> (i: usize)
    ensures
        i as int == first_where(subs_view(v@), by_sub_name(name@)),
        i <= v@.len(),
        i < v@.len() ==> v@[i as int]@.name == name@,
        forall|j: int| 0 <= j < i ==> v@[j]@.name != name@,
{
    let n = v.len();
    let mut i: usize = 0;
    while i < n
        invariant
            i <= n,
            n == v@.len(),
            forall|j: int| 0 <= j < i ==> v@[j]@.name != name@,
        decreases n - i,
    {
        if str_eq(v[i].name.as_str(), name) {
            proof {
                assert(forall|j: int| 0 <= j < n ==> subs_view(v@)[j] == v@[j]@);
                lemma_first_where_is(subs_view(v@), by_sub_name(name@), i as int);
            }
            return i;
        }
        i += 1;
    }
    proof {
        assert(forall|j: int| 0 <= j < n ==> subs_view(v@)[j] == v@[j]@);
        lemma_first_where_none(subs_view(v@), by_sub_name(name@));
    }
    n
}

fn find_srv(v: &Vec<ServiceSrv>, name: &str) -> (i: usize)
    ensures
        i as int == first_where(srvs_view(v@), by_srv_name(name@)),
        i <= v@.len(),
        i < v@.len() ==> v@[i as int]@.name == name@,
        forall|j: int| 0 <= j < i ==> v@[j]@.name != name@,
{
    let n = v.len();
    let mut i: usize = 0;
    while i < n
        invariant
            i <= n,
            n == v@.len(),
            forall|j: int| 0 <= j < i ==> v@[j]@.name != name@,
        decreases n - i,
    {
        if str_eq(v[i].name.as_str(), name) {
            proof {
                assert(forall|j: int| 0 <= j < n ==> srvs_view(v@)[j] == v@[j]@);
                lemma_first_where_is(srvs_view(v@), by_srv_name(name@), i as int);
            }
            return i;
        }
        i += 1;
    }
    proof {
        assert(forall|j: int| 0 <= j < n ==> srvs_view(v@)[j] == v@[j]@);
        lemma_first_where_none(srvs_view(v@), by_srv_name(name@));
    }
    n
}

fn find_cli(v: &Vec<ServiceCli>, name: &str) -> (i: usize)
    ensures
        i as int == first_where(clis_view(v@), by_cli_name(name@)),
        i <= v@.len(),
        i < v@.len() ==> v@[i as int]@.name == name@,
        forall|j: int| 0 <= j < i ==> v@[j]@.name != name@,
{
    let n = v.len();
    let mut i: usize = 0;
    while i < n
        invariant
            i <= n,
            n == v@.len(),
            forall|j: int| 0 <= j < i ==> v@[j]@.name != name@,
        decreases n - i,
    {
        if str_eq(v[i].name.as_str(), name) {
            proof {
                assert(forall|j: int| 0 <= j < n ==> clis_view(v@)[j] == v@[j]@);
                lemma_first_where_is(clis_view(v@), by_cli_name(name@), i as int);
            }
            return i;
        }
        i += 1;
    }
    proof {
        assert(forall|j: int| 0 <= j < n ==> clis_view(v@)[j] == v@[j]@);
        lemma_first_where_none(clis_view(v@), by_cli_name(name@));
    }
    n
}

fn find_asrv(v: &Vec<ActionSrv>, name: &str) -> (i: usize)
    ensures
        i as int == first_where(asrvs_view(v@), by_asrv_name(name@)),
        i <= v@.len(),
        i < v@.len() ==> v@[i as int]@.name == name@,
        forall|j: int| 0 <= j < i ==> v@[j]@.name != name@,
{
    let n = v.len();
    let mut i: usize = 0;
    while i < n
        invariant
            i <= n,
            n == v@.len(),
            forall|j: int| 0 <= j < i ==> v@[j]@.name != name@,
        decreases n - i,
    {
        if str_eq(v[i].name.as_str(), name) {
            proof {
                assert(forall|j: int| 0 <= j < n ==> asrvs_view(v@)[j] == v@[j]@);
                lemma_first_where_is(asrvs_view(v@), by_asrv_name(name@), i as int);
            }
            return i;
        }
        i += 1;
    }
    proof {
        assert(forall|j: int| 0 <= j < n ==> asrvs_view(v@)[j] == v@[j]@);
        lemma_first_where_none(asrvs_view(v@), by_asrv_name(name@));
    }
    n
}

fn find_acli(v: &Vec<ActionCli>, name: &str) -> (i: usize)
    ensures
        i as int == first_where(aclis_view(v@), by_acli_name(name@)),
        i <= v@.len(),
        i < v@.len() ==> v@[i as int]@.name == name@,
        forall|j: int| 0 <= j < i ==> v@[j]@.name != name@,
{
    let n = v.len();
    let mut i: usize = 0;
    while i < n
        invariant
            i <= n,
            n == v@.len(),
            forall|j: int| 0 <= j < i ==> v@[j]@.name != name@,
        decreases n - i,
    {
        if str_eq(v[i].name.as_str(), name) {
            proof {
                assert(forall|j: int| 0 <= j < n ==> aclis_view(v@)[j] == v@[j]@);
                lemma_first_where_is(aclis_view(v@), by_acli_name(name@), i as int);
            }
            return i;
        }
        i += 1;
    }
    proof {
        assert(forall|j: int| 0 <= j < n ==> aclis_view(v@)[j] == v@[j]@);
        lemma_first_where_none(aclis_view(v@), by_acli_name(name@));
    }
    n
}

fn srv_slot_set_exec(e: ServiceSrvEntities, is_req_reader: bool, gid: Gid) -> (r: ServiceSrvEntities)
    ensures
        r == srv_slot_set(e, is_req_reader, gid),
{
    if is_req_reader {
        ServiceSrvEntities { req_reader: gid, ..e }
    } else {
        ServiceSrvEntities { rep_writer: gid, ..e }
    }
}

fn cli_slot_set_exec(e: ServiceCliEntities, is_rep_reader: bool, gid: Gid) -> (r: ServiceCliEntities)
    ensures
        r == cli_slot_set(e, is_rep_reader, gid),
{
    if is_rep_reader {
        ServiceCliEntities { rep_reader: gid, ..e }
    } else {
        ServiceCliEntities { req_writer: gid, ..e }
    }
}

fn asrv_slot_set_exec(e: ActionSrvEntities, slot: ActionSrvSlot, gid: Gid) -> (r: ActionSrvEntities)
    ensures
        r == asrv_slot_set(e, slot, gid),
{
    match slot {
        ActionSrvSlot::SendGoalReqReader => ActionSrvEntities {
            send_goal: ServiceSrvEntities { req_reader: gid, ..e.send_goal },
            ..e
        },
        ActionSrvSlot::SendGoalRepWriter => ActionSrvEntities {
            send_goal: ServiceSrvEntities { rep_writer: gid, ..e.send_goal },
            ..e
        },
        ActionSrvSlot::CancelReqReader => ActionSrvEntities {
            cancel_goal: ServiceSrvEntities { req_reader: gid, ..e.cancel_goal },
            ..e
        },
        ActionSrvSlot::CancelRepWriter => ActionSrvEntities {
            cancel_goal: ServiceSrvEntities { rep_writer: gid, ..e.cancel_goal },
            ..e
        },
        ActionSrvSlot::ResultReqReader => ActionSrvEntities {
            get_result: ServiceSrvEntities { req_reader: gid, ..e.get_result },
            ..e
        },
        ActionSrvSlot::ResultRepWriter => ActionSrvEntities {
            get_result: ServiceSrvEntities { rep_writer: gid, ..e.get_result },
            ..e
        },
        ActionSrvSlot::StatusWriter => ActionSrvEntities { status_writer: gid, ..e },
        ActionSrvSlot::FeedbackWriter => ActionSrvEntities { feedback_writer: gid, ..e },
    }
}

fn acli_slot_set_exec(e: ActionCliEntities, slot: ActionCliSlot, gid: Gid) -> (r: ActionCliEntities)
    ensures
        r == acli_slot_set(e, slot, gid),
{
    match slot {
        ActionCliSlot::SendGoalReqWriter => ActionCliEntities {
            send_goal: ServiceCliEntities { req_writer: gid, ..e.send_goal },
            ..e
        },
        ActionCliSlot::SendGoalRepReader => ActionCliEntities {
            send_goal: ServiceCliEntities { rep_reader: gid, ..e.send_goal },
            ..e
        },
        ActionCliSlot::CancelReqWriter => ActionCliEntities {
            cancel_goal: ServiceCliEntities { req_writer: gid, ..e.cancel_goal },
            ..e
        },
        ActionCliSlot::CancelRepReader => ActionCliEntities {
            cancel_goal: ServiceCliEntities { rep_reader: gid, ..e.cancel_goal },
            ..e
        },
        ActionCliSlot::ResultReqWriter => ActionCliEntities {
            get_result: ServiceCliEntities { req_writer: gid, ..e.get_result },
            ..e
        },
        ActionCliSlot::ResultRepReader => ActionCliEntities {
            get_result: ServiceCliEntities { rep_reader: gid, ..e.get_result },
            ..e
        },
        ActionCliSlot::StatusReader => ActionCliEntities { status_reader: gid, ..e },
        ActionCliSlot::FeedbackReader => ActionCliEntities { feedback_reader: gid, ..e },
    }
}

impl NodeInfo {
    /// Records a publisher endpoint under `name`, emitting a discovery
    /// event on first sight or on any field change.
    fn update_topic_pub(&mut self, name: &str, typ: String, writer: Gid) -> (r: Option<
        ROS2DiscoveryEvent,
    >)
        requires
            old(self)@.wf(),
        ensures
            final(self)@.wf(),
            final(self)@ == old(self)@.with_pubs(
                upd_topic_pub_spec(old(self)@.topic_pub, name@, typ@, writer).0,
            ),
            match r {
                Some(e) => upd_topic_pub_spec(old(self)@.topic_pub, name@, typ@, writer).1 && e@
                    == EventView::DiscoveredTopicPub(
                    old(self)@.fullname,
                    TopicPubView { name: name@, typ: typ@, writer },
                ),
                None => !upd_topic_pub_spec(old(self)@.topic_pub, name@, typ@, writer).1,
            },
    {
        let ghost m0 = pubs_view(self.topic_pub@);
        let ghost entryv = TopicPubView { name: name@, typ: typ@, writer };
        let i = find_pub(&self.topic_pub, name);
        proof {
            lemma_first_where(m0, by_pub_name(name@));
        }
        if i == self.topic_pub.len() {
            let ev = ROS2DiscoveryEvent::DiscoveredTopicPub(
                self.fullname.clone(),
                TopicPub { name: name.to_owned(), typ: typ.clone(), writer },
            );
            self.topic_pub.push(TopicPub { name: name.to_owned(), typ, writer });
            proof {
                assert(pubs_view(self.topic_pub@) =~= m0.push(entryv));
                assert(final(self)@ =~= old(self)@.with_pubs(m0.push(entryv)));
                assert forall|a: int, b: int|
                    0 <= a < b < m0.push(entryv).len() implies m0.push(entryv)[a].name != m0.push(
                    entryv,
                )[b].name by {
                    if b == m0.len() {
                        assert(m0[a] == old(self).topic_pub@[a]@);
                    } else {
                        assert(old(self)@.topic_pub[a].name != old(self)@.topic_pub[b].name);
                    }
                }
            }
            Some(ev)
        } else {
            let changed = !str_eq(self.topic_pub[i].typ.as_str(), typ.as_str())
                || self.topic_pub[i].writer != writer;
            self.topic_pub.set(i, TopicPub { name: name.to_owned(), typ: typ.clone(), writer });
            proof {
                assert(m0[i as int] == old(self).topic_pub@[i as int]@);
                assert(entryv.name == m0[i as int].name);
                assert(pubs_view(self.topic_pub@) =~= m0.update(i as int, entryv));
                assert(final(self)@ =~= old(self)@.with_pubs(m0.update(i as int, entryv)));
                assert forall|a: int, b: int|
                    0 <= a < b < m0.update(i as int, entryv).len() implies m0.update(
                    i as int,
                    entryv,
                )[a].name != m0.update(i as int, entryv)[b].name by {
                    assert(old(self)@.topic_pub[a].name != old(self)@.topic_pub[b].name);
                    assert(m0.update(i as int, entryv)[a].name == m0[a].name);
                    assert(m0.update(i as int, entryv)[b].name == m0[b].name);
                }
            }
            if changed {
                Some(
                    ROS2DiscoveryEvent::DiscoveredTopicPub(
                        self.fullname.clone(),
                        TopicPub { name: name.to_owned(), typ, writer },
                    ),
                )
            } else {
                None
            }
        }
    }

    /// Records a subscriber endpoint under `name`.
    fn update_topic_sub(&mut self, name: &str, typ: String, reader: Gid) -> (r: Option<
        ROS2DiscoveryEvent,
    >)
        requires
            old(self)@.wf(),
        ensures
            final(self)@.wf(),
            final(self)@ == old(self)@.with_subs(
                upd_topic_sub_spec(old(self)@.topic_sub, name@, typ@, reader).0,
            ),
            match r {
                Some(e) => upd_topic_sub_spec(old(self)@.topic_sub, name@, typ@, reader).1 && e@
                    == EventView::DiscoveredTopicSub(
                    old(self)@.fullname,
                    TopicSubView { name: name@, typ: typ@, reader },
                ),
                None => !upd_topic_sub_spec(old(self)@.topic_sub, name@, typ@, reader).1,
            },
    {
        let ghost m0 = subs_view(self.topic_sub@);
        let ghost entryv = TopicSubView { name: name@, typ: typ@, reader };
        let i = find_sub(&self.topic_sub, name);
        proof {
            lemma_first_where(m0, by_sub_name(name@));
        }
        if i == self.topic_sub.len() {
            let ev = ROS2DiscoveryEvent::DiscoveredTopicSub(
                self.fullname.clone(),
                TopicSub { name: name.to_owned(), typ: typ.clone(), reader },
            );
            self.topic_sub.push(TopicSub { name: name.to_owned(), typ, reader });
            proof {
                assert(subs_view(self.topic_sub@) =~= m0.push(entryv));
                assert(final(self)@ =~= old(self)@.with_subs(m0.push(entryv)));
                assert forall|a: int, b: int|
                    0 <= a < b < m0.push(entryv).len() implies m0.push(entryv)[a].name != m0.push(
                    entryv,
                )[b].name by {
                    if b == m0.len() {
                        assert(m0[a] == old(self).topic_sub@[a]@);
                    } else {
                        assert(old(self)@.topic_sub[a].name != old(self)@.topic_sub[b].name);
                    }
                }
            }
            Some(ev)
        } else {
            let changed = !str_eq(self.topic_sub[i].typ.as_str(), typ.as_str())
                || self.topic_sub[i].reader != reader;
            self.topic_sub.set(i, TopicSub { name: name.to_owned(), typ: typ.clone(), reader });
            proof {
                assert(m0[i as int] == old(self).topic_sub@[i as int]@);
                assert(entryv.name == m0[i as int].name);
                assert(subs_view(self.topic_sub@) =~= m0.update(i as int, entryv));
                assert(final(self)@ =~= old(self)@.with_subs(m0.update(i as int, entryv)));
                assert forall|a: int, b: int|
                    0 <= a < b < m0.update(i as int, entryv).len() implies m0.update(
                    i as int,
                    entryv,
                )[a].name != m0.update(i as int, entryv)[b].name by {
                    assert(old(self)@.topic_sub[a].name != old(self)@.topic_sub[b].name);
                    assert(m0.update(i as int, entryv)[a].name == m0[a].name);
                    assert(m0.update(i as int, entryv)[b].name == m0[b].name);
                }
            }
            if changed {
                Some(
                    ROS2DiscoveryEvent::DiscoveredTopicSub(
                        self.fullname.clone(),
                        TopicSub { name: name.to_owned(), typ, reader },
                    ),
                )
            } else {
                None
            }
        }
    }

    /// Records one endpoint of a service server under `name`.
    fn update_service_srv(&mut self, name: &str, typ: String, gid: Gid, is_req_reader: bool) -> (r:
        Option<ROS2DiscoveryEvent>)
        requires
            old(self)@.wf(),
        ensures
            final(self)@.wf(),
            final(self)@ == old(self)@.with_srvs(
                upd_service_srv_spec(old(self)@.service_srv, name@, typ@, gid, is_req_reader).0,
            ),
            match r {
                Some(e) => upd_service_srv_spec(
                    old(self)@.service_srv,
                    name@,
                    typ@,
                    gid,
                    is_req_reader,
                ).1 && e@ == EventView::DiscoveredServiceSrv(
                    old(self)@.fullname,
                    upd_service_srv_spec(
                        old(self)@.service_srv,
                        name@,
                        typ@,
                        gid,
                        is_req_reader,
                    ).0[first_where(old(self)@.service_srv, by_srv_name(name@))],
                ),
                None => !upd_service_srv_spec(
                    old(self)@.service_srv,
                    name@,
                    typ@,
                    gid,
                    is_req_reader,
                ).1,
            },
    {
        let ghost m0 = srvs_view(self.service_srv@);
        let i = find_srv(&self.service_srv, name);
        proof {
            lemma_first_where(m0, by_srv_name(name@));
        }
        if i == self.service_srv.len() {
            let ents = srv_slot_set_exec(ServiceSrvEntities::default(), is_req_reader, gid);
            self.service_srv.push(ServiceSrv { name: name.to_owned(), typ, entities: ents });
            proof {
                let entryv = ServiceSrvView { name: name@, typ: typ@, entities: ents };
                assert(srvs_view(self.service_srv@) =~= m0.push(entryv));
                assert(final(self)@ =~= old(self)@.with_srvs(m0.push(entryv)));
                assert forall|a: int, b: int|
                    0 <= a < b < m0.push(entryv).len() implies m0.push(entryv)[a].name != m0.push(
                    entryv,
                )[b].name by {
                    if b == m0.len() {
                        assert(!by_srv_name(name@)(m0[a]));
                    }
                }
            }
            None
        } else {
            let ents = srv_slot_set_exec(self.service_srv[i].entities, is_req_reader, gid);
            let changed = !str_eq(self.service_srv[i].typ.as_str(), typ.as_str())
                || self.service_srv[i].entities != ents;
            let fire = changed && ents.is_complete();
            self.service_srv.set(
                i,
                ServiceSrv { name: name.to_owned(), typ: typ.clone(), entities: ents },
            );
            proof {
                let entryv = ServiceSrvView { name: name@, typ: typ@, entities: ents };
                assert(by_srv_name(name@)(m0[i as int]));
                assert(srvs_view(self.service_srv@) =~= m0.update(i as int, entryv));
                assert(final(self)@ =~= old(self)@.with_srvs(m0.update(i as int, entryv)));
                assert forall|a: int, b: int|
                    0 <= a < b < m0.update(i as int, entryv).len() implies m0.update(
                    i as int,
                    entryv,
                )[a].name != m0.update(i as int, entryv)[b].name by {
                    assert(m0.update(i as int, entryv)[a].name == m0[a].name);
                    assert(m0.update(i as int, entryv)[b].name == m0[b].name);
                }
            }
            if fire {
                Some(
                    ROS2DiscoveryEvent::DiscoveredServiceSrv(
                        self.fullname.clone(),
                        ServiceSrv { name: name.to_owned(), typ, entities: ents },
                    ),
                )
            } else {
                None
            }
        }
    }

    /// Records one endpoint of a service client under `name`.
    fn update_service_cli(&mut self, name: &str, typ: String, gid: Gid, is_rep_reader: bool) -> (r:
        Option<ROS2DiscoveryEvent>)
        requires
            old(self)@.wf(),
        ensures
            final(self)@.wf(),
            final(self)@ == old(self)@.with_clis(
                upd_service_cli_spec(old(self)@.service_cli, name@, typ@, gid, is_rep_reader).0,
            ),
            match r {
                Some(e) => upd_service_cli_spec(
                    old(self)@.service_cli,
                    name@,
                    typ@,
                    gid,
                    is_rep_reader,
                ).1 && e@ == EventView::DiscoveredServiceCli(
                    old(self)@.fullname,
                    upd_service_cli_spec(
                        old(self)@.service_cli,
                        name@,
                        typ@,
                        gid,
                        is_rep_reader,
                    ).0[first_where(old(self)@.service_cli, by_cli_name(name@))],
                ),
                None => !upd_service_cli_spec(
                    old(self)@.service_cli,
                    name@,
                    typ@,
                    gid,
                    is_rep_reader,
                ).1,
            },
    {
        let ghost m0 = clis_view(self.service_cli@);
        let i = find_cli(&self.service_cli, name);
        proof {
            lemma_first_where(m0, by_cli_name(name@));
        }
        if i == self.service_cli.len() {
            let ents = cli_slot_set_exec(ServiceCliEntities::default(), is_rep_reader, gid);
            self.service_cli.push(ServiceCli { name: name.to_owned(), typ, entities: ents });
            proof {
                let entryv = ServiceCliView { name: name@, typ: typ@, entities: ents };
                assert(clis_view(self.service_cli@) =~= m0.push(entryv));
                assert(final(self)@ =~= old(self)@.with_clis(m0.push(entryv)));
                assert forall|a: int, b: int|
                    0 <= a < b < m0.push(entryv).len() implies m0.push(entryv)[a].name != m0.push(
                    entryv,
                )[b].name by {
                    if b == m0.len() {
                        assert(!by_cli_name(name@)(m0[a]));
                    }
                }
            }
            None
        } else {
            let ents = cli_slot_set_exec(self.service_cli[i].entities, is_rep_reader, gid);
            let changed = !str_eq(self.service_cli[i].typ.as_str(), typ.as_str())
                || self.service_cli[i].entities != ents;
            let fire = changed && ents.is_complete();
            self.service_cli.set(
                i,
                ServiceCli { name: name.to_owned(), typ: typ.clone(), entities: ents },
            );
            proof {
                let entryv = ServiceCliView { name: name@, typ: typ@, entities: ents };
                assert(by_cli_name(name@)(m0[i as int]));
                assert(clis_view(self.service_cli@) =~= m0.update(i as int, entryv));
                assert(final(self)@ =~= old(self)@.with_clis(m0.update(i as int, entryv)));
                assert forall|a: int, b: int|
                    0 <= a < b < m0.update(i as int, entryv).len() implies m0.update(
                    i as int,
                    entryv,
                )[a].name != m0.update(i as int, entryv)[b].name by {
                    assert(m0.update(i as int, entryv)[a].name == m0[a].name);
                    assert(m0.update(i as int, entryv)[b].name == m0[b].name);
                }
            }
            if fire {
                Some(
                    ROS2DiscoveryEvent::DiscoveredServiceCli(
                        self.fullname.clone(),
                        ServiceCli { name: name.to_owned(), typ, entities: ents },
                    ),
                )
            } else {
                None
            }
        }
    }

    /// Records one endpoint of an action server into `slot` under `name`;
    /// `typ` is absent for the cancel and status streams, whose types never
    /// constrain the action type.
    fn update_action_srv(
        &mut self,
        name: &str,
        typ: Option<String>,
        gid: Gid,
        slot: ActionSrvSlot,
    ) -> (r: Option<ROS2DiscoveryEvent>)
        requires
            old(self)@.wf(),
        ensures
            final(self)@.wf(),
            final(self)@ == old(self)@.with_asrvs(
                upd_action_srv_spec(
                    old(self)@.action_srv,
                    name@,
                    typ_view(typ),
                    gid,
                    slot,
                ).0,
            ),
            match r {
                Some(e) => upd_action_srv_spec(
                    old(self)@.action_srv,
                    name@,
                    typ_view(typ),
                    gid,
                    slot,
                ).1 && e@ == EventView::DiscoveredActionSrv(
                    old(self)@.fullname,
                    upd_action_srv_spec(
                        old(self)@.action_srv,
                        name@,
                        typ_view(typ),
                        gid,
                        slot,
                    ).0[first_where(old(self)@.action_srv, by_asrv_name(name@))],
                ),
                None => !upd_action_srv_spec(
                    old(self)@.action_srv,
                    name@,
                    typ_view(typ),
                    gid,
                    slot,
                ).1,
            },
    {
        let ghost m0 = asrvs_view(self.action_srv@);
        let i = find_asrv(&self.action_srv, name);
        proof {
            lemma_first_where(m0, by_asrv_name(name@));
        }
        if i == self.action_srv.len() {
            let ghost tv = typ_view(typ);
            let typ0 = match typ {
                Some(t) => t,
                None => String::new(),
            };
            let ents = asrv_slot_set_exec(ActionSrvEntities::default(), slot, gid);
            self.action_srv.push(ActionSrv { name: name.to_owned(), typ: typ0, entities: ents });
            proof {
                let entryv = ActionSrvView {
                    name: name@,
                    typ: match tv {
                        Some(t) => t,
                        None => Seq::empty(),
                    },
                    entities: ents,
                };
                assert(asrvs_view(self.action_srv@) =~= m0.push(entryv));
                assert(final(self)@ =~= old(self)@.with_asrvs(m0.push(entryv)));
                assert forall|a: int, b: int|
                    0 <= a < b < m0.push(entryv).len() implies m0.push(entryv)[a].name != m0.push(
                    entryv,
                )[b].name by {
                    if b == m0.len() {
                        assert(!by_asrv_name(name@)(m0[a]));
                    }
                }
            }
            None
        } else {
            let new_typ = match &typ {
                Some(t) => t.clone(),
                None => self.action_srv[i].typ.clone(),
            };
            let ents = asrv_slot_set_exec(self.action_srv[i].entities, slot, gid);
            let changed = !str_eq(self.action_srv[i].typ.as_str(), new_typ.as_str())
                || self.action_srv[i].entities != ents;
            let fire = changed && ents.is_complete();
            self.action_srv.set(
                i,
                ActionSrv { name: name.to_owned(), typ: new_typ.clone(), entities: ents },
            );
            proof {
                let entryv = ActionSrvView { name: name@, typ: new_typ@, entities: ents };
                assert(by_asrv_name(name@)(m0[i as int]));
                assert(asrvs_view(self.action_srv@) =~= m0.update(i as int, entryv));
                assert(final(self)@ =~= old(self)@.with_asrvs(m0.update(i as int, entryv)));
                assert forall|a: int, b: int|
                    0 <= a < b < m0.update(i as int, entryv).len() implies m0.update(
                    i as int,
                    entryv,
                )[a].name != m0.update(i as int, entryv)[b].name by {
                    assert(m0.update(i as int, entryv)[a].name == m0[a].name);
                    assert(m0.update(i as int, entryv)[b].name == m0[b].name);
                }
            }
            if fire {
                Some(
                    ROS2DiscoveryEvent::DiscoveredActionSrv(
                        self.fullname.clone(),
                        ActionSrv { name: name.to_owned(), typ: new_typ, entities: ents },
                    ),
                )
            } else {
                None
            }
        }
    }

    /// Records one endpoint of an action client into `slot` under `name`.
    fn update_action_cli(
        &mut self,
        name: &str,
        typ: Option<String>,
        gid: Gid,
        slot: ActionCliSlot,
    ) -> (r: Option<ROS2DiscoveryEvent>)
        requires
            old(self)@.wf(),
        ensures
            final(self)@.wf(),
            final(self)@ == old(self)@.with_aclis(
                upd_action_cli_spec(
                    old(self)@.action_cli,
                    name@,
                    typ_view(typ),
                    gid,
                    slot,
                ).0,
            ),
            match r {
                Some(e) => upd_action_cli_spec(
                    old(self)@.action_cli,
                    name@,
                    typ_view(typ),
                    gid,
                    slot,
                ).1 && e@ == EventView::DiscoveredActionCli(
                    old(self)@.fullname,
                    upd_action_cli_spec(
                        old(self)@.action_cli,
                        name@,
                        typ_view(typ),
                        gid,
                        slot,
                    ).0[first_where(old(self)@.action_cli, by_acli_name(name@))],
                ),
                None => !upd_action_cli_spec(
                    old(self)@.action_cli,
                    name@,
                    typ_view(typ),
                    gid,
                    slot,
                ).1,
            },
    {
        let ghost m0 = aclis_view(self.action_cli@);
        let i = find_acli(&self.action_cli, name);
        proof {
            lemma_first_where(m0, by_acli_name(name@));
        }
        if i == self.action_cli.len() {
            let ghost tv = typ_view(typ);
            let typ0 = match typ {
                Some(t) => t,
                None => String::new(),
            };
            let ents = acli_slot_set_exec(ActionCliEntities::default(), slot, gid);
            self.action_cli.push(ActionCli { name: name.to_owned(), typ: typ0, entities: ents });
            proof {
                let entryv = ActionCliView {
                    name: name@,
                    typ: match tv {
                        Some(t) => t,
                        None => Seq::empty(),
                    },
                    entities: ents,
                };
                assert(aclis_view(self.action_cli@) =~= m0.push(entryv));
                assert(final(self)@ =~= old(self)@.with_aclis(m0.push(entryv)));
                assert forall|a: int, b: int|
                    0 <= a < b < m0.push(entryv).len() implies m0.push(entryv)[a].name != m0.push(
                    entryv,
                )[b].name by {
                    if b == m0.len() {
                        assert(!by_acli_name(name@)(m0[a]));
                    }
                }
            }
            None
        } else {
            let new_typ = match &typ {
                Some(t) => t.clone(),
                None => self.action_cli[i].typ.clone(),
            };
            let ents = acli_slot_set_exec(self.action_cli[i].entities, slot, gid);
            let changed = !str_eq(self.action_cli[i].typ.as_str(), new_typ.as_str())
                || self.action_cli[i].entities != ents;
            let fire = changed && ents.is_complete();
            self.action_cli.set(
                i,
                ActionCli { name: name.to_owned(), typ: new_typ.clone(), entities: ents },
            );
            proof {
                let entryv = ActionCliView { name: name@, typ: new_typ@, entities: ents };
                assert(by_acli_name(name@)(m0[i as int]));
                assert(aclis_view(self.action_cli@) =~= m0.update(i as int, entryv));
                assert(final(self)@ =~= old(self)@.with_aclis(m0.update(i as int, entryv)));
                assert forall|a: int, b: int|
                    0 <= a < b < m0.update(i as int, entryv).len() implies m0.update(
                    i as int,
                    entryv,
                )[a].name != m0.update(i as int, entryv)[b].name by {
                    assert(m0.update(i as int, entryv)[a].name == m0[a].name);
                    assert(m0.update(i as int, entryv)[b].name == m0[b].name);
                }
            }
            if fire {
                Some(
                    ROS2DiscoveryEvent::DiscoveredActionCli(
                        self.fullname.clone(),
                        ActionCli { name: name.to_owned(), typ: new_typ, entities: ents },
                    ),
                )
            } else {
                None
            }
        }
    }
}

/// The character sequence of an optional type name.
pub open spec fn typ_view(t: Option<String>) -> Option<Seq<char>> {
    match t {
        Some(s) => Some(s@),
        None => None,
    }
}

/// The node after taking in one reader endpoint, and the event that fires:
/// the topic name is decoded, the matching interface located or created,
/// and exactly one slot set.
pub open spec fn apply_reader_spec(
    n: NodeInfoView,
    topic: Seq<char>,
    tname: Seq<char>,
    key: Gid,
) -> (NodeInfoView, Option<EventView>) {
    let d = decode_topic_spec(topic, false);
    if d.kind == DdsTopicKind::ActionStatus {
        let u = upd_action_cli_spec(n.action_cli, d.name, None, key, ActionCliSlot::StatusReader);
        (n.with_aclis(u.0), acli_event(n, d.name, u))
    } else if d.kind == DdsTopicKind::ActionFeedback {
        let u = upd_action_cli_spec(
            n.action_cli,
            d.name,
            Some(ros_action_type_of(tname)),
            key,
            ActionCliSlot::FeedbackReader,
        );
        (n.with_aclis(u.0), acli_event(n, d.name, u))
    } else if d.kind == DdsTopicKind::TopicSub {
        let u = upd_topic_sub_spec(n.topic_sub, d.name, ros_type_of(tname), key);
        (
            n.with_subs(u.0),
            if u.1 {
                Some(
                    EventView::DiscoveredTopicSub(
                        n.fullname,
                        TopicSubView { name: d.name, typ: ros_type_of(tname), reader: key },
                    ),
                )
            } else {
                None
            },
        )
    } else if d.kind == DdsTopicKind::ActionSendReq {
        let u = upd_action_srv_spec(
            n.action_srv,
            d.name,
            Some(ros_action_type_of(tname)),
            key,
            ActionSrvSlot::SendGoalReqReader,
        );
        (n.with_asrvs(u.0), asrv_event(n, d.name, u))
    } else if d.kind == DdsTopicKind::ActionCancelReq {
        let u = upd_action_srv_spec(
            n.action_srv,
            d.name,
            None,
            key,
            ActionSrvSlot::CancelReqReader,
        );
        (n.with_asrvs(u.0), asrv_event(n, d.name, u))
    } else if d.kind == DdsTopicKind::ActionResultReq {
        let u = upd_action_srv_spec(
            n.action_srv,
            d.name,
            Some(ros_action_type_of(tname)),
            key,
            ActionSrvSlot::ResultReqReader,
        );
        (n.with_asrvs(u.0), asrv_event(n, d.name, u))
    } else if d.kind == DdsTopicKind::ServiceReq {
        let u = upd_service_srv_spec(
            n.service_srv,
            d.name,
            ros_service_type_of(tname),
            key,
            true,
        );
        (n.with_srvs(u.0), srv_event(n, d.name, u))
    } else if d.kind == DdsTopicKind::ActionSendRep {
        let u = upd_action_cli_spec(
            n.action_cli,
            d.name,
            Some(ros_action_type_of(tname)),
            key,
            ActionCliSlot::SendGoalRepReader,
        );
        (n.with_aclis(u.0), acli_event(n, d.name, u))
    } else if d.kind == DdsTopicKind::ActionCancelRep {
        let u = upd_action_cli_spec(
            n.action_cli,
            d.name,
            None,
            key,
            ActionCliSlot::CancelRepReader,
        );
        (n.with_aclis(u.0), acli_event(n, d.name, u))
    } else if d.kind == DdsTopicKind::ActionResultRep {
        let u = upd_action_cli_spec(
            n.action_cli,
            d.name,
            Some(ros_action_type_of(tname)),
            key,
            ActionCliSlot::ResultRepReader,
        );
        (n.with_aclis(u.0), acli_event(n, d.name, u))
    } else if d.kind == DdsTopicKind::ServiceRep {
        let u = upd_service_cli_spec(
            n.service_cli,
            d.name,
            ros_service_type_of(tname),
            key,
            true,
        );
        (n.with_clis(u.0), cli_event(n, d.name, u))
    } else {
        (n, None)
    }
}

/// The node after taking in one writer endpoint, and the event that fires.
pub open spec fn apply_writer_spec(
    n: NodeInfoView,
    topic: Seq<char>,
    tname: Seq<char>,
    key: Gid,
) -> (NodeInfoView, Option<EventView>) {
    let d = decode_topic_spec(topic, true);
    if d.kind == DdsTopicKind::ActionStatus {
        let u = upd_action_srv_spec(n.action_srv, d.name, None, key, ActionSrvSlot::StatusWriter);
        (n.with_asrvs(u.0), asrv_event(n, d.name, u))
    } else if d.kind == DdsTopicKind::ActionFeedback {
        let u = upd_action_srv_spec(
            n.action_srv,
            d.name,
            Some(ros_action_type_of(tname)),
            key,
            ActionSrvSlot::FeedbackWriter,
        );
        (n.with_asrvs(u.0), asrv_event(n, d.name, u))
    } else if d.kind == DdsTopicKind::TopicPub {
        let u = upd_topic_pub_spec(n.topic_pub, d.name, ros_type_of(tname), key);
        (
            n.with_pubs(u.0),
            if u.1 {
                Some(
                    EventView::DiscoveredTopicPub(
                        n.fullname,
                        TopicPubView { name: d.name, typ: ros_type_of(tname), writer: key },
                    ),
                )
            } else {
                None
            },
        )
    } else if d.kind == DdsTopicKind::ActionSendReq {
        let u = upd_action_cli_spec(
            n.action_cli,
            d.name,
            Some(ros_action_type_of(tname)),
            key,
            ActionCliSlot::SendGoalReqWriter,
        );
        (n.with_aclis(u.0), acli_event(n, d.name, u))
    } else if d.kind == DdsTopicKind::ActionCancelReq {
        let u = upd_action_cli_spec(
            n.action_cli,
            d.name,
            None,
            key,
            ActionCliSlot::CancelReqWriter,
        );
        (n.with_aclis(u.0), acli_event(n, d.name, u))
    } else if d.kind == DdsTopicKind::ActionResultReq {
        let u = upd_action_cli_spec(
            n.action_cli,
            d.name,
            Some(ros_action_type_of(tname)),
            key,
            ActionCliSlot::ResultReqWriter,
        );
        (n.with_aclis(u.0), acli_event(n, d.name, u))
    } else if d.kind == DdsTopicKind::ServiceReq {
        let u = upd_service_cli_spec(
            n.service_cli,
            d.name,
            ros_service_type_of(tname),
            key,
            false,
        );
        (n.with_clis(u.0), cli_event(n, d.name, u))
    } else if d.kind == DdsTopicKind::ActionSendRep {
        let u = upd_action_srv_spec(
            n.action_srv,
            d.name,
            Some(ros_action_type_of(tname)),
            key,
            ActionSrvSlot::SendGoalRepWriter,
        );
        (n.with_asrvs(u.0), asrv_event(n, d.name, u))
    } else if d.kind == DdsTopicKind::ActionCancelRep {
        let u = upd_action_srv_spec(
            n.action_srv,
            d.name,
            None,
            key,
            ActionSrvSlot::CancelRepWriter,
        );
        (n.with_asrvs(u.0), asrv_event(n, d.name, u))
    } else if d.kind == DdsTopicKind::ActionResultRep {
        let u = upd_action_srv_spec(
            n.action_srv,
            d.name,
            Some(ros_action_type_of(tname)),
            key,
            ActionSrvSlot::ResultRepWriter,
        );
        (n.with_asrvs(u.0), asrv_event(n, d.name, u))
    } else if d.kind == DdsTopicKind::ServiceRep {
        let u = upd_service_srv_spec(
            n.service_srv,
            d.name,
            ros_service_type_of(tname),
            key,
            false,
        );
        (n.with_srvs(u.0), srv_event(n, d.name, u))
    } else {
        (n, None)
    }
}

/// The event a service-server update emits, if any.
pub open spec fn srv_event(
    n: NodeInfoView,
    name: Seq<char>,
    u: (Seq<ServiceSrvView>, bool),
) -> Option<EventView> {
    if u.1 {
        Some(
            EventView::DiscoveredServiceSrv(
                n.fullname,
                u.0[first_where(n.service_srv, by_srv_name(name))],
            ),
        )
    } else {
        None
    }
}

/// The event a service-client update emits, if any.
pub open spec fn cli_event(
    n: NodeInfoView,
    name: Seq<char>,
    u: (Seq<ServiceCliView>, bool),
) -> Option<EventView> {
    if u.1 {
        Some(
            EventView::DiscoveredServiceCli(
                n.fullname,
                u.0[first_where(n.service_cli, by_cli_name(name))],
            ),
        )
    } else {
        None
    }
}

/// The event an action-server update emits, if any.
pub open spec fn asrv_event(
    n: NodeInfoView,
    name: Seq<char>,
    u: (Seq<ActionSrvView>, bool),
) -> Option<EventView> {
    if u.1 {
        Some(
            EventView::DiscoveredActionSrv(
                n.fullname,
                u.0[first_where(n.action_srv, by_asrv_name(name))],
            ),
        )
    } else {
        None
    }
}

/// The event an action-client update emits, if any.
pub open spec fn acli_event(
    n: NodeInfoView,
    name: Seq<char>,
    u: (Seq<ActionCliView>, bool),
) -> Option<EventView> {
    if u.1 {
        Some(
            EventView::DiscoveredActionCli(
                n.fullname,
                u.0[first_where(n.action_cli, by_acli_name(name))],
            ),
        )
    } else {
        None
    }
}

impl NodeInfo {
    /// Takes in a reader endpoint the node claims: the topic name decides
    /// which interface it belongs to and which slot it fills.
    pub fn update_with_reader(&mut self, entity: &crate::endpoints::DdsEntity) -> (r: Option<
        ROS2DiscoveryEvent,
    >)
        requires
            old(self)@.wf(),
        ensures
            final(self)@.wf(),
            final(self)@ == apply_reader_spec(
                old(self)@,
                entity@.topic_name,
                entity@.typ_name,
                entity@.key,
            ).0,
            opt_event_view(r) == apply_reader_spec(
                old(self)@,
                entity@.topic_name,
                entity@.typ_name,
                entity@.key,
            ).1,
    {
        let d = decode_topic(entity.topic_name.as_str(), false);
        match d.kind {
            DdsTopicKind::ActionStatus => self.update_action_cli(
                d.name.as_str(),
                None,
                entity.key,
                ActionCliSlot::StatusReader,
            ),
            DdsTopicKind::ActionFeedback => self.update_action_cli(
                d.name.as_str(),
                Some(dds_action_topic_to_ros(entity.typ_name.as_str())),
                entity.key,
                ActionCliSlot::FeedbackReader,
            ),
            DdsTopicKind::TopicSub => self.update_topic_sub(
                d.name.as_str(),
                dds_pubsub_topic_to_ros(entity.typ_name.as_str()),
                entity.key,
            ),
            DdsTopicKind::ActionSendReq => self.update_action_srv(
                d.name.as_str(),
                Some(dds_action_topic_to_ros(entity.typ_name.as_str())),
                entity.key,
                ActionSrvSlot::SendGoalReqReader,
            ),
            DdsTopicKind::ActionCancelReq => self.update_action_srv(
                d.name.as_str(),
                None,
                entity.key,
                ActionSrvSlot::CancelReqReader,
            ),
            DdsTopicKind::ActionResultReq => self.update_action_srv(
                d.name.as_str(),
                Some(dds_action_topic_to_ros(entity.typ_name.as_str())),
                entity.key,
                ActionSrvSlot::ResultReqReader,
            ),
            DdsTopicKind::ServiceReq => self.update_service_srv(
                d.name.as_str(),
                dds_service_topic_to_ros(entity.typ_name.as_str()),
                entity.key,
                true,
            ),
            DdsTopicKind::ActionSendRep => self.update_action_cli(
                d.name.as_str(),
                Some(dds_action_topic_to_ros(entity.typ_name.as_str())),
                entity.key,
                ActionCliSlot::SendGoalRepReader,
            ),
            DdsTopicKind::ActionCancelRep => self.update_action_cli(
                d.name.as_str(),
                None,
                entity.key,
                ActionCliSlot::CancelRepReader,
            ),
            DdsTopicKind::ActionResultRep => self.update_action_cli(
                d.name.as_str(),
                Some(dds_action_topic_to_ros(entity.typ_name.as_str())),
                entity.key,
                ActionCliSlot::ResultRepReader,
            ),
            DdsTopicKind::ServiceRep => self.update_service_cli(
                d.name.as_str(),
                dds_service_topic_to_ros(entity.typ_name.as_str()),
                entity.key,
                true,
            ),
            DdsTopicKind::TopicPub => None,
            DdsTopicKind::NonRos => None,
        }
    }

    /// Takes in a writer endpoint the node claims.
    pub fn update_with_writer(&mut self, entity: &crate::endpoints::DdsEntity) -> (r: Option<
        ROS2DiscoveryEvent,
    >)
        requires
            old(self)@.wf(),
        ensures
            final(self)@.wf(),
            final(self)@ == apply_writer_spec(
                old(self)@,
                entity@.topic_name,
                entity@.typ_name,
                entity@.key,
            ).0,
            opt_event_view(r) == apply_writer_spec(
                old(self)@,
                entity@.topic_name,
                entity@.typ_name,
                entity@.key,
            ).1,
    {
        let d = decode_topic(entity.topic_name.as_str(), true);
        match d.kind {
            DdsTopicKind::ActionStatus => self.update_action_srv(
                d.name.as_str(),
                None,
                entity.key,
                ActionSrvSlot::StatusWriter,
            ),
            DdsTopicKind::ActionFeedback => self.update_action_srv(
                d.name.as_str(),
                Some(dds_action_topic_to_ros(entity.typ_name.as_str())),
                entity.key,
                ActionSrvSlot::FeedbackWriter,
            ),
            DdsTopicKind::TopicPub => self.update_topic_pub(
                d.name.as_str(),
                dds_pubsub_topic_to_ros(entity.typ_name.as_str()),
                entity.key,
            ),
            DdsTopicKind::ActionSendReq => self.update_action_cli(
                d.name.as_str(),
                Some(dds_action_topic_to_ros(entity.typ_name.as_str())),
                entity.key,
                ActionCliSlot::SendGoalReqWriter,
            ),
            DdsTopicKind::ActionCancelReq => self.update_action_cli(
                d.name.as_str(),
                None,
                entity.key,
                ActionCliSlot::CancelReqWriter,
            ),
            DdsTopicKind::ActionResultReq => self.update_action_cli(
                d.name.as_str(),
                Some(dds_action_topic_to_ros(entity.typ_name.as_str())),
                entity.key,
                ActionCliSlot::ResultReqWriter,
            ),
            DdsTopicKind::ServiceReq => self.update_service_cli(
                d.name.as_str(),
                dds_service_topic_to_ros(entity.typ_name.as_str()),
                entity.key,
                false,
            ),
            DdsTopicKind::ActionSendRep => self.update_action_srv(
                d.name.as_str(),
                Some(dds_action_topic_to_ros(entity.typ_name.as_str())),
                entity.key,
                ActionSrvSlot::SendGoalRepWriter,
            ),
            DdsTopicKind::ActionCancelRep => self.update_action_srv(
                d.name.as_str(),
                None,
                entity.key,
                ActionSrvSlot::CancelRepWriter,
            ),
            DdsTopicKind::ActionResultRep => self.update_action_srv(
                d.name.as_str(),
                Some(dds_action_topic_to_ros(entity.typ_name.as_str())),
                entity.key,
                ActionSrvSlot::ResultRepWriter,
            ),
            DdsTopicKind::ServiceRep => self.update_service_srv(
                d.name.as_str(),
                dds_service_topic_to_ros(entity.typ_name.as_str()),
                entity.key,
                false,
            ),
            DdsTopicKind::TopicSub => None,
            DdsTopicKind::NonRos => None,
        }
    }
}

/// The ghost images of a list of nodes.
pub open spec fn nodes_view_of(s: Seq<NodeInfo>) -> Seq<NodeInfoView> {
    s.map_values(|n: NodeInfo| n@)
}

/// The ghost images of a list of events.
pub open spec fn events_view(s: Seq<ROS2DiscoveryEvent>) -> Seq<EventView> {
    s.map_values(|e: ROS2DiscoveryEvent| e@)
}

/// The ghost image of an optional event.
pub open spec fn opt_event_view(r: Option<ROS2DiscoveryEvent>) -> Option<EventView> {
    match r {
        Some(e) => Some(e@),
        None => None,
    }
}

/// Identifier-match predicates for removal: which interface uses a reader
/// or writer.
pub open spec fn by_sub_reader(g: Gid) -> spec_fn(TopicSubView) -> bool {
    |e: TopicSubView| e.reader == g
}

pub open spec fn by_srv_reader(g: Gid) -> spec_fn(ServiceSrvView) -> bool {
    |e: ServiceSrvView| e.entities.req_reader == g
}

pub open spec fn by_cli_reader(g: Gid) -> spec_fn(ServiceCliView) -> bool {
    |e: ServiceCliView| e.entities.rep_reader == g
}

pub open spec fn by_asrv_reader(g: Gid) -> spec_fn(ActionSrvView) -> bool {
    |e: ActionSrvView|
        e.entities.send_goal.req_reader == g || e.entities.cancel_goal.req_reader == g
            || e.entities.get_result.req_reader == g
}

pub open spec fn by_acli_reader(g: Gid) -> spec_fn(ActionCliView) -> bool {
    |e: ActionCliView|
        e.entities.send_goal.rep_reader == g || e.entities.cancel_goal.rep_reader == g
            || e.entities.get_result.rep_reader == g || e.entities.status_reader == g
            || e.entities.feedback_reader == g
}

pub open spec fn by_pub_writer(g: Gid) -> spec_fn(TopicPubView) -> bool {
    |e: TopicPubView| e.writer == g
}

pub open spec fn by_srv_writer(g: Gid) -> spec_fn(ServiceSrvView) -> bool {
    |e: ServiceSrvView| e.entities.rep_writer == g
}

pub open spec fn by_cli_writer(g: Gid) -> spec_fn(ServiceCliView) -> bool {
    |e: ServiceCliView| e.entities.req_writer == g
}

pub open spec fn by_asrv_writer(g: Gid) -> spec_fn(ActionSrvView) -> bool {
    |e: ActionSrvView|
        e.entities.send_goal.rep_writer == g || e.entities.cancel_goal.rep_writer == g
            || e.entities.get_result.rep_writer == g || e.entities.status_writer == g
            || e.entities.feedback_writer == g
}

pub open spec fn by_acli_writer(g: Gid) -> spec_fn(ActionCliView) -> bool {
    |e: ActionCliView|
        e.entities.send_goal.req_writer == g || e.entities.cancel_goal.req_writer == g
            || e.entities.get_result.req_writer == g
}

/// The queue without every occurrence of `g`, order kept.
pub open spec fn without_gid(s: Seq<Gid>, g: Gid) -> Seq<Gid>
    decreases s.len(),
{
    if s.len() == 0 {
        Seq::empty()
    } else if s[0] == g {
        without_gid(s.skip(1), g)
    } else {
        seq![s[0]] + without_gid(s.skip(1), g)
    }
}

impl NodeInfoView {
    pub open spec fn with_pending_readers(self, s: Seq<Gid>) -> NodeInfoView {
        NodeInfoView { undiscovered_reader: s, ..self }
    }

    pub open spec fn with_pending_writers(self, s: Seq<Gid>) -> NodeInfoView {
        NodeInfoView { undiscovered_writer: s, ..self }
    }
}

/// The node after a reader endpoint goes away: the first interface using it
/// — subscribers, then service servers, clients, action servers, clients —
/// is dropped whole and reported; when none does, the pending queue forgets
/// the identifier.
pub open spec fn remove_reader_spec(n: NodeInfoView, g: Gid) -> (NodeInfoView, Option<EventView>) {
    let i_sub = first_where(n.topic_sub, by_sub_reader(g));
    let i_srv = first_where(n.service_srv, by_srv_reader(g));
    let i_cli = first_where(n.service_cli, by_cli_reader(g));
    let i_asrv = first_where(n.action_srv, by_asrv_reader(g));
    let i_acli = first_where(n.action_cli, by_acli_reader(g));
    if i_sub < n.topic_sub.len() {
        (
            n.with_subs(n.topic_sub.remove(i_sub)),
            Some(EventView::UndiscoveredTopicSub(n.fullname, n.topic_sub[i_sub])),
        )
    } else if i_srv < n.service_srv.len() {
        (
            n.with_srvs(n.service_srv.remove(i_srv)),
            Some(EventView::UndiscoveredServiceSrv(n.fullname, n.service_srv[i_srv])),
        )
    } else if i_cli < n.service_cli.len() {
        (
            n.with_clis(n.service_cli.remove(i_cli)),
            Some(EventView::UndiscoveredServiceCli(n.fullname, n.service_cli[i_cli])),
        )
    } else if i_asrv < n.action_srv.len() {
        (
            n.with_asrvs(n.action_srv.remove(i_asrv)),
            Some(EventView::UndiscoveredActionSrv(n.fullname, n.action_srv[i_asrv])),
        )
    } else if i_acli < n.action_cli.len() {
        (
            n.with_aclis(n.action_cli.remove(i_acli)),
            Some(EventView::UndiscoveredActionCli(n.fullname, n.action_cli[i_acli])),
        )
    } else {
        (n.with_pending_readers(without_gid(n.undiscovered_reader, g)), None)
    }
}

/// The node after a writer endpoint goes away: the first interface using it
/// — publishers, then service servers, clients, action servers, clients —
/// is dropped whole and reported; when none does, the pending queue forgets
/// the identifier.
pub open spec fn remove_writer_spec(n: NodeInfoView, g: Gid) -> (NodeInfoView, Option<EventView>) {
    let i_pub = first_where(n.topic_pub, by_pub_writer(g));
    let i_srv = first_where(n.service_srv, by_srv_writer(g));
    let i_cli = first_where(n.service_cli, by_cli_writer(g));
    let i_asrv = first_where(n.action_srv, by_asrv_writer(g));
    let i_acli = first_where(n.action_cli, by_acli_writer(g));
    if i_pub < n.topic_pub.len() {
        (
            n.with_pubs(n.topic_pub.remove(i_pub)),
            Some(EventView::UndiscoveredTopicPub(n.fullname, n.topic_pub[i_pub])),
        )
    } else if i_srv < n.service_srv.len() {
        (
            n.with_srvs(n.service_srv.remove(i_srv)),
            Some(EventView::UndiscoveredServiceSrv(n.fullname, n.service_srv[i_srv])),
        )
    } else if i_cli < n.service_cli.len() {
        (
            n.with_clis(n.service_cli.remove(i_cli)),
            Some(EventView::UndiscoveredServiceCli(n.fullname, n.service_cli[i_cli])),
        )
    } else if i_asrv < n.action_srv.len() {
        (
            n.with_asrvs(n.action_srv.remove(i_asrv)),
            Some(EventView::UndiscoveredActionSrv(n.fullname, n.action_srv[i_asrv])),
        )
    } else if i_acli < n.action_cli.len() {
        (
            n.with_aclis(n.action_cli.remove(i_acli)),
            Some(EventView::UndiscoveredActionCli(n.fullname, n.action_cli[i_acli])),
        )
    } else {
        (n.with_pending_writers(without_gid(n.undiscovered_writer, g)), None)
    }
}

/// Drops every occurrence of `g`, keeping order.
fn without_gid_exec(v: &Vec<Gid>, g: Gid) -> (r: Vec<Gid>)
    ensures
        r@ == without_gid(v@, g),
{
    let n = v.len();
    let mut out: Vec<Gid> = Vec::new();
    let mut i: usize = 0;
    assert(v@.skip(0) =~= v@);
    assert(out@ + without_gid(v@, g) =~= without_gid(v@, g));
    while i < n
        invariant
            i <= n,
            n == v@.len(),
            without_gid(v@, g) == out@ + without_gid(v@.skip(i as int), g),
        decreases n - i,
    {
        let ghost rest = v@.skip(i as int);
        if v[i] == g {
            proof {
                assert(rest.skip(1) =~= v@.skip(i + 1));
            }
        } else {
            out.push(v[i]);
            proof {
                assert(rest.skip(1) =~= v@.skip(i + 1));
                assert(out@ + without_gid(v@.skip(i + 1), g) =~= (out@.drop_last() + seq![
                    rest[0],
                ]) + without_gid(rest.skip(1), g));
                assert(out@.drop_last() + (seq![rest[0]] + without_gid(rest.skip(1), g))
                    =~= (out@.drop_last() + seq![rest[0]]) + without_gid(rest.skip(1), g));
            }
        }
        i += 1;
    }
    assert(without_gid(v@.skip(n as int), g) == Seq::<Gid>::empty());
    assert(out@ + Seq::<Gid>::empty() =~= out@);
    out
}

impl NodeInfo {
    /// Forgets a reader endpoint: the single interface using it is removed
    /// and reported, or the pending queue drops the identifier.
    #[verifier::rlimit(100)]
    #[verifier::loop_isolation(false)]
    pub fn remove_reader(&mut self, reader: &Gid) -> (r: Option<ROS2DiscoveryEvent>)
        requires
            old(self)@.wf(),
        ensures
            final(self)@.wf(),
            final(self)@ == remove_reader_spec(old(self)@, *reader).0,
            opt_event_view(r) == remove_reader_spec(old(self)@, *reader).1,
    {
        let g = *reader;
        let ghost n0 = self@;
        proof {
            lemma_first_where(n0.topic_sub, by_sub_reader(g));
            lemma_first_where(n0.service_srv, by_srv_reader(g));
            lemma_first_where(n0.service_cli, by_cli_reader(g));
            lemma_first_where(n0.action_srv, by_asrv_reader(g));
            lemma_first_where(n0.action_cli, by_acli_reader(g));
        }
        let nsub = self.topic_sub.len();
        let mut i: usize = 0;
        while i < nsub
            invariant
                i <= nsub,
                nsub == self.topic_sub@.len(),
                self@ == n0,
                forall|j: int| 0 <= j < i ==> !(self.topic_sub@[j]@.reader == g),
            decreases nsub - i,
        {
            if self.topic_sub[i].reader == g {
                proof {
                    assert(forall|j: int|
                        0 <= j < nsub ==> n0.topic_sub[j] == self.topic_sub@[j]@);
                    lemma_first_where_is(n0.topic_sub, by_sub_reader(g), i as int);
                }
                let removed = self.topic_sub.remove(i);
                proof {
                    assert(removed@ == n0.topic_sub[i as int]);
                    assert(subs_view(self.topic_sub@) =~= n0.topic_sub.remove(i as int));
                    assert(self@ =~= n0.with_subs(n0.topic_sub.remove(i as int)));
                    assert forall|a: int, b: int|
                        0 <= a < b < self@.topic_sub.len() implies self@.topic_sub[a].name != self@.topic_sub[b].name by {
                        assert(n0.topic_sub.remove(i as int) =~= n0.topic_sub.take(i as int)
                            + n0.topic_sub.skip(i + 1));
                        let a0 = if a < i as int { a } else { a + 1 };
                        let b0 = if b < i as int { b } else { b + 1 };
                        assert(n0.topic_sub.remove(i as int)[a] == n0.topic_sub[a0]);
                        assert(n0.topic_sub.remove(i as int)[b] == n0.topic_sub[b0]);
                        assert(n0.topic_sub[a0].name != n0.topic_sub[b0].name);
                    }
                }
                return Some(
                    ROS2DiscoveryEvent::UndiscoveredTopicSub(self.fullname.clone(), removed),
                );
            }
            i += 1;
        }
        proof {
            assert(forall|j: int| 0 <= j < nsub ==> n0.topic_sub[j] == self.topic_sub@[j]@);
            lemma_first_where_none(n0.topic_sub, by_sub_reader(g));
        }
        let nsrv = self.service_srv.len();
        let mut i: usize = 0;
        while i < nsrv
            invariant
                i <= nsrv,
                nsrv == self.service_srv@.len(),
                self@ == n0,
                forall|j: int| 0 <= j < i ==> !(self.service_srv@[j]@.entities.req_reader == g),
            decreases nsrv - i,
        {
            if self.service_srv[i].entities.req_reader == g {
                proof {
                    assert(forall|j: int|
                        0 <= j < nsrv ==> n0.service_srv[j] == self.service_srv@[j]@);
                    lemma_first_where_is(n0.service_srv, by_srv_reader(g), i as int);
                }
                let removed = self.service_srv.remove(i);
                proof {
                    assert(removed@ == n0.service_srv[i as int]);
                    assert(srvs_view(self.service_srv@) =~= n0.service_srv.remove(i as int));
                    assert(self@ =~= n0.with_srvs(n0.service_srv.remove(i as int)));
                    assert forall|a: int, b: int|
                        0 <= a < b < self@.service_srv.len() implies self@.service_srv[a].name != self@.service_srv[b].name by {
                        assert(n0.service_srv.remove(i as int) =~= n0.service_srv.take(i as int)
                            + n0.service_srv.skip(i + 1));
                        let a0 = if a < i as int { a } else { a + 1 };
                        let b0 = if b < i as int { b } else { b + 1 };
                        assert(n0.service_srv.remove(i as int)[a] == n0.service_srv[a0]);
                        assert(n0.service_srv.remove(i as int)[b] == n0.service_srv[b0]);
                        assert(n0.service_srv[a0].name != n0.service_srv[b0].name);
                    }
                }
                return Some(
                    ROS2DiscoveryEvent::UndiscoveredServiceSrv(self.fullname.clone(), removed),
                );
            }
            i += 1;
        }
        proof {
            assert(forall|j: int| 0 <= j < nsrv ==> n0.service_srv[j] == self.service_srv@[j]@);
            lemma_first_where_none(n0.service_srv, by_srv_reader(g));
        }
        let ncli = self.service_cli.len();
        let mut i: usize = 0;
        while i < ncli
            invariant
                i <= ncli,
                ncli == self.service_cli@.len(),
                self@ == n0,
                forall|j: int| 0 <= j < i ==> !(self.service_cli@[j]@.entities.rep_reader == g),
            decreases ncli - i,
        {
            if self.service_cli[i].entities.rep_reader == g {
                proof {
                    assert(forall|j: int|
                        0 <= j < ncli ==> n0.service_cli[j] == self.service_cli@[j]@);
                    lemma_first_where_is(n0.service_cli, by_cli_reader(g), i as int);
                }
                let removed = self.service_cli.remove(i);
                proof {
                    assert(removed@ == n0.service_cli[i as int]);
                    assert(clis_view(self.service_cli@) =~= n0.service_cli.remove(i as int));
                    assert(self@ =~= n0.with_clis(n0.service_cli.remove(i as int)));
                    assert forall|a: int, b: int|
                        0 <= a < b < self@.service_cli.len() implies self@.service_cli[a].name != self@.service_cli[b].name by {
                        assert(n0.service_cli.remove(i as int) =~= n0.service_cli.take(i as int)
                            + n0.service_cli.skip(i + 1));
                        let a0 = if a < i as int { a } else { a + 1 };
                        let b0 = if b < i as int { b } else { b + 1 };
                        assert(n0.service_cli.remove(i as int)[a] == n0.service_cli[a0]);
                        assert(n0.service_cli.remove(i as int)[b] == n0.service_cli[b0]);
                        assert(n0.service_cli[a0].name != n0.service_cli[b0].name);
                    }
                }
                return Some(
                    ROS2DiscoveryEvent::UndiscoveredServiceCli(self.fullname.clone(), removed),
                );
            }
            i += 1;
        }
        proof {
            assert(forall|j: int| 0 <= j < ncli ==> n0.service_cli[j] == self.service_cli@[j]@);
            lemma_first_where_none(n0.service_cli, by_cli_reader(g));
        }
        let nasrv = self.action_srv.len();
        let mut i: usize = 0;
        while i < nasrv
            invariant
                i <= nasrv,
                nasrv == self.action_srv@.len(),
                self@ == n0,
                forall|j: int|
                    0 <= j < i ==> !(self.action_srv@[j]@.entities.send_goal.req_reader == g
                        || self.action_srv@[j]@.entities.cancel_goal.req_reader == g
                        || self.action_srv@[j]@.entities.get_result.req_reader == g),
            decreases nasrv - i,
        {
            let hit = self.action_srv[i].entities.send_goal.req_reader == g
                || self.action_srv[i].entities.cancel_goal.req_reader == g
                || self.action_srv[i].entities.get_result.req_reader == g;
            if hit {
                proof {
                    assert(forall|j: int|
                        0 <= j < nasrv ==> n0.action_srv[j] == self.action_srv@[j]@);
                    lemma_first_where_is(n0.action_srv, by_asrv_reader(g), i as int);
                }
                let removed = self.action_srv.remove(i);
                proof {
                    assert(removed@ == n0.action_srv[i as int]);
                    assert(asrvs_view(self.action_srv@) =~= n0.action_srv.remove(i as int));
                    assert(self@ =~= n0.with_asrvs(n0.action_srv.remove(i as int)));
                    assert forall|a: int, b: int|
                        0 <= a < b < self@.action_srv.len() implies self@.action_srv[a].name != self@.action_srv[b].name by {
                        assert(n0.action_srv.remove(i as int) =~= n0.action_srv.take(i as int)
                            + n0.action_srv.skip(i + 1));
                        let a0 = if a < i as int { a } else { a + 1 };
                        let b0 = if b < i as int { b } else { b + 1 };
                        assert(n0.action_srv.remove(i as int)[a] == n0.action_srv[a0]);
                        assert(n0.action_srv.remove(i as int)[b] == n0.action_srv[b0]);
                        assert(n0.action_srv[a0].name != n0.action_srv[b0].name);
                    }
                }
                return Some(
                    ROS2DiscoveryEvent::UndiscoveredActionSrv(self.fullname.clone(), removed),
                );
            }
            i += 1;
        }
        proof {
            assert(forall|j: int| 0 <= j < nasrv ==> n0.action_srv[j] == self.action_srv@[j]@);
            lemma_first_where_none(n0.action_srv, by_asrv_reader(g));
        }
        let nacli = self.action_cli.len();
        let mut i: usize = 0;
        while i < nacli
            invariant
                i <= nacli,
                nacli == self.action_cli@.len(),
                self@ == n0,
                forall|j: int|
                    0 <= j < i ==> !(self.action_cli@[j]@.entities.send_goal.rep_reader == g
                        || self.action_cli@[j]@.entities.cancel_goal.rep_reader == g
                        || self.action_cli@[j]@.entities.get_result.rep_reader == g
                        || self.action_cli@[j]@.entities.status_reader == g
                        || self.action_cli@[j]@.entities.feedback_reader == g),
            decreases nacli - i,
        {
            let hit = self.action_cli[i].entities.send_goal.rep_reader == g
                || self.action_cli[i].entities.cancel_goal.rep_reader == g
                || self.action_cli[i].entities.get_result.rep_reader == g
                || self.action_cli[i].entities.status_reader == g
                || self.action_cli[i].entities.feedback_reader == g;
            if hit {
                proof {
                    assert(forall|j: int|
                        0 <= j < nacli ==> n0.action_cli[j] == self.action_cli@[j]@);
                    lemma_first_where_is(n0.action_cli, by_acli_reader(g), i as int);
                }
                let removed = self.action_cli.remove(i);
                proof {
                    assert(removed@ == n0.action_cli[i as int]);
                    assert(aclis_view(self.action_cli@) =~= n0.action_cli.remove(i as int));
                    assert(self@ =~= n0.with_aclis(n0.action_cli.remove(i as int)));
                    assert forall|a: int, b: int|
                        0 <= a < b < self@.action_cli.len() implies self@.action_cli[a].name != self@.action_cli[b].name by {
                        assert(n0.action_cli.remove(i as int) =~= n0.action_cli.take(i as int)
                            + n0.action_cli.skip(i + 1));
                        let a0 = if a < i as int { a } else { a + 1 };
                        let b0 = if b < i as int { b } else { b + 1 };
                        assert(n0.action_cli.remove(i as int)[a] == n0.action_cli[a0]);
                        assert(n0.action_cli.remove(i as int)[b] == n0.action_cli[b0]);
                        assert(n0.action_cli[a0].name != n0.action_cli[b0].name);
                    }
                }
                return Some(
                    ROS2DiscoveryEvent::UndiscoveredActionCli(self.fullname.clone(), removed),
                );
            }
            i += 1;
        }
        proof {
            assert(forall|j: int| 0 <= j < nacli ==> n0.action_cli[j] == self.action_cli@[j]@);
            lemma_first_where_none(n0.action_cli, by_acli_reader(g));
        }
        let filtered = without_gid_exec(&self.undiscovered_reader, g);
        self.undiscovered_reader = filtered;
        proof {
            assert(self@ =~= n0.with_pending_readers(
                without_gid(n0.undiscovered_reader, g),
            ));
        }
        None
    }

    /// Forgets a writer endpoint: the single interface using it is removed
    /// and reported, or the pending queue drops the identifier.
    #[verifier::rlimit(100)]
    #[verifier::loop_isolation(false)]
    pub fn remove_writer(&mut self, writer: &Gid) -> (r: Option<ROS2DiscoveryEvent>)
        requires
            old(self)@.wf(),
        ensures
            final(self)@.wf(),
            final(self)@ == remove_writer_spec(old(self)@, *writer).0,
            opt_event_view(r) == remove_writer_spec(old(self)@, *writer).1,
    {
        let g = *writer;
        let ghost n0 = self@;
        proof {
            lemma_first_where(n0.topic_pub, by_pub_writer(g));
            lemma_first_where(n0.service_srv, by_srv_writer(g));
            lemma_first_where(n0.service_cli, by_cli_writer(g));
            lemma_first_where(n0.action_srv, by_asrv_writer(g));
            lemma_first_where(n0.action_cli, by_acli_writer(g));
        }
        let npub = self.topic_pub.len();
        let mut i: usize = 0;
        while i < npub
            invariant
                i <= npub,
                npub == self.topic_pub@.len(),
                self@ == n0,
                forall|j: int| 0 <= j < i ==> !(self.topic_pub@[j]@.writer == g),
            decreases npub - i,
        {
            if self.topic_pub[i].writer == g {
                proof {
                    assert(forall|j: int|
                        0 <= j < npub ==> n0.topic_pub[j] == self.topic_pub@[j]@);
                    lemma_first_where_is(n0.topic_pub, by_pub_writer(g), i as int);
                }
                let removed = self.topic_pub.remove(i);
                proof {
                    assert(removed@ == n0.topic_pub[i as int]);
                    assert(pubs_view(self.topic_pub@) =~= n0.topic_pub.remove(i as int));
                    assert(self@ =~= n0.with_pubs(n0.topic_pub.remove(i as int)));
                    assert forall|a: int, b: int|
                        0 <= a < b < self@.topic_pub.len() implies self@.topic_pub[a].name != self@.topic_pub[b].name by {
                        assert(n0.topic_pub.remove(i as int) =~= n0.topic_pub.take(i as int)
                            + n0.topic_pub.skip(i + 1));
                        let a0 = if a < i as int { a } else { a + 1 };
                        let b0 = if b < i as int { b } else { b + 1 };
                        assert(n0.topic_pub.remove(i as int)[a] == n0.topic_pub[a0]);
                        assert(n0.topic_pub.remove(i as int)[b] == n0.topic_pub[b0]);
                        assert(n0.topic_pub[a0].name != n0.topic_pub[b0].name);
                    }
                }
                return Some(
                    ROS2DiscoveryEvent::UndiscoveredTopicPub(self.fullname.clone(), removed),
                );
            }
            i += 1;
        }
        proof {
            assert(forall|j: int| 0 <= j < npub ==> n0.topic_pub[j] == self.topic_pub@[j]@);
            lemma_first_where_none(n0.topic_pub, by_pub_writer(g));
        }
        let nsrv = self.service_srv.len();
        let mut i: usize = 0;
        while i < nsrv
            invariant
                i <= nsrv,
                nsrv == self.service_srv@.len(),
                self@ == n0,
                forall|j: int| 0 <= j < i ==> !(self.service_srv@[j]@.entities.rep_writer == g),
            decreases nsrv - i,
        {
            if self.service_srv[i].entities.rep_writer == g {
                proof {
                    assert(forall|j: int|
                        0 <= j < nsrv ==> n0.service_srv[j] == self.service_srv@[j]@);
                    lemma_first_where_is(n0.service_srv, by_srv_writer(g), i as int);
                }
                let removed = self.service_srv.remove(i);
                proof {
                    assert(removed@ == n0.service_srv[i as int]);
                    assert(srvs_view(self.service_srv@) =~= n0.service_srv.remove(i as int));
                    assert(self@ =~= n0.with_srvs(n0.service_srv.remove(i as int)));
                    assert forall|a: int, b: int|
                        0 <= a < b < self@.service_srv.len() implies self@.service_srv[a].name != self@.service_srv[b].name by {
                        assert(n0.service_srv.remove(i as int) =~= n0.service_srv.take(i as int)
                            + n0.service_srv.skip(i + 1));
                        let a0 = if a < i as int { a } else { a + 1 };
                        let b0 = if b < i as int { b } else { b + 1 };
                        assert(n0.service_srv.remove(i as int)[a] == n0.service_srv[a0]);
                        assert(n0.service_srv.remove(i as int)[b] == n0.service_srv[b0]);
                        assert(n0.service_srv[a0].name != n0.service_srv[b0].name);
                    }
                }
                return Some(
                    ROS2DiscoveryEvent::UndiscoveredServiceSrv(self.fullname.clone(), removed),
                );
            }
            i += 1;
        }
        proof {
            assert(forall|j: int| 0 <= j < nsrv ==> n0.service_srv[j] == self.service_srv@[j]@);
            lemma_first_where_none(n0.service_srv, by_srv_writer(g));
        }
        let ncli = self.service_cli.len();
        let mut i: usize = 0;
        while i < ncli
            invariant
                i <= ncli,
                ncli == self.service_cli@.len(),
                self@ == n0,
                forall|j: int| 0 <= j < i ==> !(self.service_cli@[j]@.entities.req_writer == g),
            decreases ncli - i,
        {
            if self.service_cli[i].entities.req_writer == g {
                proof {
                    assert(forall|j: int|
                        0 <= j < ncli ==> n0.service_cli[j] == self.service_cli@[j]@);
                    lemma_first_where_is(n0.service_cli, by_cli_writer(g), i as int);
                }
                let removed = self.service_cli.remove(i);
                proof {
                    assert(removed@ == n0.service_cli[i as int]);
                    assert(clis_view(self.service_cli@) =~= n0.service_cli.remove(i as int));
                    assert(self@ =~= n0.with_clis(n0.service_cli.remove(i as int)));
                    assert forall|a: int, b: int|
                        0 <= a < b < self@.service_cli.len() implies self@.service_cli[a].name != self@.service_cli[b].name by {
                        assert(n0.service_cli.remove(i as int) =~= n0.service_cli.take(i as int)
                            + n0.service_cli.skip(i + 1));
                        let a0 = if a < i as int { a } else { a + 1 };
                        let b0 = if b < i as int { b } else { b + 1 };
                        assert(n0.service_cli.remove(i as int)[a] == n0.service_cli[a0]);
                        assert(n0.service_cli.remove(i as int)[b] == n0.service_cli[b0]);
                        assert(n0.service_cli[a0].name != n0.service_cli[b0].name);
                    }
                }
                return Some(
                    ROS2DiscoveryEvent::UndiscoveredServiceCli(self.fullname.clone(), removed),
                );
            }
            i += 1;
        }
        proof {
            assert(forall|j: int| 0 <= j < ncli ==> n0.service_cli[j] == self.service_cli@[j]@);
            lemma_first_where_none(n0.service_cli, by_cli_writer(g));
        }
        let nasrv = self.action_srv.len();
        let mut i: usize = 0;
        while i < nasrv
            invariant
                i <= nasrv,
                nasrv == self.action_srv@.len(),
                self@ == n0,
                forall|j: int|
                    0 <= j < i ==> !(self.action_srv@[j]@.entities.send_goal.rep_writer == g
                        || self.action_srv@[j]@.entities.cancel_goal.rep_writer == g
                        || self.action_srv@[j]@.entities.get_result.rep_writer == g
                        || self.action_srv@[j]@.entities.status_writer == g
                        || self.action_srv@[j]@.entities.feedback_writer == g),
            decreases nasrv - i,
        {
            let hit = self.action_srv[i].entities.send_goal.rep_writer == g
                || self.action_srv[i].entities.cancel_goal.rep_writer == g
                || self.action_srv[i].entities.get_result.rep_writer == g
                || self.action_srv[i].entities.status_writer == g
                || self.action_srv[i].entities.feedback_writer == g;
            if hit {
                proof {
                    assert(forall|j: int|
                        0 <= j < nasrv ==> n0.action_srv[j] == self.action_srv@[j]@);
                    lemma_first_where_is(n0.action_srv, by_asrv_writer(g), i as int);
                }
                let removed = self.action_srv.remove(i);
                proof {
                    assert(removed@ == n0.action_srv[i as int]);
                    assert(asrvs_view(self.action_srv@) =~= n0.action_srv.remove(i as int));
                    assert(self@ =~= n0.with_asrvs(n0.action_srv.remove(i as int)));
                    assert forall|a: int, b: int|
                        0 <= a < b < self@.action_srv.len() implies self@.action_srv[a].name != self@.action_srv[b].name by {
                        assert(n0.action_srv.remove(i as int) =~= n0.action_srv.take(i as int)
                            + n0.action_srv.skip(i + 1));
                        let a0 = if a < i as int { a } else { a + 1 };
                        let b0 = if b < i as int { b } else { b + 1 };
                        assert(n0.action_srv.remove(i as int)[a] == n0.action_srv[a0]);
                        assert(n0.action_srv.remove(i as int)[b] == n0.action_srv[b0]);
                        assert(n0.action_srv[a0].name != n0.action_srv[b0].name);
                    }
                }
                return Some(
                    ROS2DiscoveryEvent::UndiscoveredActionSrv(self.fullname.clone(), removed),
                );
            }
            i += 1;
        }
        proof {
            assert(forall|j: int| 0 <= j < nasrv ==> n0.action_srv[j] == self.action_srv@[j]@);
            lemma_first_where_none(n0.action_srv, by_asrv_writer(g));
        }
        let nacli = self.action_cli.len();
        let mut i: usize = 0;
        while i < nacli
            invariant
                i <= nacli,
                nacli == self.action_cli@.len(),
                self@ == n0,
                forall|j: int|
                    0 <= j < i ==> !(self.action_cli@[j]@.entities.send_goal.req_writer == g
                        || self.action_cli@[j]@.entities.cancel_goal.req_writer == g
                        || self.action_cli@[j]@.entities.get_result.req_writer == g),
            decreases nacli - i,
        {
            let hit = self.action_cli[i].entities.send_goal.req_writer == g
                || self.action_cli[i].entities.cancel_goal.req_writer == g
                || self.action_cli[i].entities.get_result.req_writer == g;
            if hit {
                proof {
                    assert(forall|j: int|
                        0 <= j < nacli ==> n0.action_cli[j] == self.action_cli@[j]@);
                    lemma_first_where_is(n0.action_cli, by_acli_writer(g), i as int);
                }
                let removed = self.action_cli.remove(i);
                proof {
                    assert(removed@ == n0.action_cli[i as int]);
                    assert(aclis_view(self.action_cli@) =~= n0.action_cli.remove(i as int));
                    assert(self@ =~= n0.with_aclis(n0.action_cli.remove(i as int)));
                    assert forall|a: int, b: int|
                        0 <= a < b < self@.action_cli.len() implies self@.action_cli[a].name != self@.action_cli[b].name by {
                        assert(n0.action_cli.remove(i as int) =~= n0.action_cli.take(i as int)
                            + n0.action_cli.skip(i + 1));
                        let a0 = if a < i as int { a } else { a + 1 };
                        let b0 = if b < i as int { b } else { b + 1 };
                        assert(n0.action_cli.remove(i as int)[a] == n0.action_cli[a0]);
                        assert(n0.action_cli.remove(i as int)[b] == n0.action_cli[b0]);
                        assert(n0.action_cli[a0].name != n0.action_cli[b0].name);
                    }
                }
                return Some(
                    ROS2DiscoveryEvent::UndiscoveredActionCli(self.fullname.clone(), removed),
                );
            }
            i += 1;
        }
        proof {
            assert(forall|j: int| 0 <= j < nacli ==> n0.action_cli[j] == self.action_cli@[j]@);
            lemma_first_where_none(n0.action_cli, by_acli_writer(g));
        }
        let filtered = without_gid_exec(&self.undiscovered_writer, g);
        self.undiscovered_writer = filtered;
        proof {
            assert(self@ =~= n0.with_pending_writers(
                without_gid(n0.undiscovered_writer, g),
            ));
        }
        None
    }
}

/// The undiscovery events one dropped interface table yields: one per
/// record whose completeness predicate holds, in table order. An
/// incomplete record was never announced, so dropping it is silent.
pub open spec fn complete_events<T>(
    s: Seq<T>,
    complete: spec_fn(T) -> bool,
    ev: spec_fn(T) -> EventView,
) -> Seq<EventView>
    decreases s.len(),
{
    if s.len() == 0 {
        Seq::empty()
    } else {
        complete_events(s.drop_last(), complete, ev) + if complete(s.last()) {
            seq![ev(s.last())]
        } else {
            Seq::empty()
        }
    }
}

/// The completeness predicates of the six interface kinds.
pub open spec fn pub_complete() -> spec_fn(TopicPubView) -> bool {
    |e: TopicPubView| e.writer != not_discovered_gid()
}

pub open spec fn sub_complete() -> spec_fn(TopicSubView) -> bool {
    |e: TopicSubView| e.reader != not_discovered_gid()
}

pub open spec fn srv_complete() -> spec_fn(ServiceSrvView) -> bool {
    |e: ServiceSrvView| e.entities.spec_is_complete()
}

pub open spec fn cli_complete() -> spec_fn(ServiceCliView) -> bool {
    |e: ServiceCliView| e.entities.spec_is_complete()
}

pub open spec fn asrv_complete() -> spec_fn(ActionSrvView) -> bool {
    |e: ActionSrvView| e.entities.spec_is_complete()
}

pub open spec fn acli_complete() -> spec_fn(ActionCliView) -> bool {
    |e: ActionCliView| e.entities.spec_is_complete()
}

/// The undiscovery event constructors of the six interface kinds.
pub open spec fn undisc_pub(fullname: Seq<char>) -> spec_fn(TopicPubView) -> EventView {
    |e: TopicPubView| EventView::UndiscoveredTopicPub(fullname, e)
}

pub open spec fn undisc_sub(fullname: Seq<char>) -> spec_fn(TopicSubView) -> EventView {
    |e: TopicSubView| EventView::UndiscoveredTopicSub(fullname, e)
}

pub open spec fn undisc_srv(fullname: Seq<char>) -> spec_fn(ServiceSrvView) -> EventView {
    |e: ServiceSrvView| EventView::UndiscoveredServiceSrv(fullname, e)
}

pub open spec fn undisc_cli(fullname: Seq<char>) -> spec_fn(ServiceCliView) -> EventView {
    |e: ServiceCliView| EventView::UndiscoveredServiceCli(fullname, e)
}

pub open spec fn undisc_asrv(fullname: Seq<char>) -> spec_fn(ActionSrvView) -> EventView {
    |e: ActionSrvView| EventView::UndiscoveredActionSrv(fullname, e)
}

pub open spec fn undisc_acli(fullname: Seq<char>) -> spec_fn(ActionCliView) -> EventView {
    |e: ActionCliView| EventView::UndiscoveredActionCli(fullname, e)
}

/// Every complete interface of the node reported as undiscovered,
/// publishers first, then subscribers, service servers, service clients,
/// action servers and action clients, in table order. An interface that
/// never became complete produces no event: it was never announced.
pub open spec fn all_undiscovered_events(n: NodeInfoView) -> Seq<EventView> {
    complete_events(n.topic_pub, pub_complete(), undisc_pub(n.fullname)) + complete_events(
        n.topic_sub,
        sub_complete(),
        undisc_sub(n.fullname),
    ) + complete_events(n.service_srv, srv_complete(), undisc_srv(n.fullname))
        + complete_events(n.service_cli, cli_complete(), undisc_cli(n.fullname))
        + complete_events(n.action_srv, asrv_complete(), undisc_asrv(n.fullname))
        + complete_events(n.action_cli, acli_complete(), undisc_acli(n.fullname))
}

impl NodeInfoView {
    /// The node with every table and pending queue cleared.
    pub open spec fn cleared(self) -> NodeInfoView {
        NodeInfoView {
            topic_pub: Seq::empty(),
            topic_sub: Seq::empty(),
            service_srv: Seq::empty(),
            service_cli: Seq::empty(),
            action_srv: Seq::empty(),
            action_cli: Seq::empty(),
            undiscovered_reader: Seq::empty(),
            undiscovered_writer: Seq::empty(),
            ..self
        }
    }
}

impl NodeInfo {
    /// Empties the node, returning an undiscovery event for every complete
    /// interface it held; an incomplete interface was never announced and
    /// goes silently.
    #[verifier::loop_isolation(false)]
    pub fn remove_all_entities(&mut self) -> (r: Vec<ROS2DiscoveryEvent>)
        requires
            old(self)@.wf(),
        ensures
            final(self)@.wf(),
            final(self)@ == old(self)@.cleared(),
            events_view(r@) == all_undiscovered_events(old(self)@),
    {
        let ghost n0 = self@;
        let mut events: Vec<ROS2DiscoveryEvent> = Vec::new();
        let ghost ev_pub = complete_events(n0.topic_pub, pub_complete(), undisc_pub(n0.fullname));
        let ghost ev_sub = complete_events(n0.topic_sub, sub_complete(), undisc_sub(n0.fullname));
        let ghost ev_srv = complete_events(
            n0.service_srv,
            srv_complete(),
            undisc_srv(n0.fullname),
        );
        let ghost ev_cli = complete_events(
            n0.service_cli,
            cli_complete(),
            undisc_cli(n0.fullname),
        );
        let ghost ev_asrv = complete_events(
            n0.action_srv,
            asrv_complete(),
            undisc_asrv(n0.fullname),
        );
        let ghost ev_acli = complete_events(
            n0.action_cli,
            acli_complete(),
            undisc_acli(n0.fullname),
        );
        let mut i: usize = 0;
        while i < self.topic_pub.len()
            invariant
                self@ == n0,
                i <= self.topic_pub@.len(),
                events_view(events@) =~= complete_events(
                    n0.topic_pub.take(i as int),
                    pub_complete(),
                    undisc_pub(n0.fullname),
                ),
            decreases self.topic_pub@.len() - i,
        {
            proof {
                assert(n0.topic_pub.take(i + 1).drop_last() =~= n0.topic_pub.take(i as int));
                assert(n0.topic_pub.take(i + 1).last() == n0.topic_pub[i as int]);
                assert(n0.topic_pub[i as int] == self.topic_pub@[i as int]@);
            }
            if !self.topic_pub[i].writer.is_not_discovered() {
                let d = self.topic_pub[i].duplicate();
                let ev = ROS2DiscoveryEvent::UndiscoveredTopicPub(self.fullname.clone(), d);
                let ghost pre = events@;
                events.push(ev);
                proof {
                    assert(ev@ == undisc_pub(n0.fullname)(n0.topic_pub[i as int]));
                    assert(events_view(events@) =~= events_view(pre).push(ev@));
                    assert(complete_events(
                        n0.topic_pub.take(i + 1),
                        pub_complete(),
                        undisc_pub(n0.fullname),
                    ) =~= complete_events(
                        n0.topic_pub.take(i as int),
                        pub_complete(),
                        undisc_pub(n0.fullname),
                    ).push(ev@));
                }
            } else {
                proof {
                    assert(!pub_complete()(n0.topic_pub[i as int]));
                    assert(complete_events(
                        n0.topic_pub.take(i + 1),
                        pub_complete(),
                        undisc_pub(n0.fullname),
                    ) =~= complete_events(
                        n0.topic_pub.take(i as int),
                        pub_complete(),
                        undisc_pub(n0.fullname),
                    ));
                }
            }
            i += 1;
        }
        proof {
            assert(n0.topic_pub.take(n0.topic_pub.len() as int) =~= n0.topic_pub);
            assert(events_view(events@) =~= ev_pub);
        }
        let mut i: usize = 0;
        while i < self.topic_sub.len()
            invariant
                self@ == n0,
                i <= self.topic_sub@.len(),
                events_view(events@) =~= ev_pub + complete_events(
                    n0.topic_sub.take(i as int),
                    sub_complete(),
                    undisc_sub(n0.fullname),
                ),
            decreases self.topic_sub@.len() - i,
        {
            let ghost cur = complete_events(
                n0.topic_sub.take(i as int),
                sub_complete(),
                undisc_sub(n0.fullname),
            );
            proof {
                assert(n0.topic_sub.take(i + 1).drop_last() =~= n0.topic_sub.take(i as int));
                assert(n0.topic_sub.take(i + 1).last() == n0.topic_sub[i as int]);
                assert(n0.topic_sub[i as int] == self.topic_sub@[i as int]@);
            }
            if !self.topic_sub[i].reader.is_not_discovered() {
                let d = self.topic_sub[i].duplicate();
                let ev = ROS2DiscoveryEvent::UndiscoveredTopicSub(self.fullname.clone(), d);
                let ghost pre = events@;
                events.push(ev);
                proof {
                    assert(ev@ == undisc_sub(n0.fullname)(n0.topic_sub[i as int]));
                    assert(events_view(events@) =~= events_view(pre).push(ev@));
                    assert(complete_events(
                        n0.topic_sub.take(i + 1),
                        sub_complete(),
                        undisc_sub(n0.fullname),
                    ) =~= cur.push(ev@));
                    assert((ev_pub + cur).push(ev@) =~= ev_pub + cur.push(ev@));
                }
            } else {
                proof {
                    assert(!sub_complete()(n0.topic_sub[i as int]));
                    assert(complete_events(
                        n0.topic_sub.take(i + 1),
                        sub_complete(),
                        undisc_sub(n0.fullname),
                    ) =~= cur);
                }
            }
            i += 1;
        }
        proof {
            assert(n0.topic_sub.take(n0.topic_sub.len() as int) =~= n0.topic_sub);
        }
        let mut i: usize = 0;
        while i < self.service_srv.len()
            invariant
                self@ == n0,
                i <= self.service_srv@.len(),
                events_view(events@) =~= ev_pub + ev_sub + complete_events(
                    n0.service_srv.take(i as int),
                    srv_complete(),
                    undisc_srv(n0.fullname),
                ),
            decreases self.service_srv@.len() - i,
        {
            let ghost cur = complete_events(
                n0.service_srv.take(i as int),
                srv_complete(),
                undisc_srv(n0.fullname),
            );
            proof {
                assert(n0.service_srv.take(i + 1).drop_last() =~= n0.service_srv.take(i as int));
                assert(n0.service_srv.take(i + 1).last() == n0.service_srv[i as int]);
                assert(n0.service_srv[i as int] == self.service_srv@[i as int]@);
            }
            if self.service_srv[i].is_complete() {
                let d = self.service_srv[i].duplicate();
                let ev = ROS2DiscoveryEvent::UndiscoveredServiceSrv(self.fullname.clone(), d);
                let ghost pre = events@;
                events.push(ev);
                proof {
                    assert(ev@ == undisc_srv(n0.fullname)(n0.service_srv[i as int]));
                    assert(events_view(events@) =~= events_view(pre).push(ev@));
                    assert(complete_events(
                        n0.service_srv.take(i + 1),
                        srv_complete(),
                        undisc_srv(n0.fullname),
                    ) =~= cur.push(ev@));
                    assert((ev_pub + ev_sub + cur).push(ev@) =~= ev_pub + ev_sub + cur.push(
                        ev@,
                    ));
                }
            } else {
                proof {
                    assert(!srv_complete()(n0.service_srv[i as int]));
                    assert(complete_events(
                        n0.service_srv.take(i + 1),
                        srv_complete(),
                        undisc_srv(n0.fullname),
                    ) =~= cur);
                }
            }
            i += 1;
        }
        proof {
            assert(n0.service_srv.take(n0.service_srv.len() as int) =~= n0.service_srv);
        }
        let mut i: usize = 0;
        while i < self.service_cli.len()
            invariant
                self@ == n0,
                i <= self.service_cli@.len(),
                events_view(events@) =~= ev_pub + ev_sub + ev_srv + complete_events(
                    n0.service_cli.take(i as int),
                    cli_complete(),
                    undisc_cli(n0.fullname),
                ),
            decreases self.service_cli@.len() - i,
        {
            let ghost cur = complete_events(
                n0.service_cli.take(i as int),
                cli_complete(),
                undisc_cli(n0.fullname),
            );
            proof {
                assert(n0.service_cli.take(i + 1).drop_last() =~= n0.service_cli.take(i as int));
                assert(n0.service_cli.take(i + 1).last() == n0.service_cli[i as int]);
                assert(n0.service_cli[i as int] == self.service_cli@[i as int]@);
            }
            if self.service_cli[i].is_complete() {
                let d = self.service_cli[i].duplicate();
                let ev = ROS2DiscoveryEvent::UndiscoveredServiceCli(self.fullname.clone(), d);
                let ghost pre = events@;
                events.push(ev);
                proof {
                    assert(ev@ == undisc_cli(n0.fullname)(n0.service_cli[i as int]));
                    assert(events_view(events@) =~= events_view(pre).push(ev@));
                    assert(complete_events(
                        n0.service_cli.take(i + 1),
                        cli_complete(),
                        undisc_cli(n0.fullname),
                    ) =~= cur.push(ev@));
                    assert((ev_pub + ev_sub + ev_srv + cur).push(ev@) =~= ev_pub + ev_sub
                        + ev_srv + cur.push(ev@));
                }
            } else {
                proof {
                    assert(!cli_complete()(n0.service_cli[i as int]));
                    assert(complete_events(
                        n0.service_cli.take(i + 1),
                        cli_complete(),
                        undisc_cli(n0.fullname),
                    ) =~= cur);
                }
            }
            i += 1;
        }
        proof {
            assert(n0.service_cli.take(n0.service_cli.len() as int) =~= n0.service_cli);
        }
        let mut i: usize = 0;
        while i < self.action_srv.len()
            invariant
                self@ == n0,
                i <= self.action_srv@.len(),
                events_view(events@) =~= ev_pub + ev_sub + ev_srv + ev_cli + complete_events(
                    n0.action_srv.take(i as int),
                    asrv_complete(),
                    undisc_asrv(n0.fullname),
                ),
            decreases self.action_srv@.len() - i,
        {
            let ghost cur = complete_events(
                n0.action_srv.take(i as int),
                asrv_complete(),
                undisc_asrv(n0.fullname),
            );
            proof {
                assert(n0.action_srv.take(i + 1).drop_last() =~= n0.action_srv.take(i as int));
                assert(n0.action_srv.take(i + 1).last() == n0.action_srv[i as int]);
                assert(n0.action_srv[i as int] == self.action_srv@[i as int]@);
            }
            if self.action_srv[i].is_complete() {
                let d = self.action_srv[i].duplicate();
                let ev = ROS2DiscoveryEvent::UndiscoveredActionSrv(self.fullname.clone(), d);
                let ghost pre = events@;
                events.push(ev);
                proof {
                    assert(ev@ == undisc_asrv(n0.fullname)(n0.action_srv[i as int]));
                    assert(events_view(events@) =~= events_view(pre).push(ev@));
                    assert(complete_events(
                        n0.action_srv.take(i + 1),
                        asrv_complete(),
                        undisc_asrv(n0.fullname),
                    ) =~= cur.push(ev@));
                    assert((ev_pub + ev_sub + ev_srv + ev_cli + cur).push(ev@) =~= ev_pub
                        + ev_sub + ev_srv + ev_cli + cur.push(ev@));
                }
            } else {
                proof {
                    assert(!asrv_complete()(n0.action_srv[i as int]));
                    assert(complete_events(
                        n0.action_srv.take(i + 1),
                        asrv_complete(),
                        undisc_asrv(n0.fullname),
                    ) =~= cur);
                }
            }
            i += 1;
        }
        proof {
            assert(n0.action_srv.take(n0.action_srv.len() as int) =~= n0.action_srv);
        }
        let mut i: usize = 0;
        while i < self.action_cli.len()
            invariant
                self@ == n0,
                i <= self.action_cli@.len(),
                events_view(events@) =~= ev_pub + ev_sub + ev_srv + ev_cli + ev_asrv
                    + complete_events(
                    n0.action_cli.take(i as int),
                    acli_complete(),
                    undisc_acli(n0.fullname),
                ),
            decreases self.action_cli@.len() - i,
        {
            let ghost cur = complete_events(
                n0.action_cli.take(i as int),
                acli_complete(),
                undisc_acli(n0.fullname),
            );
            proof {
                assert(n0.action_cli.take(i + 1).drop_last() =~= n0.action_cli.take(i as int));
                assert(n0.action_cli.take(i + 1).last() == n0.action_cli[i as int]);
                assert(n0.action_cli[i as int] == self.action_cli@[i as int]@);
            }
            if self.action_cli[i].is_complete() {
                let d = self.action_cli[i].duplicate();
                let ev = ROS2DiscoveryEvent::UndiscoveredActionCli(self.fullname.clone(), d);
                let ghost pre = events@;
                events.push(ev);
                proof {
                    assert(ev@ == undisc_acli(n0.fullname)(n0.action_cli[i as int]));
                    assert(events_view(events@) =~= events_view(pre).push(ev@));
                    assert(complete_events(
                        n0.action_cli.take(i + 1),
                        acli_complete(),
                        undisc_acli(n0.fullname),
                    ) =~= cur.push(ev@));
                    assert((ev_pub + ev_sub + ev_srv + ev_cli + ev_asrv + cur).push(ev@)
                        =~= ev_pub + ev_sub + ev_srv + ev_cli + ev_asrv + cur.push(ev@));
                }
            } else {
                proof {
                    assert(!acli_complete()(n0.action_cli[i as int]));
                    assert(complete_events(
                        n0.action_cli.take(i + 1),
                        acli_complete(),
                        undisc_acli(n0.fullname),
                    ) =~= cur);
                }
            }
            i += 1;
        }
        proof {
            assert(n0.action_cli.take(n0.action_cli.len() as int) =~= n0.action_cli);
        }
        self.topic_pub = Vec::new();
        self.topic_sub = Vec::new();
        self.service_srv = Vec::new();
        self.service_cli = Vec::new();
        self.action_srv = Vec::new();
        self.action_cli = Vec::new();
        self.undiscovered_reader = Vec::new();
        self.undiscovered_writer = Vec::new();
        proof {
            assert(self@ =~= n0.cleared());
            assert(events_view(events@) =~= all_undiscovered_events(
                n0,
            ));
        }
        events
    }
}

} // verus!

