//! The raw DDS-level records discovery delivers: participants and
//! reader/writer endpoints.

use vstd::prelude::*;

use crate::gid::Gid;
use crate::qos::Qos;

verus! {

/// A DDS participant: its identity and QoS, the latter retained for the
/// admin plane.
pub struct DdsParticipant {
    pub key: Gid,
    pub qos: Qos,
}

/// A DDS reader or writer endpoint. A node claims an endpoint by listing
/// its key in a manifest; endpoints exist independently of any node.
pub struct DdsEntity {
    pub key: Gid,
    pub participant_key: Gid,
    pub topic_name: String,
    pub typ_name: String,
    pub keyless: bool,
    pub qos: Qos,
}

/// Ghost image of an endpoint.
#[verifier::ext_equal]
pub struct DdsEntityView {
    pub key: Gid,
    pub participant_key: Gid,
    pub topic_name: Seq<char>,
    pub typ_name: Seq<char>,
    pub keyless: bool,
    pub qos: Qos,
}

impl View for DdsEntity {
    type V = DdsEntityView;

    open spec fn view(&self) -> DdsEntityView {
        DdsEntityView {
            key: self.key,
            participant_key: self.participant_key,
            topic_name: self.topic_name@,
            typ_name: self.typ_name@,
            keyless: self.keyless,
            qos: self.qos,
        }
    }
}

} // verus!
