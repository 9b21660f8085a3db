//! The periodically polled per-participant manifests: each lists the nodes
//! a participant hosts and the endpoint identifiers every node claims. Each
//! arrival fully replaces the previous manifest of its participant.

use vstd::prelude::*;

use crate::gid::Gid;

verus! {

/// One node's line in a manifest: its namespace and name, and the readers
/// and writers it claims.
pub struct NodeEntitiesInfo {
    pub node_namespace: String,
    pub node_name: String,
    pub reader_gid_seq: Vec<Gid>,
    pub writer_gid_seq: Vec<Gid>,
}

/// Ghost image of a manifest line.
#[verifier::ext_equal]
pub struct NodeEntitiesInfoView {
    pub node_namespace: Seq<char>,
    pub node_name: Seq<char>,
    pub reader_gid_seq: Seq<Gid>,
    pub writer_gid_seq: Seq<Gid>,
}

impl View for NodeEntitiesInfo {
    type V = NodeEntitiesInfoView;

    open spec fn view(&self) -> NodeEntitiesInfoView {
        NodeEntitiesInfoView {
            node_namespace: self.node_namespace@,
            node_name: self.node_name@,
            reader_gid_seq: self.reader_gid_seq@,
            writer_gid_seq: self.writer_gid_seq@,
        }
    }
}

impl NodeEntitiesInfoView {
    /// The full name the line describes.
    pub open spec fn fullname(self) -> Seq<char> {
        crate::node_info::spec_fullname(self.node_namespace, self.node_name)
    }
}

/// A whole manifest: the participant and its nodes.
pub struct ParticipantEntitiesInfo {
    pub gid: Gid,
    pub node_entities_info_seq: Vec<NodeEntitiesInfo>,
}

/// Ghost image of a manifest.
#[verifier::ext_equal]
pub struct ParticipantEntitiesInfoView {
    pub gid: Gid,
    pub node_entities_info_seq: Seq<NodeEntitiesInfoView>,
}

impl View for ParticipantEntitiesInfo {
    type V = ParticipantEntitiesInfoView;

    open spec fn view(&self) -> ParticipantEntitiesInfoView {
        ParticipantEntitiesInfoView {
            gid: self.gid,
            node_entities_info_seq: self.node_entities_info_seq@.map_values(
                |n: NodeEntitiesInfo| n@,
            ),
        }
    }
}

/// Whether a manifest still lists a node of the given full name.
pub open spec fn manifest_has_fullname(m: ParticipantEntitiesInfoView, fullname: Seq<char>) -> bool {
    exists|i: int|
        0 <= i < m.node_entities_info_seq.len() && (#[trigger] m.node_entities_info_seq[i]).fullname()
            == fullname
}

} // verus!
