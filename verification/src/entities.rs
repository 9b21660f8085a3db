//! The authoritative store of discovered DDS participants, endpoints and
//! per-participant node sets, with the admin-space index and the diff engine
//! that turns raw discovery and node manifests into typed events.

use vstd::prelude::*;

use crate::endpoints::{DdsEntity, DdsParticipant};
use crate::gid::{gid_hex, Gid};
use crate::node_info::{apply_reader_spec, apply_writer_spec, all_undiscovered_events,
    events_view, nodes_view_of, opt_event_view, remove_writer_spec, remove_reader_spec, EventView,
    NodeInfo, NodeInfoView, ROS2DiscoveryEvent};
use crate::seq_find::{first_where, lemma_first_where, lemma_first_where_is,
    lemma_first_where_none};
use crate::text::str_eq;

verus! {

/// A tagged reference from the admin space into the authoritative maps; it
/// is resolved at query time and never co-owns an entity.
pub enum EntityRef {
    Participant(Gid),
    Writer(Gid),
    Reader(Gid),
    Node(Gid, String),
}

/// Ghost image of an admin reference.
#[verifier::ext_equal]
pub enum EntityRefView {
    Participant(Gid),
    Writer(Gid),
    Reader(Gid),
    Node(Gid, Seq<char>),
}

impl View for EntityRef {
    type V = EntityRefView;

    open spec fn view(&self) -> EntityRefView {
        match self {
            EntityRef::Participant(g) => EntityRefView::Participant(*g),
            EntityRef::Writer(g) => EntityRefView::Writer(*g),
            EntityRef::Reader(g) => EntityRefView::Reader(*g),
            EntityRef::Node(g, n) => EntityRefView::Node(*g, n@),
        }
    }
}

/// One admin-space entry: an admin key expression and the reference it
/// names.
pub struct AdminEntry {
    pub key: String,
    pub entity: EntityRef,
}

/// Ghost image of an admin entry.
#[verifier::ext_equal]
pub struct AdminEntryView {
    pub key: Seq<char>,
    pub entity: EntityRefView,
}

impl View for AdminEntry {
    type V = AdminEntryView;

    open spec fn view(&self) -> AdminEntryView {
        AdminEntryView { key: self.key@, entity: self.entity@ }
    }
}

/// Ghost image of the admin space.
pub open spec fn admin_view(s: Seq<AdminEntry>) -> Seq<AdminEntryView> {
    s.map_values(|a: AdminEntry| a@)
}

/// The admin key of a participant: `dds/<gid>`.
pub open spec fn ke_participant(g: Gid) -> Seq<char> {
    "dds/"@ + gid_hex(g)
}

/// The admin key of a writer: `dds/<participant>/writer/<gid>/<topic>`.
pub open spec fn ke_writer(p: Gid, w: Gid, topic: Seq<char>) -> Seq<char> {
    "dds/"@ + gid_hex(p) + "/writer/"@ + gid_hex(w) + "/"@ + topic
}

/// The admin key of a reader: `dds/<participant>/reader/<gid>/<topic>`.
pub open spec fn ke_reader(p: Gid, r: Gid, topic: Seq<char>) -> Seq<char> {
    "dds/"@ + gid_hex(p) + "/reader/"@ + gid_hex(r) + "/"@ + topic
}

/// The admin key of a node: `node/<participant>/<fullname minus its leading
/// slash>`.
pub open spec fn ke_node(p: Gid, fullname: Seq<char>) -> Seq<char> {
    "node/"@ + gid_hex(p) + "/"@ + fullname.skip(1)
}

/// Builds the admin key of a participant.
pub fn make_ke_participant(g: &Gid) -> (r: String)
    ensures
        r@ == ke_participant(*g),
{
    let mut out = String::new();
    out.append("dds/");
    let hex = g.to_hex();
    out.append(hex.as_str());
    proof {
        assert(out@ =~= ke_participant(*g));
    }
    out
}

/// Builds the admin key of a writer.
pub fn make_ke_writer(p: &Gid, w: &Gid, topic: &str) -> (r: String)
    ensures
        r@ == ke_writer(*p, *w, topic@),
{
    let mut out = String::new();
    out.append("dds/");
    let hp = p.to_hex();
    out.append(hp.as_str());
    out.append("/writer/");
    let hw = w.to_hex();
    out.append(hw.as_str());
    out.append("/");
    out.append(topic);
    proof {
        assert(out@ =~= ke_writer(*p, *w, topic@));
    }
    out
}

/// Builds the admin key of a reader.
pub fn make_ke_reader(p: &Gid, r: &Gid, topic: &str) -> (res: String)
    ensures
        res@ == ke_reader(*p, *r, topic@),
{
    let mut out = String::new();
    out.append("dds/");
    let hp = p.to_hex();
    out.append(hp.as_str());
    out.append("/reader/");
    let hr = r.to_hex();
    out.append(hr.as_str());
    out.append("/");
    out.append(topic);
    proof {
        assert(out@ =~= ke_reader(*p, *r, topic@));
    }
    out
}

/// Builds the admin key of a node.
pub fn make_ke_node(p: &Gid, fullname: &str) -> (r: String)
    requires
        fullname@.len() >= 1,
    ensures
        r@ == ke_node(*p, fullname@),
{
    let mut out = String::new();
    out.append("node/");
    let hp = p.to_hex();
    out.append(hp.as_str());
    out.append("/");
    let rest = fullname.substring_char(1, fullname.unicode_len());
    out.append(rest);
    proof {
        assert(rest@ =~= fullname@.skip(1));
        assert(out@ =~= ke_node(*p, fullname@));
    }
    out
}

/// Search predicates over the registry tables.
pub open spec fn by_part_key(g: Gid) -> spec_fn(DdsParticipant) -> bool {
    |p: DdsParticipant| p.key == g
}

pub open spec fn by_entity_key(g: Gid) -> spec_fn(DdsEntity) -> bool {
    |e: DdsEntity| e.key == g
}

pub open spec fn by_admin_key(k: Seq<char>) -> spec_fn(AdminEntryView) -> bool {
    |a: AdminEntryView| a.key == k
}

pub open spec fn by_pending_writer(g: Gid) -> spec_fn(NodeInfoView) -> bool {
    |n: NodeInfoView| n.undiscovered_writer.contains(g)
}

pub open spec fn by_pending_reader(g: Gid) -> spec_fn(NodeInfoView) -> bool {
    |n: NodeInfoView| n.undiscovered_reader.contains(g)
}

/// The table with `p` stored under its key: replacing the entry holding
/// that key, or appended when the key is new.
pub open spec fn upsert_part(s: Seq<DdsParticipant>, p: DdsParticipant) -> Seq<DdsParticipant> {
    let i = first_where(s, by_part_key(p.key));
    if i == s.len() {
        s.push(p)
    } else {
        s.update(i, p)
    }
}

/// The endpoint table with `e` stored under its key.
pub open spec fn upsert_entity(s: Seq<DdsEntity>, e: DdsEntity) -> Seq<DdsEntity> {
    let i = first_where(s, by_entity_key(e.key));
    if i == s.len() {
        s.push(e)
    } else {
        s.update(i, e)
    }
}

/// The admin space with an entry stored under its key.
pub open spec fn upsert_admin(s: Seq<AdminEntryView>, a: AdminEntryView) -> Seq<AdminEntryView> {
    let i = first_where(s, by_admin_key(a.key));
    if i == s.len() {
        s.push(a)
    } else {
        s.update(i, a)
    }
}

/// The admin space without the entry under `k`, when there is one.
pub open spec fn admin_remove_key(s: Seq<AdminEntryView>, k: Seq<char>) -> Seq<AdminEntryView> {
    let i = first_where(s, by_admin_key(k));
    if i == s.len() {
        s
    } else {
        s.remove(i)
    }
}

/// The authoritative store of everything discovery has seen.
pub struct DiscoveredEntities {
    pub participants: Vec<DdsParticipant>,
    pub writers: Vec<DdsEntity>,
    pub readers: Vec<DdsEntity>,
    pub ros_participant_info: Vec<crate::ros_discovery::ParticipantEntitiesInfo>,
    pub nodes_info: Vec<NodeInfo>,
    pub admin_space: Vec<AdminEntry>,
}

impl DiscoveredEntities {
    /// An empty registry.
    pub fn new() -> (r: DiscoveredEntities)
        ensures
            r.wf(),
            r.participants@.len() == 0,
            r.writers@.len() == 0,
            r.readers@.len() == 0,
            r.ros_participant_info@.len() == 0,
            nodes_view_of(r.nodes_info@).len() == 0,
            admin_view(r.admin_space@).len() == 0,
    {
        let r = DiscoveredEntities {
            participants: Vec::new(),
            writers: Vec::new(),
            readers: Vec::new(),
            ros_participant_info: Vec::new(),
            nodes_info: Vec::new(),
            admin_space: Vec::new(),
        };
        proof {
            assert(nodes_view_of(r.nodes_info@).len() == 0);
            assert(admin_view(r.admin_space@).len() == 0);
        }
        r
    }

    /// Well-formedness: every table is keyed, and every stored node is
    /// well formed.
    pub open spec fn wf(self) -> bool {
        &&& forall|i: int, j: int|
            0 <= i < j < self.participants@.len() ==> self.participants@[i].key
                != self.participants@[j].key
        &&& forall|i: int, j: int|
            0 <= i < j < self.writers@.len() ==> self.writers@[i].key != self.writers@[j].key
        &&& forall|i: int, j: int|
            0 <= i < j < self.readers@.len() ==> self.readers@[i].key != self.readers@[j].key
        &&& forall|i: int|
            0 <= i < nodes_view_of(self.nodes_info@).len() ==> (#[trigger] nodes_view_of(
                self.nodes_info@,
            )[i]).wf()
        &&& forall|i: int, j: int|
            0 <= i < j < nodes_view_of(self.nodes_info@).len() ==> !(nodes_view_of(
                self.nodes_info@,
            )[i].participant == nodes_view_of(self.nodes_info@)[j].participant && nodes_view_of(
                self.nodes_info@,
            )[i].fullname == nodes_view_of(self.nodes_info@)[j].fullname)
        &&& forall|i: int, j: int|
            0 <= i < j < admin_view(self.admin_space@).len() ==> admin_view(
                self.admin_space@,
            )[i].key != admin_view(self.admin_space@)[j].key
        &&& forall|i: int, j: int|
            0 <= i < j < self.ros_participant_info@.len() ==> self.ros_participant_info@[i].gid
                != self.ros_participant_info@[j].gid
    }

    /// The first stored writer under `gid`, when there is one.
    pub fn get_writer(&self, gid: &Gid) -> (r: Option<&DdsEntity>)
        ensures
            ({
                let i = first_where(self.writers@, by_entity_key(*gid));
                match r {
                    Some(e) => i < self.writers@.len() && *e == self.writers@[i],
                    None => i == self.writers@.len(),
                }
            }),
    {
        let i = find_entity(&self.writers, gid);
        if i < self.writers.len() {
            Some(&self.writers[i])
        } else {
            None
        }
    }

    /// The first stored reader under `gid`, when there is one.
    pub fn get_reader(&self, gid: &Gid) -> (r: Option<&DdsEntity>)
        ensures
            ({
                let i = first_where(self.readers@, by_entity_key(*gid));
                match r {
                    Some(e) => i < self.readers@.len() && *e == self.readers@[i],
                    None => i == self.readers@.len(),
                }
            }),
    {
        let i = find_entity(&self.readers, gid);
        if i < self.readers.len() {
            Some(&self.readers[i])
        } else {
            None
        }
    }

    /// Records a discovered participant and indexes it in the admin space.
    pub fn add_participant(&mut self, participant: DdsParticipant)
        requires
            old(self).wf(),
        ensures
            final(self).wf(),
            final(self).participants@ == upsert_part(old(self).participants@, participant),
            admin_view(final(self).admin_space@) == upsert_admin(
                admin_view(old(self).admin_space@),
                AdminEntryView {
                    key: ke_participant(participant.key),
                    entity: EntityRefView::Participant(participant.key),
                },
            ),
            final(self).writers@ == old(self).writers@,
            final(self).readers@ == old(self).readers@,
            nodes_view_of(final(self).nodes_info@) == nodes_view_of(old(self).nodes_info@),
            final(self).ros_participant_info@ == old(self).ros_participant_info@,
    {
        let key = make_ke_participant(&participant.key);
        let gid = participant.key;
        admin_upsert(&mut self.admin_space, key, EntityRef::Participant(gid));
        let ghost parts0 = self.participants@;
        let i = find_participant(&self.participants, &gid);
        proof {
            lemma_first_where(parts0, by_part_key(gid));
        }
        if i == self.participants.len() {
            self.participants.push(participant);
        } else {
            self.participants.set(i, participant);
        }
        proof {
            assert forall|a: int, b: int|
                0 <= a < b < self.participants@.len() implies self.participants@[a].key
                != self.participants@[b].key by {
                assert(forall|x: int|
                    0 <= x < parts0.len() ==> old(self).participants@[x] == parts0[x]);
            }
        }
    }
}

/// The first index whose participant has `g` as key, or the length.
fn find_participant(v: &Vec<DdsParticipant>, g: &Gid) -> (i: usize)
    ensures
        i as int == first_where(v@, by_part_key(*g)),
        i <= v@.len(),
        i < v@.len() ==> v@[i as int].key == *g,
        i == v@.len() ==> forall|j: int| 0 <= j < v@.len() ==> v@[j].key != *g,
{
    let n = v.len();
    let mut i: usize = 0;
    while i < n
        invariant
            i <= n,
            n == v@.len(),
            forall|j: int| 0 <= j < i ==> v@[j].key != *g,
        decreases n - i,
    {
        if v[i].key == *g {
            proof {
                lemma_first_where_is(v@, by_part_key(*g), i as int);
            }
            return i;
        }
        i += 1;
    }
    proof {
        lemma_first_where_none(v@, by_part_key(*g));
    }
    n
}

/// The first index whose endpoint has `g` as key, or the length.
fn find_entity(v: &Vec<DdsEntity>, g: &Gid) -> (i: usize)
    ensures
        i as int == first_where(v@, by_entity_key(*g)),
        i <= v@.len(),
        i < v@.len() ==> v@[i as int].key == *g,
        i == v@.len() ==> forall|j: int| 0 <= j < v@.len() ==> v@[j].key != *g,
{
    let n = v.len();
    let mut i: usize = 0;
    while i < n
        invariant
            i <= n,
            n == v@.len(),
            forall|j: int| 0 <= j < i ==> v@[j].key != *g,
        decreases n - i,
    {
        if v[i].key == *g {
            proof {
                lemma_first_where_is(v@, by_entity_key(*g), i as int);
            }
            return i;
        }
        i += 1;
    }
    proof {
        lemma_first_where_none(v@, by_entity_key(*g));
    }
    n
}

/// The first index whose admin entry has key `k`, or the length.
fn find_admin(v: &Vec<AdminEntry>, k: &str) -> (i: usize)
    ensures
        i as int == first_where(admin_view(v@), by_admin_key(k@)),
        i <= v@.len(),
{
    let n = v.len();
    let mut i: usize = 0;
    while i < n
        invariant
            i <= n,
            n == v@.len(),
            forall|j: int| 0 <= j < i ==> v@[j]@.key != k@,
        decreases n - i,
    {
        if str_eq(v[i].key.as_str(), k) {
            proof {
                assert(forall|j: int| 0 <= j < n ==> admin_view(v@)[j] == v@[j]@);
                lemma_first_where_is(admin_view(v@), by_admin_key(k@), i as int);
            }
            return i;
        }
        i += 1;
    }
    proof {
        assert(forall|j: int| 0 <= j < n ==> admin_view(v@)[j] == v@[j]@);
        lemma_first_where_none(admin_view(v@), by_admin_key(k@));
    }
    n
}

/// Stores `entity` under `key` in the admin space, replacing any entry with
/// the same key and preserving key uniqueness.
fn admin_upsert(v: &mut Vec<AdminEntry>, key: String, entity: EntityRef)
    requires
        forall|i: int, j: int|
            0 <= i < j < admin_view(old(v)@).len() ==> admin_view(old(v)@)[i].key != admin_view(
                old(v)@,
            )[j].key,
    ensures
        admin_view(final(v)@) == upsert_admin(
            admin_view(old(v)@),
            AdminEntryView { key: key@, entity: entity@ },
        ),
        forall|i: int, j: int|
            0 <= i < j < admin_view(final(v)@).len() ==> admin_view(final(v)@)[i].key
                != admin_view(final(v)@)[j].key,
{
    let ghost a0 = admin_view(v@);
    let ghost entryv = AdminEntryView { key: key@, entity: entity@ };
    let i = find_admin(v, key.as_str());
    proof {
        lemma_first_where(a0, by_admin_key(key@));
    }
    if i == v.len() {
        v.push(AdminEntry { key, entity });
        proof {
            assert(admin_view(v@) =~= a0.push(entryv));
            assert forall|a: int, b: int|
                0 <= a < b < a0.push(entryv).len() implies a0.push(entryv)[a].key != a0.push(
                entryv,
            )[b].key by {
                if b == a0.len() {
                    assert(!by_admin_key(key@)(a0[a]));
                }
            }
        }
    } else {
        v.set(i, AdminEntry { key, entity });
        proof {
            assert(by_admin_key(key@)(a0[i as int]));
            assert(entryv.key == a0[i as int].key);
            assert(admin_view(v@) =~= a0.update(i as int, entryv));
            assert forall|a: int, b: int|
                0 <= a < b < a0.update(i as int, entryv).len() implies a0.update(
                i as int,
                entryv,
            )[a].key != a0.update(i as int, entryv)[b].key by {
                assert(a0.update(i as int, entryv)[a].key == a0[a].key);
                assert(a0.update(i as int, entryv)[b].key == a0[b].key);
            }
        }
    }
}

/// The node table, admin space and event list after a participant dies:
/// every node it owned is dropped whole, its admin entry removed and its
/// interfaces reported undiscovered, in table order.
pub open spec fn cascade_participant(
    nodes: Seq<NodeInfoView>,
    admin: Seq<AdminEntryView>,
    gid: Gid,
) -> (Seq<NodeInfoView>, Seq<AdminEntryView>, Seq<EventView>)
    decreases nodes.len(),
{
    if nodes.len() == 0 {
        (nodes, admin, Seq::empty())
    } else if nodes[0].participant == gid {
        let admin1 = admin_remove_key(admin, ke_node(gid, nodes[0].fullname));
        let rest = cascade_participant(nodes.skip(1), admin1, gid);
        (rest.0, rest.1, all_undiscovered_events(nodes[0]) + rest.2)
    } else {
        let rest = cascade_participant(nodes.skip(1), admin, gid);
        (seq![nodes[0]] + rest.0, rest.1, rest.2)
    }
}

/// The writer table and admin space after a participant dies: every writer
/// it owned leaves the table, its admin entry going with it, in table
/// order.
pub open spec fn purge_writers(
    ents: Seq<DdsEntity>,
    admin: Seq<AdminEntryView>,
    gid: Gid,
) -> (Seq<DdsEntity>, Seq<AdminEntryView>)
    decreases ents.len(),
{
    if ents.len() == 0 {
        (ents, admin)
    } else if ents[0].participant_key == gid {
        purge_writers(
            ents.skip(1),
            admin_remove_key(admin, ke_writer(gid, ents[0].key, ents[0].topic_name@)),
            gid,
        )
    } else {
        let rest = purge_writers(ents.skip(1), admin, gid);
        (seq![ents[0]] + rest.0, rest.1)
    }
}

/// The reader table and admin space after a participant dies.
pub open spec fn purge_readers(
    ents: Seq<DdsEntity>,
    admin: Seq<AdminEntryView>,
    gid: Gid,
) -> (Seq<DdsEntity>, Seq<AdminEntryView>)
    decreases ents.len(),
{
    if ents.len() == 0 {
        (ents, admin)
    } else if ents[0].participant_key == gid {
        purge_readers(
            ents.skip(1),
            admin_remove_key(admin, ke_reader(gid, ents[0].key, ents[0].topic_name@)),
            gid,
        )
    } else {
        let rest = purge_readers(ents.skip(1), admin, gid);
        (seq![ents[0]] + rest.0, rest.1)
    }
}

impl DiscoveredEntities {
    /// Forgets a participant: its record leaves the store and the admin
    /// space, every endpoint it owned leaves the endpoint tables with its
    /// admin entry, and every node it owned is dropped, each complete
    /// interface reported undiscovered.
    #[verifier::loop_isolation(false)]
    #[verifier::rlimit(100)]
    pub fn remove_participant(&mut self, gid: &Gid) -> (r: Vec<ROS2DiscoveryEvent>)
        requires
            old(self).wf(),
        ensures
            final(self).wf(),
            ({
                let i = first_where(old(self).participants@, by_part_key(*gid));
                final(self).participants@ == if i < old(self).participants@.len() {
                    old(self).participants@.remove(i)
                } else {
                    old(self).participants@
                }
            }),
            ({
                let a0 = admin_remove_key(
                    admin_view(old(self).admin_space@),
                    ke_participant(*gid),
                );
                let pw = purge_writers(old(self).writers@, a0, *gid);
                let pr = purge_readers(old(self).readers@, pw.1, *gid);
                let c = cascade_participant(nodes_view_of(old(self).nodes_info@), pr.1, *gid);
                &&& final(self).writers@ == pw.0
                &&& final(self).readers@ == pr.0
                &&& nodes_view_of(final(self).nodes_info@) == c.0
                &&& admin_view(final(self).admin_space@) == c.1
                &&& events_view(r@) == c.2
            }),
            final(self).ros_participant_info@ == old(self).ros_participant_info@,
    {
        let g = *gid;
        let ghost parts0 = self.participants@;
        let p = find_participant(&self.participants, gid);
        proof {
            lemma_first_where(parts0, by_part_key(g));
        }
        if p < self.participants.len() {
            self.participants.remove(p);
            proof {
                assert(self.participants@ =~= parts0.remove(p as int));
                assert(parts0.remove(p as int) =~= parts0.take(p as int) + parts0.skip(
                    p as int + 1,
                ));
                assert forall|a: int, b: int|
                    0 <= a < b < self.participants@.len() implies self.participants@[a].key
                    != self.participants@[b].key by {
                    let a1 = if a < p as int {
                        a
                    } else {
                        a + 1
                    };
                    let b1 = if b < p as int {
                        b
                    } else {
                        b + 1
                    };
                    assert(self.participants@[a] == parts0[a1]);
                    assert(self.participants@[b] == parts0[b1]);
                }
            }
        }
        let pkey = make_ke_participant(gid);
        admin_remove(&mut self.admin_space, pkey.as_str());
        let ghost wtab0 = self.writers@;
        let ghost wadmin0 = admin_view(self.admin_space@);
        let ghost parts_mid = self.participants@;
        let ghost rtab_keep = self.readers@;
        let ghost nodes_keep = self.nodes_info@;
        let ghost ros_keep = self.ros_participant_info@;
        let mut i: usize = 0;
        proof {
            assert(wtab0.skip(0) =~= wtab0);
            assert(self.writers@.take(0) =~= Seq::<DdsEntity>::empty());
            assert(self.writers@.take(0) + purge_writers(wtab0, wadmin0, g).0
                =~= purge_writers(wtab0, wadmin0, g).0);
        }
        while i < self.writers.len()
            invariant
                i <= self.writers@.len(),
                self.participants@ == parts_mid,
                self.readers@ == rtab_keep,
                self.nodes_info@ == nodes_keep,
                self.ros_participant_info@ == ros_keep,
                forall|a: int, b: int|
                    0 <= a < b < self.writers@.len() ==> self.writers@[a].key
                        != self.writers@[b].key,
                forall|a: int, b: int|
                    0 <= a < b < admin_view(self.admin_space@).len() ==> admin_view(
                        self.admin_space@,
                    )[a].key != admin_view(self.admin_space@)[b].key,
                forall|j: int| 0 <= j < i ==> self.writers@[j].participant_key != g,
                purge_writers(wtab0, wadmin0, g).0 == self.writers@.take(i as int)
                    + purge_writers(
                    self.writers@.skip(i as int),
                    admin_view(self.admin_space@),
                    g,
                ).0,
                purge_writers(wtab0, wadmin0, g).1 == purge_writers(
                    self.writers@.skip(i as int),
                    admin_view(self.admin_space@),
                    g,
                ).1,
            decreases self.writers@.len() - i,
        {
            let ghost wpre = self.writers@;
            let ghost apre = admin_view(self.admin_space@);
            let ghost rest = wpre.skip(i as int);
            proof {
                assert(rest[0] == wpre[i as int]);
            }
            if self.writers[i].participant_key == *gid {
                let w = self.writers.remove(i);
                let key = make_ke_writer(gid, &w.key, w.topic_name.as_str());
                admin_remove(&mut self.admin_space, key.as_str());
                proof {
                    assert(purge_writers(rest, apre, g) == purge_writers(
                        rest.skip(1),
                        admin_remove_key(
                            apre,
                            ke_writer(g, rest[0].key, rest[0].topic_name@),
                        ),
                        g,
                    ));
                    assert(self.writers@ =~= wpre.remove(i as int));
                    assert(wpre.remove(i as int) =~= wpre.take(i as int) + wpre.skip(
                        i as int + 1,
                    ));
                    assert(self.writers@.skip(i as int) =~= rest.skip(1));
                    assert(self.writers@.take(i as int) =~= wpre.take(i as int));
                    assert(admin_view(self.admin_space@) == admin_remove_key(
                        apre,
                        ke_writer(g, rest[0].key, rest[0].topic_name@),
                    ));
                    assert forall|a: int, b: int|
                        0 <= a < b < self.writers@.len() implies self.writers@[a].key
                        != self.writers@[b].key by {
                        let a1 = if a < i as int {
                            a
                        } else {
                            a + 1
                        };
                        let b1 = if b < i as int {
                            b
                        } else {
                            b + 1
                        };
                        assert(self.writers@[a] == wpre[a1]);
                        assert(self.writers@[b] == wpre[b1]);
                    }
                }
            } else {
                proof {
                    assert(rest[0].participant_key != g);
                    assert(purge_writers(rest, apre, g).0 == seq![rest[0]] + purge_writers(
                        rest.skip(1),
                        apre,
                        g,
                    ).0);
                    assert(purge_writers(rest, apre, g).1 == purge_writers(
                        rest.skip(1),
                        apre,
                        g,
                    ).1);
                    assert(wpre.skip(i as int + 1) =~= rest.skip(1));
                    assert(wpre.take(i as int + 1) =~= wpre.take(i as int) + seq![rest[0]]);
                    assert(wpre.take(i as int) + (seq![rest[0]] + purge_writers(
                        rest.skip(1),
                        apre,
                        g,
                    ).0) =~= (wpre.take(i as int) + seq![rest[0]]) + purge_writers(
                        rest.skip(1),
                        apre,
                        g,
                    ).0);
                }
                i += 1;
            }
        }
        proof {
            assert(self.writers@.skip(i as int) =~= Seq::<DdsEntity>::empty());
            assert(self.writers@.take(i as int) =~= self.writers@);
            assert(self.writers@.take(i as int) + purge_writers(
                self.writers@.skip(i as int),
                admin_view(self.admin_space@),
                g,
            ).0 =~= self.writers@);
            assert(purge_writers(
                self.writers@.skip(i as int),
                admin_view(self.admin_space@),
                g,
            ).1 == admin_view(self.admin_space@));
            assert(purge_writers(wtab0, wadmin0, g).0 == self.writers@);
            assert(purge_writers(wtab0, wadmin0, g).1 == admin_view(self.admin_space@));
        }
        let ghost rtab0 = self.readers@;
        let ghost radmin0 = admin_view(self.admin_space@);
        let ghost wtab_done = self.writers@;
        let mut i: usize = 0;
        proof {
            assert(rtab0.skip(0) =~= rtab0);
            assert(self.readers@.take(0) =~= Seq::<DdsEntity>::empty());
            assert(self.readers@.take(0) + purge_readers(rtab0, radmin0, g).0
                =~= purge_readers(rtab0, radmin0, g).0);
        }
        while i < self.readers.len()
            invariant
                i <= self.readers@.len(),
                self.participants@ == parts_mid,
                self.writers@ == wtab_done,
                self.nodes_info@ == nodes_keep,
                self.ros_participant_info@ == ros_keep,
                forall|a: int, b: int|
                    0 <= a < b < self.writers@.len() ==> self.writers@[a].key
                        != self.writers@[b].key,
                forall|a: int, b: int|
                    0 <= a < b < self.readers@.len() ==> self.readers@[a].key
                        != self.readers@[b].key,
                forall|a: int, b: int|
                    0 <= a < b < admin_view(self.admin_space@).len() ==> admin_view(
                        self.admin_space@,
                    )[a].key != admin_view(self.admin_space@)[b].key,
                forall|j: int| 0 <= j < i ==> self.readers@[j].participant_key != g,
                purge_readers(rtab0, radmin0, g).0 == self.readers@.take(i as int)
                    + purge_readers(
                    self.readers@.skip(i as int),
                    admin_view(self.admin_space@),
                    g,
                ).0,
                purge_readers(rtab0, radmin0, g).1 == purge_readers(
                    self.readers@.skip(i as int),
                    admin_view(self.admin_space@),
                    g,
                ).1,
            decreases self.readers@.len() - i,
        {
            let ghost rpre = self.readers@;
            let ghost apre = admin_view(self.admin_space@);
            let ghost rest = rpre.skip(i as int);
            proof {
                assert(rest[0] == rpre[i as int]);
            }
            if self.readers[i].participant_key == *gid {
                let w = self.readers.remove(i);
                let key = make_ke_reader(gid, &w.key, w.topic_name.as_str());
                admin_remove(&mut self.admin_space, key.as_str());
                proof {
                    assert(purge_readers(rest, apre, g) == purge_readers(
                        rest.skip(1),
                        admin_remove_key(
                            apre,
                            ke_reader(g, rest[0].key, rest[0].topic_name@),
                        ),
                        g,
                    ));
                    assert(self.readers@ =~= rpre.remove(i as int));
                    assert(rpre.remove(i as int) =~= rpre.take(i as int) + rpre.skip(
                        i as int + 1,
                    ));
                    assert(self.readers@.skip(i as int) =~= rest.skip(1));
                    assert(self.readers@.take(i as int) =~= rpre.take(i as int));
                    assert(admin_view(self.admin_space@) == admin_remove_key(
                        apre,
                        ke_reader(g, rest[0].key, rest[0].topic_name@),
                    ));
                    assert forall|a: int, b: int|
                        0 <= a < b < self.readers@.len() implies self.readers@[a].key
                        != self.readers@[b].key by {
                        let a1 = if a < i as int {
                            a
                        } else {
                            a + 1
                        };
                        let b1 = if b < i as int {
                            b
                        } else {
                            b + 1
                        };
                        assert(self.readers@[a] == rpre[a1]);
                        assert(self.readers@[b] == rpre[b1]);
                    }
                }
            } else {
                proof {
                    assert(rest[0].participant_key != g);
                    assert(purge_readers(rest, apre, g).0 == seq![rest[0]] + purge_readers(
                        rest.skip(1),
                        apre,
                        g,
                    ).0);
                    assert(purge_readers(rest, apre, g).1 == purge_readers(
                        rest.skip(1),
                        apre,
                        g,
                    ).1);
                    assert(rpre.skip(i as int + 1) =~= rest.skip(1));
                    assert(rpre.take(i as int + 1) =~= rpre.take(i as int) + seq![rest[0]]);
                    assert(rpre.take(i as int) + (seq![rest[0]] + purge_readers(
                        rest.skip(1),
                        apre,
                        g,
                    ).0) =~= (rpre.take(i as int) + seq![rest[0]]) + purge_readers(
                        rest.skip(1),
                        apre,
                        g,
                    ).0);
                }
                i += 1;
            }
        }
        proof {
            assert(self.readers@.skip(i as int) =~= Seq::<DdsEntity>::empty());
            assert(self.readers@.take(i as int) =~= self.readers@);
            assert(self.readers@.take(i as int) + purge_readers(
                self.readers@.skip(i as int),
                admin_view(self.admin_space@),
                g,
            ).0 =~= self.readers@);
            assert(purge_readers(
                self.readers@.skip(i as int),
                admin_view(self.admin_space@),
                g,
            ).1 == admin_view(self.admin_space@));
            assert(purge_readers(rtab0, radmin0, g).0 == self.readers@);
            assert(purge_readers(rtab0, radmin0, g).1 == admin_view(self.admin_space@));
        }
        let ghost nodes0 = nodes_view_of(self.nodes_info@);
        let ghost admin1 = admin_view(self.admin_space@);
        let ghost parts1 = self.participants@;
        let ghost writers0 = self.writers@;
        let ghost readers0 = self.readers@;
        let ghost ros0 = self.ros_participant_info@;
        let mut events: Vec<ROS2DiscoveryEvent> = Vec::new();
        let mut i: usize = 0;
        proof {
            assert(nodes_view_of(self.nodes_info@).skip(0) =~= nodes0);
            assert(events_view(events@) + cascade_participant(nodes0, admin1, g).2
                =~= cascade_participant(nodes0, admin1, g).2);
        }
        while i < self.nodes_info.len()
            invariant
                i <= self.nodes_info@.len(),
                self.participants@ == parts1,
                self.writers@ == writers0,
                self.readers@ == readers0,
                self.ros_participant_info@ == ros0,
                forall|i2: int, j2: int|
                    0 <= i2 < j2 < admin_view(self.admin_space@).len() ==> admin_view(
                        self.admin_space@,
                    )[i2].key != admin_view(self.admin_space@)[j2].key,
                forall|j: int|
                    0 <= j < nodes_view_of(self.nodes_info@).len() ==> (#[trigger] nodes_view_of(
                        self.nodes_info@,
                    )[j]).wf(),
                forall|a: int, b: int|
                    0 <= a < b < nodes_view_of(self.nodes_info@).len() ==> !(nodes_view_of(
                        self.nodes_info@,
                    )[a].participant == nodes_view_of(self.nodes_info@)[b].participant
                        && nodes_view_of(self.nodes_info@)[a].fullname == nodes_view_of(
                        self.nodes_info@,
                    )[b].fullname),
                forall|j: int|
                    0 <= j < i ==> nodes_view_of(self.nodes_info@)[j].participant != g,
                cascade_participant(nodes0, admin1, g).0 == nodes_view_of(
                    self.nodes_info@,
                ).take(i as int) + cascade_participant(
                    nodes_view_of(self.nodes_info@).skip(i as int),
                    admin_view(self.admin_space@),
                    g,
                ).0,
                cascade_participant(nodes0, admin1, g).1 == cascade_participant(
                    nodes_view_of(self.nodes_info@).skip(i as int),
                    admin_view(self.admin_space@),
                    g,
                ).1,
                cascade_participant(nodes0, admin1, g).2 == events_view(events@)
                    + cascade_participant(
                    nodes_view_of(self.nodes_info@).skip(i as int),
                    admin_view(self.admin_space@),
                    g,
                ).2,
            decreases self.nodes_info@.len() - i,
        {
            let ghost nodes_pre = nodes_view_of(self.nodes_info@);
            let ghost admin_pre = admin_view(self.admin_space@);
            let ghost rest = nodes_pre.skip(i as int);
            proof {
                assert(rest[0] == nodes_pre[i as int]);
            }
            if self.nodes_info[i].participant == *gid {
                let mut node = self.nodes_info.remove(i);
                let nkey = make_ke_node(&node.participant, node.fullname.as_str());
                admin_remove(&mut self.admin_space, nkey.as_str());
                let mut evs = node.remove_all_entities();
                let ghost evs_pre = events@;
                events.append(&mut evs);
                proof {
                    assert(nodes_view_of(self.nodes_info@) =~= nodes_pre.remove(i as int));
                    assert(nodes_pre.remove(i as int) =~= nodes_pre.take(i as int)
                        + nodes_pre.skip(i as int + 1));
                    assert(nodes_view_of(self.nodes_info@).skip(i as int) =~= rest.skip(1));
                    assert(nodes_view_of(self.nodes_info@).take(i as int) =~= nodes_pre.take(
                        i as int,
                    ));
                    assert(admin_view(self.admin_space@) == admin_remove_key(
                        admin_pre,
                        ke_node(g, rest[0].fullname),
                    ));
                    assert(events_view(events@) =~= events_view(evs_pre)
                        + all_undiscovered_events(rest[0]));
                    assert(events_view(evs_pre) + (all_undiscovered_events(rest[0])
                        + cascade_participant(
                        rest.skip(1),
                        admin_view(self.admin_space@),
                        g,
                    ).2) =~= (events_view(evs_pre) + all_undiscovered_events(rest[0]))
                        + cascade_participant(rest.skip(1), admin_view(self.admin_space@), g).2);
                    assert forall|a: int, b: int|
                        0 <= a < b < nodes_view_of(self.nodes_info@).len() implies !(
                    nodes_view_of(self.nodes_info@)[a].participant == nodes_view_of(
                        self.nodes_info@,
                    )[b].participant && nodes_view_of(self.nodes_info@)[a].fullname
                        == nodes_view_of(self.nodes_info@)[b].fullname) by {
                        let a1 = if a < i as int {
                            a
                        } else {
                            a + 1
                        };
                        let b1 = if b < i as int {
                            b
                        } else {
                            b + 1
                        };
                        assert(nodes_view_of(self.nodes_info@)[a] == nodes_pre[a1]);
                        assert(nodes_view_of(self.nodes_info@)[b] == nodes_pre[b1]);
                    }
                }
            } else {
                proof {
                    assert(nodes_pre[i as int] == self.nodes_info@[i as int]@);
                    assert(rest[0].participant != g);
                    assert(nodes_pre.skip(i as int + 1) =~= rest.skip(1));
                    assert(nodes_pre.take(i as int + 1) =~= nodes_pre.take(i as int) + seq![
                        rest[0],
                    ]);
                    assert(nodes_pre.take(i as int) + (seq![rest[0]] + cascade_participant(
                        rest.skip(1),
                        admin_pre,
                        g,
                    ).0) =~= (nodes_pre.take(i as int) + seq![rest[0]]) + cascade_participant(
                        rest.skip(1),
                        admin_pre,
                        g,
                    ).0);
                }
                i += 1;
            }
        }
        proof {
            assert(nodes_view_of(self.nodes_info@).skip(i as int).len() == 0);
            assert(nodes_view_of(self.nodes_info@).take(i as int) =~= nodes_view_of(
                self.nodes_info@,
            ));
            assert(events_view(events@) + Seq::<EventView>::empty() =~= events_view(events@));
        }
        events
    }
}

/// The node with the given identity.
pub open spec fn by_node_id(g: Gid, f: Seq<char>) -> spec_fn(NodeInfoView) -> bool {
    |n: NodeInfoView| n.participant == g && n.fullname == f
}

/// The record a fresh node starts from.
pub open spec fn fresh_node_view(ns: Seq<char>, name: Seq<char>, g: Gid) -> NodeInfoView {
    NodeInfoView {
        fullname: crate::node_info::spec_fullname(ns, name),
        node_name_idx: crate::node_info::spec_fullname(ns, name).len() - name.len(),
        participant: g,
        topic_pub: Seq::empty(),
        topic_sub: Seq::empty(),
        service_srv: Seq::empty(),
        service_cli: Seq::empty(),
        action_srv: Seq::empty(),
        action_cli: Seq::empty(),
        undiscovered_reader: Seq::empty(),
        undiscovered_writer: Seq::empty(),
    }
}

/// The events of one optional event.
pub open spec fn opt_to_seq(o: Option<EventView>) -> Seq<EventView> {
    match o {
        Some(e) => seq![e],
        None => Seq::empty(),
    }
}

/// A node taking in the readers a manifest line claims: a claimed
/// identifier the endpoint table already holds is applied at once, any
/// other joins the pending queue, once.
pub open spec fn apply_reader_gids(
    n: NodeInfoView,
    gids: Seq<Gid>,
    readers: Seq<DdsEntity>,
) -> (NodeInfoView, Seq<EventView>)
    decreases gids.len(),
{
    if gids.len() == 0 {
        (n, Seq::empty())
    } else {
        let w = first_where(readers, by_entity_key(gids[0]));
        let step = if w < readers.len() {
            let r = apply_reader_spec(
                n,
                readers[w].topic_name@,
                readers[w].typ_name@,
                gids[0],
            );
            (r.0, opt_to_seq(r.1))
        } else if n.undiscovered_reader.contains(gids[0]) {
            (n, Seq::<EventView>::empty())
        } else {
            (
                n.with_pending_readers(n.undiscovered_reader.push(gids[0])),
                Seq::<EventView>::empty(),
            )
        };
        let rest = apply_reader_gids(step.0, gids.skip(1), readers);
        (rest.0, step.1 + rest.1)
    }
}

/// A node taking in the writers a manifest line claims.
pub open spec fn apply_writer_gids(
    n: NodeInfoView,
    gids: Seq<Gid>,
    writers: Seq<DdsEntity>,
) -> (NodeInfoView, Seq<EventView>)
    decreases gids.len(),
{
    if gids.len() == 0 {
        (n, Seq::empty())
    } else {
        let w = first_where(writers, by_entity_key(gids[0]));
        let step = if w < writers.len() {
            let r = apply_writer_spec(
                n,
                writers[w].topic_name@,
                writers[w].typ_name@,
                gids[0],
            );
            (r.0, opt_to_seq(r.1))
        } else if n.undiscovered_writer.contains(gids[0]) {
            (n, Seq::<EventView>::empty())
        } else {
            (
                n.with_pending_writers(n.undiscovered_writer.push(gids[0])),
                Seq::<EventView>::empty(),
            )
        };
        let rest = apply_writer_gids(step.0, gids.skip(1), writers);
        (rest.0, step.1 + rest.1)
    }
}

/// One manifest line worked into the node table: the node is located or
/// created (and then indexed in the admin space), and every claimed
/// identifier applied, readers first.
pub open spec fn apply_manifest_line(
    nodes: Seq<NodeInfoView>,
    admin: Seq<AdminEntryView>,
    line: crate::ros_discovery::NodeEntitiesInfoView,
    gid: Gid,
    readers: Seq<DdsEntity>,
    writers: Seq<DdsEntity>,
) -> (Seq<NodeInfoView>, Seq<AdminEntryView>, Seq<EventView>) {
    let f = line.fullname();
    let i = first_where(nodes, by_node_id(gid, f));
    if i == nodes.len() {
        let fresh = fresh_node_view(line.node_namespace, line.node_name, gid);
        let admin1 = upsert_admin(
            admin,
            AdminEntryView { key: ke_node(gid, f), entity: EntityRefView::Node(gid, f) },
        );
        let stepped_r = apply_reader_gids(fresh, line.reader_gid_seq, readers);
        let stepped_w = apply_writer_gids(stepped_r.0, line.writer_gid_seq, writers);
        (nodes.push(stepped_w.0), admin1, stepped_r.1 + stepped_w.1)
    } else {
        let stepped_r = apply_reader_gids(nodes[i], line.reader_gid_seq, readers);
        let stepped_w = apply_writer_gids(stepped_r.0, line.writer_gid_seq, writers);
        (nodes.update(i, stepped_w.0), admin, stepped_r.1 + stepped_w.1)
    }
}

/// Every manifest line worked in, in manifest order.
pub open spec fn apply_manifest_lines(
    nodes: Seq<NodeInfoView>,
    admin: Seq<AdminEntryView>,
    lines: Seq<crate::ros_discovery::NodeEntitiesInfoView>,
    gid: Gid,
    readers: Seq<DdsEntity>,
    writers: Seq<DdsEntity>,
) -> (Seq<NodeInfoView>, Seq<AdminEntryView>, Seq<EventView>)
    decreases lines.len(),
{
    if lines.len() == 0 {
        (nodes, admin, Seq::empty())
    } else {
        let one = apply_manifest_line(nodes, admin, lines[0], gid, readers, writers);
        let rest = apply_manifest_lines(one.0, one.1, lines.skip(1), gid, readers, writers);
        (rest.0, rest.1, one.2 + rest.2)
    }
}

/// The node table, admin space and event list after the nodes a manifest no
/// longer lists are dropped.
pub open spec fn prune_nodes(
    nodes: Seq<NodeInfoView>,
    admin: Seq<AdminEntryView>,
    m: crate::ros_discovery::ParticipantEntitiesInfoView,
) -> (Seq<NodeInfoView>, Seq<AdminEntryView>, Seq<EventView>)
    decreases nodes.len(),
{
    if nodes.len() == 0 {
        (nodes, admin, Seq::empty())
    } else if nodes[0].participant == m.gid && !crate::ros_discovery::manifest_has_fullname(
        m,
        nodes[0].fullname,
    ) {
        let admin1 = admin_remove_key(admin, ke_node(m.gid, nodes[0].fullname));
        let rest = prune_nodes(nodes.skip(1), admin1, m);
        (rest.0, rest.1, all_undiscovered_events(nodes[0]) + rest.2)
    } else {
        let rest = prune_nodes(nodes.skip(1), admin, m);
        (seq![nodes[0]] + rest.0, rest.1, rest.2)
    }
}

/// The stored manifests with `m` stored under its participant.
pub open spec fn upsert_manifest(
    s: Seq<crate::ros_discovery::ParticipantEntitiesInfo>,
    m: crate::ros_discovery::ParticipantEntitiesInfo,
) -> Seq<crate::ros_discovery::ParticipantEntitiesInfo> {
    let i = first_where(s, by_manifest_gid(m.gid));
    if i == s.len() {
        s.push(m)
    } else {
        s.update(i, m)
    }
}

/// The manifest of the given participant.
pub open spec fn by_manifest_gid(g: Gid) -> spec_fn(
    crate::ros_discovery::ParticipantEntitiesInfo,
) -> bool {
    |m: crate::ros_discovery::ParticipantEntitiesInfo| m.gid == g
}

impl DiscoveredEntities {
    /// Works a fresh manifest in: nodes the manifest no longer lists are
    /// dropped with undiscovery events, every listed node is located or
    /// created and fed the endpoints it claims, and the manifest replaces
    /// the stored one for its participant.
    #[verifier::loop_isolation(false)]
    #[verifier::rlimit(100)]
    pub fn update_participant_info(
        &mut self,
        ros_info: crate::ros_discovery::ParticipantEntitiesInfo,
    ) -> (r: Vec<ROS2DiscoveryEvent>)
        requires
            old(self).wf(),
        ensures
            final(self).wf(),
            ({
                let pruned = prune_nodes(
                    nodes_view_of(old(self).nodes_info@),
                    admin_view(old(self).admin_space@),
                    ros_info@,
                );
                let applied = apply_manifest_lines(
                    pruned.0,
                    pruned.1,
                    ros_info@.node_entities_info_seq,
                    ros_info.gid,
                    old(self).readers@,
                    old(self).writers@,
                );
                &&& nodes_view_of(final(self).nodes_info@) == applied.0
                &&& admin_view(final(self).admin_space@) == applied.1
                &&& events_view(r@) == pruned.2 + applied.2
            }),
            final(self).ros_participant_info@ == upsert_manifest(
                old(self).ros_participant_info@,
                ros_info,
            ),
            final(self).participants@ == old(self).participants@,
            final(self).writers@ == old(self).writers@,
            final(self).readers@ == old(self).readers@,
    {
        let ghost nodes0 = nodes_view_of(self.nodes_info@);
        let ghost admin0 = admin_view(self.admin_space@);
        let ghost parts0 = self.participants@;
        let ghost writers0 = self.writers@;
        let ghost readers0 = self.readers@;
        let ghost ros0 = self.ros_participant_info@;
        let gid = ros_info.gid;
        let mut events: Vec<ROS2DiscoveryEvent> = Vec::new();
        let mut i: usize = 0;
        proof {
            assert(nodes_view_of(self.nodes_info@).skip(0) =~= nodes0);
            assert(events_view(events@) + prune_nodes(nodes0, admin0, ros_info@).2
                =~= prune_nodes(nodes0, admin0, ros_info@).2);
        }
        while i < self.nodes_info.len()
            invariant
                i <= self.nodes_info@.len(),
                self.participants@ == parts0,
                self.writers@ == writers0,
                self.readers@ == readers0,
                self.ros_participant_info@ == ros0,
                forall|i2: int, j2: int|
                    0 <= i2 < j2 < admin_view(self.admin_space@).len() ==> admin_view(
                        self.admin_space@,
                    )[i2].key != admin_view(self.admin_space@)[j2].key,
                forall|j: int|
                    0 <= j < nodes_view_of(self.nodes_info@).len() ==> (#[trigger] nodes_view_of(
                        self.nodes_info@,
                    )[j]).wf(),
                forall|a: int, b: int|
                    0 <= a < b < nodes_view_of(self.nodes_info@).len() ==> !(nodes_view_of(
                        self.nodes_info@,
                    )[a].participant == nodes_view_of(self.nodes_info@)[b].participant
                        && nodes_view_of(self.nodes_info@)[a].fullname == nodes_view_of(
                        self.nodes_info@,
                    )[b].fullname),
                prune_nodes(nodes0, admin0, ros_info@).0 == nodes_view_of(
                    self.nodes_info@,
                ).take(i as int) + prune_nodes(
                    nodes_view_of(self.nodes_info@).skip(i as int),
                    admin_view(self.admin_space@),
                    ros_info@,
                ).0,
                prune_nodes(nodes0, admin0, ros_info@).1 == prune_nodes(
                    nodes_view_of(self.nodes_info@).skip(i as int),
                    admin_view(self.admin_space@),
                    ros_info@,
                ).1,
                prune_nodes(nodes0, admin0, ros_info@).2 == events_view(events@) + prune_nodes(
                    nodes_view_of(self.nodes_info@).skip(i as int),
                    admin_view(self.admin_space@),
                    ros_info@,
                ).2,
            decreases self.nodes_info@.len() - i,
        {
            let ghost nodes_pre = nodes_view_of(self.nodes_info@);
            let ghost admin_pre = admin_view(self.admin_space@);
            let ghost rest = nodes_pre.skip(i as int);
            proof {
                assert(rest[0] == nodes_pre[i as int]);
                assert(nodes_pre[i as int] == self.nodes_info@[i as int]@);
            }
            let gone = self.nodes_info[i].participant == gid && !manifest_has(
                &ros_info,
                self.nodes_info[i].fullname.as_str(),
            );
            if gone {
                let mut node = self.nodes_info.remove(i);
                let nkey = make_ke_node(&node.participant, node.fullname.as_str());
                admin_remove(&mut self.admin_space, nkey.as_str());
                let mut evs = node.remove_all_entities();
                let ghost evs_pre = events@;
                events.append(&mut evs);
                proof {
                    assert(nodes_view_of(self.nodes_info@) =~= nodes_pre.remove(i as int));
                    assert(nodes_pre.remove(i as int) =~= nodes_pre.take(i as int)
                        + nodes_pre.skip(i as int + 1));
                    assert(nodes_view_of(self.nodes_info@).skip(i as int) =~= rest.skip(1));
                    assert(nodes_view_of(self.nodes_info@).take(i as int) =~= nodes_pre.take(
                        i as int,
                    ));
                    assert(admin_view(self.admin_space@) == admin_remove_key(
                        admin_pre,
                        ke_node(gid, rest[0].fullname),
                    ));
                    assert(events_view(events@) =~= events_view(evs_pre)
                        + all_undiscovered_events(rest[0]));
                    assert(events_view(evs_pre) + (all_undiscovered_events(rest[0])
                        + prune_nodes(rest.skip(1), admin_view(self.admin_space@), ros_info@).2)
                        =~= (events_view(evs_pre) + all_undiscovered_events(rest[0]))
                        + prune_nodes(rest.skip(1), admin_view(self.admin_space@), ros_info@).2);
                    assert forall|a: int, b: int|
                        0 <= a < b < nodes_view_of(self.nodes_info@).len() implies !(
                    nodes_view_of(self.nodes_info@)[a].participant == nodes_view_of(
                        self.nodes_info@,
                    )[b].participant && nodes_view_of(self.nodes_info@)[a].fullname
                        == nodes_view_of(self.nodes_info@)[b].fullname) by {
                        let a1 = if a < i as int {
                            a
                        } else {
                            a + 1
                        };
                        let b1 = if b < i as int {
                            b
                        } else {
                            b + 1
                        };
                        assert(nodes_view_of(self.nodes_info@)[a] == nodes_pre[a1]);
                        assert(nodes_view_of(self.nodes_info@)[b] == nodes_pre[b1]);
                    }
                }
            } else {
                proof {
                    assert(nodes_pre.skip(i as int + 1) =~= rest.skip(1));
                    assert(nodes_pre.take(i as int + 1) =~= nodes_pre.take(i as int) + seq![
                        rest[0],
                    ]);
                    assert(nodes_pre.take(i as int) + (seq![rest[0]] + prune_nodes(
                        rest.skip(1),
                        admin_pre,
                        ros_info@,
                    ).0) =~= (nodes_pre.take(i as int) + seq![rest[0]]) + prune_nodes(
                        rest.skip(1),
                        admin_pre,
                        ros_info@,
                    ).0);
                }
                i += 1;
            }
        }
        proof {
            assert(nodes_view_of(self.nodes_info@).skip(i as int).len() == 0);
            assert(nodes_view_of(self.nodes_info@).take(i as int) =~= nodes_view_of(
                self.nodes_info@,
            ));
            assert(events_view(events@) + Seq::<EventView>::empty() =~= events_view(events@));
        }
        let ghost pruned_nodes = nodes_view_of(self.nodes_info@);
        let ghost pruned_admin = admin_view(self.admin_space@);
        let ghost pruned_events = events_view(events@);
        let ghost lines = ros_info@.node_entities_info_seq;
        let count = ros_info.node_entities_info_seq.len();
        let mut k: usize = 0;
        proof {
            assert(lines.skip(0) =~= lines);
            assert(pruned_events + Seq::<EventView>::empty() =~= pruned_events);
        }
        while k < count
            invariant
                k <= count,
                count == lines.len(),
                self.participants@ == parts0,
                self.writers@ == writers0,
                self.readers@ == readers0,
                self.ros_participant_info@ == ros0,
                forall|i2: int, j2: int|
                    0 <= i2 < j2 < admin_view(self.admin_space@).len() ==> admin_view(
                        self.admin_space@,
                    )[i2].key != admin_view(self.admin_space@)[j2].key,
                forall|j: int|
                    0 <= j < nodes_view_of(self.nodes_info@).len() ==> (#[trigger] nodes_view_of(
                        self.nodes_info@,
                    )[j]).wf(),
                forall|a: int, b: int|
                    0 <= a < b < nodes_view_of(self.nodes_info@).len() ==> !(nodes_view_of(
                        self.nodes_info@,
                    )[a].participant == nodes_view_of(self.nodes_info@)[b].participant
                        && nodes_view_of(self.nodes_info@)[a].fullname == nodes_view_of(
                        self.nodes_info@,
                    )[b].fullname),
                apply_manifest_lines(pruned_nodes, pruned_admin, lines, gid, readers0, writers0).0
                    == apply_manifest_lines(
                    nodes_view_of(self.nodes_info@),
                    admin_view(self.admin_space@),
                    lines.skip(k as int),
                    gid,
                    readers0,
                    writers0,
                ).0,
                apply_manifest_lines(pruned_nodes, pruned_admin, lines, gid, readers0, writers0).1
                    == apply_manifest_lines(
                    nodes_view_of(self.nodes_info@),
                    admin_view(self.admin_space@),
                    lines.skip(k as int),
                    gid,
                    readers0,
                    writers0,
                ).1,
                pruned_events + apply_manifest_lines(
                    pruned_nodes,
                    pruned_admin,
                    lines,
                    gid,
                    readers0,
                    writers0,
                ).2 == events_view(events@) + apply_manifest_lines(
                    nodes_view_of(self.nodes_info@),
                    admin_view(self.admin_space@),
                    lines.skip(k as int),
                    gid,
                    readers0,
                    writers0,
                ).2,
            decreases count - k,
        {
            let ghost nodes_pre = nodes_view_of(self.nodes_info@);
            let ghost admin_pre = admin_view(self.admin_space@);
            let ghost ev_pre = events_view(events@);
            let ghost rest = lines.skip(k as int);
            proof {
                assert(rest[0] == lines[k as int]);
                assert(rest.skip(1) =~= lines.skip(k as int + 1));
                assert(lines[k as int] == ros_info.node_entities_info_seq@[k as int]@);
            }
            let line = &ros_info.node_entities_info_seq[k];
            let fullname = line_fullname(line);
            let j = find_node(&self.nodes_info, &gid, fullname.as_str());
            proof {
                lemma_first_where(nodes_pre, by_node_id(gid, fullname@));
            }
            if j == self.nodes_info.len() {
                let mut node = NodeInfo::create(
                    line.node_namespace.clone(),
                    line.node_name.clone(),
                    gid,
                );
                proof {
                    assert(node@ =~= fresh_node_view(
                        rest[0].node_namespace,
                        rest[0].node_name,
                        gid,
                    ));
                    assert(fullname@ == rest[0].fullname());
                }
                let nkey = make_ke_node(&gid, fullname.as_str());
                admin_upsert(
                    &mut self.admin_space,
                    nkey,
                    EntityRef::Node(gid, fullname.clone()),
                );
                apply_reader_gids_exec(
                    &mut node,
                    &line.reader_gid_seq,
                    &self.readers,
                    &mut events,
                );
                let ghost ev_mid = events_view(events@);
                apply_writer_gids_exec(
                    &mut node,
                    &line.writer_gid_seq,
                    &self.writers,
                    &mut events,
                );
                proof {
                    lemma_apply_gids_frame(
                        fresh_node_view(rest[0].node_namespace, rest[0].node_name, gid),
                        rest[0].reader_gid_seq,
                        readers0,
                    );
                    lemma_apply_gids_frame(
                        apply_reader_gids(
                            fresh_node_view(rest[0].node_namespace, rest[0].node_name, gid),
                            rest[0].reader_gid_seq,
                            readers0,
                        ).0,
                        rest[0].writer_gid_seq,
                        writers0,
                    );
                }
                self.nodes_info.push(node);
                proof {
                    let stepped = apply_manifest_line(
                        nodes_pre,
                        admin_pre,
                        rest[0],
                        gid,
                        readers0,
                        writers0,
                    );
                    assert(nodes_view_of(self.nodes_info@) =~= stepped.0);
                    assert(admin_view(self.admin_space@) == stepped.1);
                    assert(events_view(events@) =~= ev_pre + stepped.2);
                    assert(ev_pre + (stepped.2 + apply_manifest_lines(
                        nodes_view_of(self.nodes_info@),
                        admin_view(self.admin_space@),
                        rest.skip(1),
                        gid,
                        readers0,
                        writers0,
                    ).2) =~= (ev_pre + stepped.2) + apply_manifest_lines(
                        nodes_view_of(self.nodes_info@),
                        admin_view(self.admin_space@),
                        rest.skip(1),
                        gid,
                        readers0,
                        writers0,
                    ).2);
                    assert forall|a: int, b: int|
                        0 <= a < b < nodes_view_of(self.nodes_info@).len() implies !(
                    nodes_view_of(self.nodes_info@)[a].participant == nodes_view_of(
                        self.nodes_info@,
                    )[b].participant && nodes_view_of(self.nodes_info@)[a].fullname
                        == nodes_view_of(self.nodes_info@)[b].fullname) by {
                        if b == nodes_pre.len() {
                            assert(!by_node_id(gid, fullname@)(nodes_pre[a]));
                            assert(nodes_view_of(self.nodes_info@)[a] == nodes_pre[a]);
                        } else {
                            assert(nodes_view_of(self.nodes_info@)[a] == nodes_pre[a]);
                            assert(nodes_view_of(self.nodes_info@)[b] == nodes_pre[b]);
                        }
                    }
                }
            } else {
                let mut node = self.nodes_info.remove(j);
                proof {
                    assert(node@ == nodes_pre[j as int]);
                }
                apply_reader_gids_exec(
                    &mut node,
                    &line.reader_gid_seq,
                    &self.readers,
                    &mut events,
                );
                apply_writer_gids_exec(
                    &mut node,
                    &line.writer_gid_seq,
                    &self.writers,
                    &mut events,
                );
                proof {
                    lemma_apply_gids_frame(
                        nodes_pre[j as int],
                        rest[0].reader_gid_seq,
                        readers0,
                    );
                    lemma_apply_gids_frame(
                        apply_reader_gids(
                            nodes_pre[j as int],
                            rest[0].reader_gid_seq,
                            readers0,
                        ).0,
                        rest[0].writer_gid_seq,
                        writers0,
                    );
                }
                self.nodes_info.insert(j, node);
                proof {
                    let stepped = apply_manifest_line(
                        nodes_pre,
                        admin_pre,
                        rest[0],
                        gid,
                        readers0,
                        writers0,
                    );
                    assert(fullname@ == rest[0].fullname());
                    assert(nodes_view_of(self.nodes_info@) =~= stepped.0);
                    assert(admin_view(self.admin_space@) == stepped.1);
                    assert(events_view(events@) =~= ev_pre + stepped.2);
                    assert(ev_pre + (stepped.2 + apply_manifest_lines(
                        nodes_view_of(self.nodes_info@),
                        admin_view(self.admin_space@),
                        rest.skip(1),
                        gid,
                        readers0,
                        writers0,
                    ).2) =~= (ev_pre + stepped.2) + apply_manifest_lines(
                        nodes_view_of(self.nodes_info@),
                        admin_view(self.admin_space@),
                        rest.skip(1),
                        gid,
                        readers0,
                        writers0,
                    ).2);
                    assert forall|a: int, b: int|
                        0 <= a < b < nodes_view_of(self.nodes_info@).len() implies !(
                    nodes_view_of(self.nodes_info@)[a].participant == nodes_view_of(
                        self.nodes_info@,
                    )[b].participant && nodes_view_of(self.nodes_info@)[a].fullname
                        == nodes_view_of(self.nodes_info@)[b].fullname) by {
                        assert(nodes_view_of(self.nodes_info@)[a].participant == nodes_pre[
                            a].participant && nodes_view_of(self.nodes_info@)[a].fullname
                            == nodes_pre[a].fullname);
                        assert(nodes_view_of(self.nodes_info@)[b].participant == nodes_pre[
                            b].participant && nodes_view_of(self.nodes_info@)[b].fullname
                            == nodes_pre[b].fullname);
                    }
                }
            }
            k += 1;
        }
        proof {
            assert(lines.skip(count as int).len() == 0);
            assert(events_view(events@) + Seq::<EventView>::empty() =~= events_view(events@));
        }
        let ghost man0 = self.ros_participant_info@;
        let m = find_manifest(&self.ros_participant_info, &gid);
        proof {
            lemma_first_where(man0, by_manifest_gid(gid));
        }
        if m == self.ros_participant_info.len() {
            self.ros_participant_info.push(ros_info);
        } else {
            self.ros_participant_info.set(m, ros_info);
        }
        proof {
            assert forall|a: int, b: int|
                0 <= a < b < self.ros_participant_info@.len() implies self.ros_participant_info@[
                a].gid != self.ros_participant_info@[b].gid by {
                if b < man0.len() {
                    assert(man0[a].gid != man0[b].gid || a == m as int || b == m as int);
                }
            }
        }
        events
    }
}

/// The first stored manifest of participant `g`, or the length.
fn find_manifest(v: &Vec<crate::ros_discovery::ParticipantEntitiesInfo>, g: &Gid) -> (i: usize)
    ensures
        i as int == first_where(v@, by_manifest_gid(*g)),
        i <= v@.len(),
        i < v@.len() ==> v@[i as int].gid == *g,
        i == v@.len() ==> forall|j: int| 0 <= j < v@.len() ==> v@[j].gid != *g,
{
    let n = v.len();
    let mut i: usize = 0;
    while i < n
        invariant
            i <= n,
            n == v@.len(),
            forall|j: int| 0 <= j < i ==> v@[j].gid != *g,
        decreases n - i,
    {
        if v[i].gid == *g {
            proof {
                lemma_first_where_is(v@, by_manifest_gid(*g), i as int);
            }
            return i;
        }
        i += 1;
    }
    proof {
        lemma_first_where_none(v@, by_manifest_gid(*g));
    }
    n
}

/// An element equal to `g`.
pub open spec fn by_gid(g: Gid) -> spec_fn(Gid) -> bool {
    |x: Gid| x == g
}

/// The first index holding `g`, or the length.
fn find_gid(v: &Vec<Gid>, g: &Gid) -> (i: usize)
    ensures
        i as int == first_where(v@, by_gid(*g)),
        i <= v@.len(),
        i < v@.len() ==> v@[i as int] == *g,
        i == v@.len() ==> !v@.contains(*g),
{
    let n = v.len();
    let mut i: usize = 0;
    while i < n
        invariant
            i <= n,
            n == v@.len(),
            forall|j: int| 0 <= j < i ==> v@[j] != *g,
        decreases n - i,
    {
        if v[i] == *g {
            proof {
                lemma_first_where_is(v@, by_gid(*g), i as int);
            }
            return i;
        }
        i += 1;
    }
    proof {
        lemma_first_where_none(v@, by_gid(*g));
        if v@.contains(*g) {
            let w = choose|w: int| 0 <= w < v@.len() && v@[w] == *g;
            assert(v@[w] != *g);
        }
    }
    n
}

/// A scan over the node table: each node in turn takes the step `f`,
/// stopping at the first node that reports an event.
pub open spec fn scan_nodes(
    nodes: Seq<NodeInfoView>,
    f: spec_fn(NodeInfoView) -> (NodeInfoView, Option<EventView>),
) -> (Seq<NodeInfoView>, Option<EventView>)
    decreases nodes.len(),
{
    if nodes.len() == 0 {
        (nodes, None)
    } else {
        let r0 = f(nodes[0]);
        if r0.1 is Some {
            (seq![r0.0] + nodes.skip(1), r0.1)
        } else {
            let rest = scan_nodes(nodes.skip(1), f);
            (seq![r0.0] + rest.0, rest.1)
        }
    }
}

/// Splits a scan at position `i` when no node before `i` reports.
pub proof fn lemma_scan_split(
    nodes: Seq<NodeInfoView>,
    f: spec_fn(NodeInfoView) -> (NodeInfoView, Option<EventView>),
    i: int,
)
    requires
        0 <= i <= nodes.len(),
        forall|j: int| 0 <= j < i ==> (#[trigger] f(nodes[j])).1 is None,
    ensures
        scan_nodes(nodes, f).0 =~= Seq::new(i as nat, |j: int| f(nodes[j]).0) + scan_nodes(
            nodes.skip(i),
            f,
        ).0,
        scan_nodes(nodes, f).1 == scan_nodes(nodes.skip(i), f).1,
    decreases i,
{
    if i > 0 {
        lemma_scan_split(nodes.skip(1), f, i - 1);
        assert(forall|j: int|
            0 <= j < i - 1 ==> nodes.skip(1)[j] == nodes[j + 1] && (#[trigger] f(
                nodes.skip(1)[j],
            )).1 is None);
        assert(nodes.skip(1).skip(i - 1) =~= nodes.skip(i));
        assert(f(nodes[0]).1 is None);
        assert(Seq::new((i - 1) as nat, |j: int| f(nodes.skip(1)[j]).0) =~= Seq::new(
            (i - 1) as nat,
            |j: int| f(nodes[j + 1]).0,
        ));
        assert(seq![f(nodes[0]).0] + (Seq::new((i - 1) as nat, |j: int| f(nodes[j + 1]).0)
            + scan_nodes(nodes.skip(i), f).0) =~= Seq::new(i as nat, |j: int| f(nodes[j]).0)
            + scan_nodes(nodes.skip(i), f).0);
    } else {
        assert(nodes.skip(0) =~= nodes);
    }
}

/// The step a writer's disappearance applies to one node.
pub open spec fn rw_step(g: Gid) -> spec_fn(NodeInfoView) -> (NodeInfoView, Option<EventView>) {
    |n: NodeInfoView| remove_writer_spec(n, g)
}

/// The step a reader's disappearance applies to one node.
pub open spec fn rr_step(g: Gid) -> spec_fn(NodeInfoView) -> (NodeInfoView, Option<EventView>) {
    |n: NodeInfoView| remove_reader_spec(n, g)
}

/// The node table and event after a writer arrives: the first node whose
/// pending queue references it drains the entry and takes the endpoint in.
pub open spec fn add_writer_nodes(
    nodes: Seq<NodeInfoView>,
    w: crate::endpoints::DdsEntityView,
) -> (Seq<NodeInfoView>, Option<EventView>) {
    let j = first_where(nodes, by_pending_writer(w.key));
    if j == nodes.len() {
        (nodes, None)
    } else {
        let n = nodes[j];
        let pruned = n.with_pending_writers(
            n.undiscovered_writer.remove(first_where(n.undiscovered_writer, by_gid(w.key))),
        );
        let stepped = apply_writer_spec(pruned, w.topic_name, w.typ_name, w.key);
        (nodes.update(j, stepped.0), stepped.1)
    }
}

/// The node table and event after a reader arrives.
pub open spec fn add_reader_nodes(
    nodes: Seq<NodeInfoView>,
    w: crate::endpoints::DdsEntityView,
) -> (Seq<NodeInfoView>, Option<EventView>) {
    let j = first_where(nodes, by_pending_reader(w.key));
    if j == nodes.len() {
        (nodes, None)
    } else {
        let n = nodes[j];
        let pruned = n.with_pending_readers(
            n.undiscovered_reader.remove(first_where(n.undiscovered_reader, by_gid(w.key))),
        );
        let stepped = apply_reader_spec(pruned, w.topic_name, w.typ_name, w.key);
        (nodes.update(j, stepped.0), stepped.1)
    }
}

/// Applying an endpoint never changes a node's identity or its namespace
/// split.
pub proof fn lemma_apply_frame(n: NodeInfoView, topic: Seq<char>, tname: Seq<char>, key: Gid)
    ensures
        apply_writer_spec(n, topic, tname, key).0.fullname == n.fullname,
        apply_writer_spec(n, topic, tname, key).0.participant == n.participant,
        apply_writer_spec(n, topic, tname, key).0.node_name_idx == n.node_name_idx,
        apply_reader_spec(n, topic, tname, key).0.fullname == n.fullname,
        apply_reader_spec(n, topic, tname, key).0.participant == n.participant,
        apply_reader_spec(n, topic, tname, key).0.node_name_idx == n.node_name_idx,
{
}

/// Dropping an endpoint never changes a node's identity or its namespace
/// split.
pub proof fn lemma_remove_frame(n: NodeInfoView, g: Gid)
    ensures
        remove_writer_spec(n, g).0.fullname == n.fullname,
        remove_writer_spec(n, g).0.participant == n.participant,
        remove_writer_spec(n, g).0.node_name_idx == n.node_name_idx,
        remove_reader_spec(n, g).0.fullname == n.fullname,
        remove_reader_spec(n, g).0.participant == n.participant,
        remove_reader_spec(n, g).0.node_name_idx == n.node_name_idx,
{
}

/// Feeds an arriving writer to the first node whose pending queue
/// references it.
#[verifier::loop_isolation(false)]
fn feed_writer_to_pending(nodes: &mut Vec<NodeInfo>, writer: &DdsEntity) -> (r: Option<
    ROS2DiscoveryEvent,
>)
    requires
        forall|i: int|
            0 <= i < nodes_view_of(old(nodes)@).len() ==> (#[trigger] nodes_view_of(
                old(nodes)@,
            )[i]).wf(),
    ensures
        (nodes_view_of(final(nodes)@), opt_event_view(r)) == add_writer_nodes(
            nodes_view_of(old(nodes)@),
            writer@,
        ),
        forall|i: int|
            0 <= i < nodes_view_of(final(nodes)@).len() ==> (#[trigger] nodes_view_of(
                final(nodes)@,
            )[i]).wf(),
        nodes_view_of(final(nodes)@).len() == nodes_view_of(old(nodes)@).len(),
        forall|i: int|
            0 <= i < nodes_view_of(final(nodes)@).len() ==> nodes_view_of(
                final(nodes)@,
            )[i].fullname == nodes_view_of(old(nodes)@)[i].fullname && nodes_view_of(
                final(nodes)@,
            )[i].participant == nodes_view_of(old(nodes)@)[i].participant,
{
    let ghost nodes0 = nodes_view_of(nodes@);
    proof {
        lemma_first_where(nodes0, by_pending_writer(writer.key));
    }
    let count = nodes.len();
    let mut i: usize = 0;
    while i < count
        invariant
            i <= count,
            count == nodes@.len(),
            nodes_view_of(nodes@) == nodes0,
            forall|j: int| 0 <= j < i ==> !nodes0[j].undiscovered_writer.contains(writer.key),
        decreases count - i,
    {
        let p = find_gid(&nodes[i].undiscovered_writer, &writer.key);
        if p < nodes[i].undiscovered_writer.len() {
            proof {
                assert(nodes0[i as int] == nodes@[i as int]@);
                assert(nodes0[i as int].undiscovered_writer.contains(writer.key));
                lemma_first_where_is(nodes0, by_pending_writer(writer.key), i as int);
            }
            let mut node = nodes.remove(i);
            node.undiscovered_writer.remove(p);
            let ghost pruned = nodes0[i as int].with_pending_writers(
                nodes0[i as int].undiscovered_writer.remove(
                    first_where(nodes0[i as int].undiscovered_writer, by_gid(writer.key)),
                ),
            );
            proof {
                assert(node@ =~= pruned);
            }
            let ev = node.update_with_writer(writer);
            nodes.insert(i, node);
            proof {
                lemma_apply_frame(pruned, writer.topic_name@, writer.typ_name@, writer.key);
                assert(nodes_view_of(nodes@) =~= nodes0.update(
                    i as int,
                    apply_writer_spec(pruned, writer@.topic_name, writer@.typ_name, writer@.key).0,
                ));
                assert(nodes_view_of(nodes@) =~= add_writer_nodes(nodes0, writer@).0);
            }
            return ev;
        }
        proof {
            assert(nodes0[i as int] == nodes@[i as int]@);
        }
        i += 1;
    }
    proof {
        if first_where(nodes0, by_pending_writer(writer.key)) < nodes0.len() {
            assert(by_pending_writer(writer.key)(nodes0[first_where(
                nodes0,
                by_pending_writer(writer.key),
            )]));
        }
    }
    None
}

/// Feeds an arriving reader to the first node whose pending queue
/// references it.
#[verifier::loop_isolation(false)]
fn feed_reader_to_pending(nodes: &mut Vec<NodeInfo>, reader: &DdsEntity) -> (r: Option<
    ROS2DiscoveryEvent,
>)
    requires
        forall|i: int|
            0 <= i < nodes_view_of(old(nodes)@).len() ==> (#[trigger] nodes_view_of(
                old(nodes)@,
            )[i]).wf(),
    ensures
        (nodes_view_of(final(nodes)@), opt_event_view(r)) == add_reader_nodes(
            nodes_view_of(old(nodes)@),
            reader@,
        ),
        forall|i: int|
            0 <= i < nodes_view_of(final(nodes)@).len() ==> (#[trigger] nodes_view_of(
                final(nodes)@,
            )[i]).wf(),
        nodes_view_of(final(nodes)@).len() == nodes_view_of(old(nodes)@).len(),
        forall|i: int|
            0 <= i < nodes_view_of(final(nodes)@).len() ==> nodes_view_of(
                final(nodes)@,
            )[i].fullname == nodes_view_of(old(nodes)@)[i].fullname && nodes_view_of(
                final(nodes)@,
            )[i].participant == nodes_view_of(old(nodes)@)[i].participant,
{
    let ghost nodes0 = nodes_view_of(nodes@);
    proof {
        lemma_first_where(nodes0, by_pending_reader(reader.key));
    }
    let count = nodes.len();
    let mut i: usize = 0;
    while i < count
        invariant
            i <= count,
            count == nodes@.len(),
            nodes_view_of(nodes@) == nodes0,
            forall|j: int| 0 <= j < i ==> !nodes0[j].undiscovered_reader.contains(reader.key),
        decreases count - i,
    {
        let p = find_gid(&nodes[i].undiscovered_reader, &reader.key);
        if p < nodes[i].undiscovered_reader.len() {
            proof {
                assert(nodes0[i as int] == nodes@[i as int]@);
                assert(nodes0[i as int].undiscovered_reader.contains(reader.key));
                lemma_first_where_is(nodes0, by_pending_reader(reader.key), i as int);
            }
            let mut node = nodes.remove(i);
            node.undiscovered_reader.remove(p);
            let ghost pruned = nodes0[i as int].with_pending_readers(
                nodes0[i as int].undiscovered_reader.remove(
                    first_where(nodes0[i as int].undiscovered_reader, by_gid(reader.key)),
                ),
            );
            proof {
                assert(node@ =~= pruned);
            }
            let ev = node.update_with_reader(reader);
            nodes.insert(i, node);
            proof {
                lemma_apply_frame(pruned, reader.topic_name@, reader.typ_name@, reader.key);
                assert(nodes_view_of(nodes@) =~= nodes0.update(
                    i as int,
                    apply_reader_spec(pruned, reader@.topic_name, reader@.typ_name, reader@.key).0,
                ));
                assert(nodes_view_of(nodes@) =~= add_reader_nodes(nodes0, reader@).0);
            }
            return ev;
        }
        proof {
            assert(nodes0[i as int] == nodes@[i as int]@);
        }
        i += 1;
    }
    proof {
        if first_where(nodes0, by_pending_reader(reader.key)) < nodes0.len() {
            assert(by_pending_reader(reader.key)(nodes0[first_where(
                nodes0,
                by_pending_reader(reader.key),
            )]));
        }
    }
    None
}

impl DiscoveredEntities {
    /// Records a discovered writer: indexes it in the admin space, feeds it
    /// to the one node whose pending queue awaited it, and stores it.
    pub fn add_writer(&mut self, writer: DdsEntity) -> (r: Option<ROS2DiscoveryEvent>)
        requires
            old(self).wf(),
        ensures
            final(self).wf(),
            final(self).writers@ == upsert_entity(old(self).writers@, writer),
            admin_view(final(self).admin_space@) == upsert_admin(
                admin_view(old(self).admin_space@),
                AdminEntryView {
                    key: ke_writer(writer.participant_key, writer.key, writer.topic_name@),
                    entity: EntityRefView::Writer(writer.key),
                },
            ),
            (nodes_view_of(final(self).nodes_info@), opt_event_view(r)) == add_writer_nodes(
                nodes_view_of(old(self).nodes_info@),
                writer@,
            ),
            final(self).participants@ == old(self).participants@,
            final(self).readers@ == old(self).readers@,
            final(self).ros_participant_info@ == old(self).ros_participant_info@,
    {
        let admin_key = make_ke_writer(
            &writer.participant_key,
            &writer.key,
            writer.topic_name.as_str(),
        );
        admin_upsert(&mut self.admin_space, admin_key, EntityRef::Writer(writer.key));
        let ghost nodes0 = nodes_view_of(self.nodes_info@);
        let event = feed_writer_to_pending(&mut self.nodes_info, &writer);
        let ghost table0 = self.writers@;
        let w = find_entity(&self.writers, &writer.key);
        proof {
            lemma_first_where(table0, by_entity_key(writer.key));
        }
        if w == self.writers.len() {
            self.writers.push(writer);
        } else {
            self.writers.set(w, writer);
        }
        proof {
            assert forall|a: int, b: int|
                0 <= a < b < self.writers@.len() implies self.writers@[a].key
                != self.writers@[b].key by {
                if w < table0.len() || b < table0.len() {
                    assert(table0[a].key != table0[b].key || a == w as int || b == w as int);
                }
            }
            assert forall|a: int, b: int|
                0 <= a < b < nodes_view_of(self.nodes_info@).len() implies !(nodes_view_of(
                self.nodes_info@,
            )[a].participant == nodes_view_of(self.nodes_info@)[b].participant && nodes_view_of(
                self.nodes_info@,
            )[a].fullname == nodes_view_of(self.nodes_info@)[b].fullname) by {
                assert(!(nodes0[a].participant == nodes0[b].participant && nodes0[a].fullname
                    == nodes0[b].fullname));
            }
        }
        event
    }

    /// Records a discovered reader.
    pub fn add_reader(&mut self, reader: DdsEntity) -> (r: Option<ROS2DiscoveryEvent>)
        requires
            old(self).wf(),
        ensures
            final(self).wf(),
            final(self).readers@ == upsert_entity(old(self).readers@, reader),
            admin_view(final(self).admin_space@) == upsert_admin(
                admin_view(old(self).admin_space@),
                AdminEntryView {
                    key: ke_reader(reader.participant_key, reader.key, reader.topic_name@),
                    entity: EntityRefView::Reader(reader.key),
                },
            ),
            (nodes_view_of(final(self).nodes_info@), opt_event_view(r)) == add_reader_nodes(
                nodes_view_of(old(self).nodes_info@),
                reader@,
            ),
            final(self).participants@ == old(self).participants@,
            final(self).writers@ == old(self).writers@,
            final(self).ros_participant_info@ == old(self).ros_participant_info@,
    {
        let admin_key = make_ke_reader(
            &reader.participant_key,
            &reader.key,
            reader.topic_name.as_str(),
        );
        admin_upsert(&mut self.admin_space, admin_key, EntityRef::Reader(reader.key));
        let ghost nodes0 = nodes_view_of(self.nodes_info@);
        let event = feed_reader_to_pending(&mut self.nodes_info, &reader);
        let ghost table0 = self.readers@;
        let w = find_entity(&self.readers, &reader.key);
        proof {
            lemma_first_where(table0, by_entity_key(reader.key));
        }
        if w == self.readers.len() {
            self.readers.push(reader);
        } else {
            self.readers.set(w, reader);
        }
        proof {
            assert forall|a: int, b: int|
                0 <= a < b < self.readers@.len() implies self.readers@[a].key
                != self.readers@[b].key by {
                if w < table0.len() || b < table0.len() {
                    assert(table0[a].key != table0[b].key || a == w as int || b == w as int);
                }
            }
            assert forall|a: int, b: int|
                0 <= a < b < nodes_view_of(self.nodes_info@).len() implies !(nodes_view_of(
                self.nodes_info@,
            )[a].participant == nodes_view_of(self.nodes_info@)[b].participant && nodes_view_of(
                self.nodes_info@,
            )[a].fullname == nodes_view_of(self.nodes_info@)[b].fullname) by {
                assert(!(nodes0[a].participant == nodes0[b].participant && nodes0[a].fullname
                    == nodes0[b].fullname));
            }
        }
        event
    }
}

/// Walks the nodes with the per-node removal step for a lost writer,
/// stopping at the first node that reports an interface gone.
#[verifier::loop_isolation(false)]
#[verifier::rlimit(100)]
fn scan_remove_writer(nodes: &mut Vec<NodeInfo>, g: &Gid) -> (r: Option<ROS2DiscoveryEvent>)
    requires
        forall|i: int|
            0 <= i < nodes_view_of(old(nodes)@).len() ==> (#[trigger] nodes_view_of(
                old(nodes)@,
            )[i]).wf(),
    ensures
        (nodes_view_of(final(nodes)@), opt_event_view(r)) == scan_nodes(
            nodes_view_of(old(nodes)@),
            rw_step(*g),
        ),
        forall|i: int|
            0 <= i < nodes_view_of(final(nodes)@).len() ==> (#[trigger] nodes_view_of(
                final(nodes)@,
            )[i]).wf(),
        nodes_view_of(final(nodes)@).len() == nodes_view_of(old(nodes)@).len(),
        forall|i: int|
            0 <= i < nodes_view_of(final(nodes)@).len() ==> nodes_view_of(
                final(nodes)@,
            )[i].fullname == nodes_view_of(old(nodes)@)[i].fullname && nodes_view_of(
                final(nodes)@,
            )[i].participant == nodes_view_of(old(nodes)@)[i].participant,
{
    let ghost nodes0 = nodes_view_of(nodes@);
    let count = nodes.len();
    let mut i: usize = 0;
    while i < count
        invariant
            i <= count,
            count == nodes@.len(),
            nodes_view_of(nodes@).len() == count,
            forall|j: int|
                i <= j < count ==> nodes_view_of(nodes@)[j] == nodes0[j],
            forall|j: int|
                0 <= j < i ==> nodes_view_of(nodes@)[j] == (#[trigger] rw_step(*g)(
                    nodes0[j],
                )).0 && rw_step(*g)(nodes0[j]).1 is None,
        decreases count - i,
    {
        let mut node = nodes.remove(i);
        proof {
            assert(node@ == nodes0[i as int]);
            assert(nodes_view_of(old(nodes)@)[i as int].wf());
        }
        let ev = node.remove_writer(g);
        nodes.insert(i, node);
        proof {
            lemma_remove_frame(nodes0[i as int], *g);
        }
        if let Some(e) = ev {
            proof {
                lemma_scan_split(nodes0, rw_step(*g), i as int);
                assert(nodes0.skip(i as int)[0] == nodes0[i as int]);
                assert(nodes_view_of(nodes@) =~= Seq::new(
                    i as nat,
                    |j: int| rw_step(*g)(nodes0[j]).0,
                ) + (seq![rw_step(*g)(nodes0[i as int]).0] + nodes0.skip(i as int).skip(1)));
                assert(nodes_view_of(nodes@) =~= scan_nodes(nodes0, rw_step(*g)).0);
            }
            return Some(e);
        }
        i += 1;
    }
    proof {
        lemma_scan_split(nodes0, rw_step(*g), count as int);
        assert(nodes0.skip(count as int).len() == 0);
        assert(nodes_view_of(nodes@) =~= Seq::new(
            count as nat,
            |j: int| rw_step(*g)(nodes0[j]).0,
        ) + scan_nodes(nodes0.skip(count as int), rw_step(*g)).0);
        assert(nodes_view_of(nodes@) =~= scan_nodes(nodes0, rw_step(*g)).0);
    }
    None
}

/// Walks the nodes with the per-node removal step for a lost reader.
#[verifier::loop_isolation(false)]
#[verifier::rlimit(100)]
fn scan_remove_reader(nodes: &mut Vec<NodeInfo>, g: &Gid) -> (r: Option<ROS2DiscoveryEvent>)
    requires
        forall|i: int|
            0 <= i < nodes_view_of(old(nodes)@).len() ==> (#[trigger] nodes_view_of(
                old(nodes)@,
            )[i]).wf(),
    ensures
        (nodes_view_of(final(nodes)@), opt_event_view(r)) == scan_nodes(
            nodes_view_of(old(nodes)@),
            rr_step(*g),
        ),
        forall|i: int|
            0 <= i < nodes_view_of(final(nodes)@).len() ==> (#[trigger] nodes_view_of(
                final(nodes)@,
            )[i]).wf(),
        nodes_view_of(final(nodes)@).len() == nodes_view_of(old(nodes)@).len(),
        forall|i: int|
            0 <= i < nodes_view_of(final(nodes)@).len() ==> nodes_view_of(
                final(nodes)@,
            )[i].fullname == nodes_view_of(old(nodes)@)[i].fullname && nodes_view_of(
                final(nodes)@,
            )[i].participant == nodes_view_of(old(nodes)@)[i].participant,
{
    let ghost nodes0 = nodes_view_of(nodes@);
    let count = nodes.len();
    let mut i: usize = 0;
    while i < count
        invariant
            i <= count,
            count == nodes@.len(),
            nodes_view_of(nodes@).len() == count,
            forall|j: int|
                i <= j < count ==> nodes_view_of(nodes@)[j] == nodes0[j],
            forall|j: int|
                0 <= j < i ==> nodes_view_of(nodes@)[j] == (#[trigger] rr_step(*g)(
                    nodes0[j],
                )).0 && rr_step(*g)(nodes0[j]).1 is None,
        decreases count - i,
    {
        let mut node = nodes.remove(i);
        proof {
            assert(node@ == nodes0[i as int]);
            assert(nodes_view_of(old(nodes)@)[i as int].wf());
        }
        let ev = node.remove_reader(g);
        nodes.insert(i, node);
        proof {
            lemma_remove_frame(nodes0[i as int], *g);
        }
        if let Some(e) = ev {
            proof {
                lemma_scan_split(nodes0, rr_step(*g), i as int);
                assert(nodes0.skip(i as int)[0] == nodes0[i as int]);
                assert(nodes_view_of(nodes@) =~= Seq::new(
                    i as nat,
                    |j: int| rr_step(*g)(nodes0[j]).0,
                ) + (seq![rr_step(*g)(nodes0[i as int]).0] + nodes0.skip(i as int).skip(1)));
                assert(nodes_view_of(nodes@) =~= scan_nodes(nodes0, rr_step(*g)).0);
            }
            return Some(e);
        }
        i += 1;
    }
    proof {
        lemma_scan_split(nodes0, rr_step(*g), count as int);
        assert(nodes0.skip(count as int).len() == 0);
        assert(nodes_view_of(nodes@) =~= Seq::new(
            count as nat,
            |j: int| rr_step(*g)(nodes0[j]).0,
        ) + scan_nodes(nodes0.skip(count as int), rr_step(*g)).0);
        assert(nodes_view_of(nodes@) =~= scan_nodes(nodes0, rr_step(*g)).0);
    }
    None
}

impl DiscoveredEntities {
    /// Forgets a writer: the endpoint leaves the table and the admin space,
    /// and the one node using it drops the owning interface.
    pub fn remove_writer(&mut self, gid: &Gid) -> (r: Option<ROS2DiscoveryEvent>)
        requires
            old(self).wf(),
        ensures
            final(self).wf(),
            ({
                let w = first_where(old(self).writers@, by_entity_key(*gid));
                if w < old(self).writers@.len() {
                    &&& final(self).writers@ == old(self).writers@.remove(w)
                    &&& admin_view(final(self).admin_space@) == admin_remove_key(
                        admin_view(old(self).admin_space@),
                        ke_writer(
                            old(self).writers@[w].participant_key,
                            *gid,
                            old(self).writers@[w].topic_name@,
                        ),
                    )
                    &&& (nodes_view_of(final(self).nodes_info@), opt_event_view(r)) == scan_nodes(
                        nodes_view_of(old(self).nodes_info@),
                        rw_step(*gid),
                    )
                } else {
                    &&& final(self).writers@ == old(self).writers@
                    &&& admin_view(final(self).admin_space@) == admin_view(
                        old(self).admin_space@,
                    )
                    &&& nodes_view_of(final(self).nodes_info@) == nodes_view_of(
                        old(self).nodes_info@,
                    )
                    &&& r.is_none()
                }
            }),
            final(self).participants@ == old(self).participants@,
            final(self).readers@ == old(self).readers@,
            final(self).ros_participant_info@ == old(self).ros_participant_info@,
    {
        let ghost writers0 = self.writers@;
        let ghost nodes0 = nodes_view_of(self.nodes_info@);
        let w = find_entity(&self.writers, gid);
        proof {
            lemma_first_where(writers0, by_entity_key(*gid));
        }
        if w == self.writers.len() {
            return None;
        }
        let admin_key = make_ke_writer(
            &self.writers[w].participant_key,
            gid,
            self.writers[w].topic_name.as_str(),
        );
        proof {
            assert(by_entity_key(*gid)(writers0[w as int]));
            assert(admin_key@ == ke_writer(
                writers0[w as int].participant_key,
                *gid,
                writers0[w as int].topic_name@,
            ));
        }
        self.writers.remove(w);
        admin_remove(&mut self.admin_space, admin_key.as_str());
        let r = scan_remove_writer(&mut self.nodes_info, gid);
        proof {
            assert(self.writers@ =~= writers0.remove(w as int));
            assert(writers0.remove(w as int) =~= writers0.take(w as int) + writers0.skip(
                w as int + 1,
            ));
            assert forall|a: int, b: int|
                0 <= a < b < self.writers@.len() implies self.writers@[a].key
                != self.writers@[b].key by {
                let a1 = if a < w as int {
                    a
                } else {
                    a + 1
                };
                let b1 = if b < w as int {
                    b
                } else {
                    b + 1
                };
                assert(self.writers@[a] == writers0[a1]);
                assert(self.writers@[b] == writers0[b1]);
            }
            assert forall|a: int, b: int|
                0 <= a < b < nodes_view_of(self.nodes_info@).len() implies !(nodes_view_of(
                self.nodes_info@,
            )[a].participant == nodes_view_of(self.nodes_info@)[b].participant && nodes_view_of(
                self.nodes_info@,
            )[a].fullname == nodes_view_of(self.nodes_info@)[b].fullname) by {
                assert(!(nodes0[a].participant == nodes0[b].participant && nodes0[a].fullname
                    == nodes0[b].fullname));
            }
        }
        r
    }

    /// Forgets a reader.
    pub fn remove_reader(&mut self, gid: &Gid) -> (r: Option<ROS2DiscoveryEvent>)
        requires
            old(self).wf(),
        ensures
            final(self).wf(),
            ({
                let w = first_where(old(self).readers@, by_entity_key(*gid));
                if w < old(self).readers@.len() {
                    &&& final(self).readers@ == old(self).readers@.remove(w)
                    &&& admin_view(final(self).admin_space@) == admin_remove_key(
                        admin_view(old(self).admin_space@),
                        ke_reader(
                            old(self).readers@[w].participant_key,
                            *gid,
                            old(self).readers@[w].topic_name@,
                        ),
                    )
                    &&& (nodes_view_of(final(self).nodes_info@), opt_event_view(r)) == scan_nodes(
                        nodes_view_of(old(self).nodes_info@),
                        rr_step(*gid),
                    )
                } else {
                    &&& final(self).readers@ == old(self).readers@
                    &&& admin_view(final(self).admin_space@) == admin_view(
                        old(self).admin_space@,
                    )
                    &&& nodes_view_of(final(self).nodes_info@) == nodes_view_of(
                        old(self).nodes_info@,
                    )
                    &&& r.is_none()
                }
            }),
            final(self).participants@ == old(self).participants@,
            final(self).writers@ == old(self).writers@,
            final(self).ros_participant_info@ == old(self).ros_participant_info@,
    {
        let ghost readers0 = self.readers@;
        let ghost nodes0 = nodes_view_of(self.nodes_info@);
        let w = find_entity(&self.readers, gid);
        proof {
            lemma_first_where(readers0, by_entity_key(*gid));
        }
        if w == self.readers.len() {
            return None;
        }
        let admin_key = make_ke_reader(
            &self.readers[w].participant_key,
            gid,
            self.readers[w].topic_name.as_str(),
        );
        proof {
            assert(by_entity_key(*gid)(readers0[w as int]));
            assert(admin_key@ == ke_reader(
                readers0[w as int].participant_key,
                *gid,
                readers0[w as int].topic_name@,
            ));
        }
        self.readers.remove(w);
        admin_remove(&mut self.admin_space, admin_key.as_str());
        let r = scan_remove_reader(&mut self.nodes_info, gid);
        proof {
            assert(self.readers@ =~= readers0.remove(w as int));
            assert(readers0.remove(w as int) =~= readers0.take(w as int) + readers0.skip(
                w as int + 1,
            ));
            assert forall|a: int, b: int|
                0 <= a < b < self.readers@.len() implies self.readers@[a].key
                != self.readers@[b].key by {
                let a1 = if a < w as int {
                    a
                } else {
                    a + 1
                };
                let b1 = if b < w as int {
                    b
                } else {
                    b + 1
                };
                assert(self.readers@[a] == readers0[a1]);
                assert(self.readers@[b] == readers0[b1]);
            }
            assert forall|a: int, b: int|
                0 <= a < b < nodes_view_of(self.nodes_info@).len() implies !(nodes_view_of(
                self.nodes_info@,
            )[a].participant == nodes_view_of(self.nodes_info@)[b].participant && nodes_view_of(
                self.nodes_info@,
            )[a].fullname == nodes_view_of(self.nodes_info@)[b].fullname) by {
                assert(!(nodes0[a].participant == nodes0[b].participant && nodes0[a].fullname
                    == nodes0[b].fullname));
            }
        }
        r
    }
}

/// Taking in claimed endpoints never changes a node's identity or its
/// namespace split.
pub proof fn lemma_apply_gids_frame(n: NodeInfoView, gids: Seq<Gid>, table: Seq<DdsEntity>)
    ensures
        apply_reader_gids(n, gids, table).0.fullname == n.fullname,
        apply_reader_gids(n, gids, table).0.participant == n.participant,
        apply_reader_gids(n, gids, table).0.node_name_idx == n.node_name_idx,
        apply_writer_gids(n, gids, table).0.fullname == n.fullname,
        apply_writer_gids(n, gids, table).0.participant == n.participant,
        apply_writer_gids(n, gids, table).0.node_name_idx == n.node_name_idx,
    decreases gids.len(),
{
    if gids.len() > 0 {
        let w = first_where(table, by_entity_key(gids[0]));
        if w < table.len() {
            lemma_apply_frame(n, table[w].topic_name@, table[w].typ_name@, gids[0]);
            lemma_apply_gids_frame(
                apply_reader_spec(n, table[w].topic_name@, table[w].typ_name@, gids[0]).0,
                gids.skip(1),
                table,
            );
            lemma_apply_gids_frame(
                apply_writer_spec(n, table[w].topic_name@, table[w].typ_name@, gids[0]).0,
                gids.skip(1),
                table,
            );
        } else {
            lemma_apply_gids_frame(n, gids.skip(1), table);
            lemma_apply_gids_frame(
                n.with_pending_readers(n.undiscovered_reader.push(gids[0])),
                gids.skip(1),
                table,
            );
            lemma_apply_gids_frame(
                n.with_pending_writers(n.undiscovered_writer.push(gids[0])),
                gids.skip(1),
                table,
            );
        }
    }
}

/// Builds the full name a manifest line describes.
fn line_fullname(line: &crate::ros_discovery::NodeEntitiesInfo) -> (r: String)
    ensures
        r@ == line@.fullname(),
{
    proof {
        reveal_strlit("/");
    }
    let mut out = String::new();
    if str_eq(line.node_namespace.as_str(), "/") {
        out.append("/");
        out.append(line.node_name.as_str());
    } else {
        out.append(line.node_namespace.as_str());
        out.append("/");
        out.append(line.node_name.as_str());
    }
    out
}

/// Whether a manifest still lists a node of the given full name.
fn manifest_has(info: &crate::ros_discovery::ParticipantEntitiesInfo, fullname: &str) -> (b: bool)
    ensures
        b == crate::ros_discovery::manifest_has_fullname(info@, fullname@),
{
    let n = info.node_entities_info_seq.len();
    let mut i: usize = 0;
    while i < n
        invariant
            i <= n,
            n == info.node_entities_info_seq@.len(),
            forall|j: int|
                0 <= j < i ==> (#[trigger] info@.node_entities_info_seq[j]).fullname()
                    != fullname@,
        decreases n - i,
    {
        let f = line_fullname(&info.node_entities_info_seq[i]);
        if str_eq(f.as_str(), fullname) {
            proof {
                assert(info@.node_entities_info_seq[i as int].fullname() == fullname@);
            }
            return true;
        }
        proof {
            assert(info@.node_entities_info_seq[i as int]
                == info.node_entities_info_seq@[i as int]@);
        }
        i += 1;
    }
    proof {
        if crate::ros_discovery::manifest_has_fullname(info@, fullname@) {
            let w = choose|w: int|
                0 <= w < info@.node_entities_info_seq.len()
                    && (#[trigger] info@.node_entities_info_seq[w]).fullname() == fullname@;
            assert(info@.node_entities_info_seq[w].fullname() != fullname@);
        }
    }
    false
}

/// The first node with the given identity, or the length.
fn find_node(nodes: &Vec<NodeInfo>, g: &Gid, fullname: &str) -> (i: usize)
    ensures
        i as int == first_where(nodes_view_of(nodes@), by_node_id(*g, fullname@)),
        i <= nodes@.len(),
{
    let n = nodes.len();
    let mut i: usize = 0;
    while i < n
        invariant
            i <= n,
            n == nodes@.len(),
            forall|j: int|
                0 <= j < i ==> !(nodes@[j]@.participant == *g && nodes@[j]@.fullname
                    == fullname@),
        decreases n - i,
    {
        if nodes[i].participant == *g && str_eq(nodes[i].fullname.as_str(), fullname) {
            proof {
                assert(forall|j: int|
                    0 <= j < n ==> nodes_view_of(nodes@)[j] == nodes@[j]@);
                lemma_first_where_is(
                    nodes_view_of(nodes@),
                    by_node_id(*g, fullname@),
                    i as int,
                );
            }
            return i;
        }
        i += 1;
    }
    proof {
        assert(forall|j: int| 0 <= j < n ==> nodes_view_of(nodes@)[j] == nodes@[j]@);
        lemma_first_where_none(nodes_view_of(nodes@), by_node_id(*g, fullname@));
    }
    n
}

/// Applies the readers a manifest line claims to one node, collecting the
/// events that fire.
#[verifier::loop_isolation(false)]
#[verifier::rlimit(100)]
fn apply_reader_gids_exec(
    node: &mut NodeInfo,
    gids: &Vec<Gid>,
    readers: &Vec<DdsEntity>,
    events: &mut Vec<ROS2DiscoveryEvent>,
)
    requires
        old(node)@.wf(),
    ensures
        final(node)@.wf(),
        final(node)@ == apply_reader_gids(old(node)@, gids@, readers@).0,
        events_view(final(events)@) == events_view(old(events)@) + apply_reader_gids(
            old(node)@,
            gids@,
            readers@,
        ).1,
{
    let ghost n0 = node@;
    let ghost ev0 = events_view(events@);
    let count = gids.len();
    let mut i: usize = 0;
    proof {
        assert(gids@.skip(0) =~= gids@);
        assert(ev0 + Seq::<EventView>::empty() =~= ev0);
    }
    while i < count
        invariant
            i <= count,
            count == gids@.len(),
            node@.wf(),
            apply_reader_gids(n0, gids@, readers@).0 == apply_reader_gids(
                node@,
                gids@.skip(i as int),
                readers@,
            ).0,
            ev0 + apply_reader_gids(n0, gids@, readers@).1 == events_view(events@)
                + apply_reader_gids(node@, gids@.skip(i as int), readers@).1,
        decreases count - i,
    {
        let ghost rest = gids@.skip(i as int);
        let ghost node_pre = node@;
        let ghost ev_pre = events_view(events@);
        proof {
            assert(rest[0] == gids@[i as int]);
            assert(rest.skip(1) =~= gids@.skip(i as int + 1));
        }
        let g = gids[i];
        let w = find_entity(readers, &g);
        if w < readers.len() {
            let ghost evs_pre_vec = events@;
            let ev = node.update_with_reader(&readers[w]);
            match ev {
                Some(e) => {
                    proof {
                        assert(opt_to_seq(
                            apply_reader_spec(
                                node_pre,
                                readers@[w as int].topic_name@,
                                readers@[w as int].typ_name@,
                                g,
                            ).1,
                        ) =~= seq![e@]);
                    }
                    events.push(e);
                    proof {
                        assert(events_view(events@) =~= events_view(evs_pre_vec).push(e@));
                    }
                },
                None => {
                    proof {
                        assert(opt_to_seq(
                            apply_reader_spec(
                                node_pre,
                                readers@[w as int].topic_name@,
                                readers@[w as int].typ_name@,
                                g,
                            ).1,
                        ) =~= Seq::<EventView>::empty());
                        assert(events_view(events@) + Seq::<EventView>::empty()
                            =~= events_view(events@));
                    }
                },
            }
            proof {
                assert(events_view(events@) =~= ev_pre + opt_to_seq(
                    apply_reader_spec(
                        node_pre,
                        readers@[w as int].topic_name@,
                        readers@[w as int].typ_name@,
                        g,
                    ).1,
                ));
                assert(ev_pre + (opt_to_seq(
                    apply_reader_spec(
                        node_pre,
                        readers@[w as int].topic_name@,
                        readers@[w as int].typ_name@,
                        g,
                    ).1,
                ) + apply_reader_gids(node@, rest.skip(1), readers@).1) =~= (ev_pre + opt_to_seq(
                    apply_reader_spec(
                        node_pre,
                        readers@[w as int].topic_name@,
                        readers@[w as int].typ_name@,
                        g,
                    ).1,
                )) + apply_reader_gids(node@, rest.skip(1), readers@).1);
            }
        } else {
            let p = find_gid(&node.undiscovered_reader, &g);
            if p == node.undiscovered_reader.len() {
                node.undiscovered_reader.push(g);
                proof {
                    assert(node@ =~= node_pre.with_pending_readers(
                        node_pre.undiscovered_reader.push(g),
                    ));
                }
            }
            proof {
                assert(events_view(events@) + (Seq::<EventView>::empty() + apply_reader_gids(
                    node@,
                    rest.skip(1),
                    readers@,
                ).1) =~= events_view(events@) + apply_reader_gids(
                    node@,
                    rest.skip(1),
                    readers@,
                ).1);
            }
        }
        proof {
            assert(apply_reader_gids(node_pre, rest, readers@).0 == apply_reader_gids(
                node@,
                rest.skip(1),
                readers@,
            ).0);
        }
        i += 1;
    }
    proof {
        assert(apply_reader_gids(node@, gids@.skip(count as int), readers@).0 == node@);
        assert(events_view(events@) + Seq::<EventView>::empty() =~= events_view(events@));
    }
}

/// Applies the writers a manifest line claims to one node.
#[verifier::loop_isolation(false)]
#[verifier::rlimit(100)]
fn apply_writer_gids_exec(
    node: &mut NodeInfo,
    gids: &Vec<Gid>,
    writers: &Vec<DdsEntity>,
    events: &mut Vec<ROS2DiscoveryEvent>,
)
    requires
        old(node)@.wf(),
    ensures
        final(node)@.wf(),
        final(node)@ == apply_writer_gids(old(node)@, gids@, writers@).0,
        events_view(final(events)@) == events_view(old(events)@) + apply_writer_gids(
            old(node)@,
            gids@,
            writers@,
        ).1,
{
    let ghost n0 = node@;
    let ghost ev0 = events_view(events@);
    let count = gids.len();
    let mut i: usize = 0;
    proof {
        assert(gids@.skip(0) =~= gids@);
        assert(ev0 + Seq::<EventView>::empty() =~= ev0);
    }
    while i < count
        invariant
            i <= count,
            count == gids@.len(),
            node@.wf(),
            apply_writer_gids(n0, gids@, writers@).0 == apply_writer_gids(
                node@,
                gids@.skip(i as int),
                writers@,
            ).0,
            ev0 + apply_writer_gids(n0, gids@, writers@).1 == events_view(events@)
                + apply_writer_gids(node@, gids@.skip(i as int), writers@).1,
        decreases count - i,
    {
        let ghost rest = gids@.skip(i as int);
        let ghost node_pre = node@;
        let ghost ev_pre = events_view(events@);
        proof {
            assert(rest[0] == gids@[i as int]);
            assert(rest.skip(1) =~= gids@.skip(i as int + 1));
        }
        let g = gids[i];
        let w = find_entity(writers, &g);
        if w < writers.len() {
            let ghost evs_pre_vec = events@;
            let ev = node.update_with_writer(&writers[w]);
            match ev {
                Some(e) => {
                    proof {
                        assert(opt_to_seq(
                            apply_writer_spec(
                                node_pre,
                                writers@[w as int].topic_name@,
                                writers@[w as int].typ_name@,
                                g,
                            ).1,
                        ) =~= seq![e@]);
                    }
                    events.push(e);
                    proof {
                        assert(events_view(events@) =~= events_view(evs_pre_vec).push(e@));
                    }
                },
                None => {
                    proof {
                        assert(opt_to_seq(
                            apply_writer_spec(
                                node_pre,
                                writers@[w as int].topic_name@,
                                writers@[w as int].typ_name@,
                                g,
                            ).1,
                        ) =~= Seq::<EventView>::empty());
                        assert(events_view(events@) + Seq::<EventView>::empty()
                            =~= events_view(events@));
                    }
                },
            }
            proof {
                assert(events_view(events@) =~= ev_pre + opt_to_seq(
                    apply_writer_spec(
                        node_pre,
                        writers@[w as int].topic_name@,
                        writers@[w as int].typ_name@,
                        g,
                    ).1,
                ));
                assert(ev_pre + (opt_to_seq(
                    apply_writer_spec(
                        node_pre,
                        writers@[w as int].topic_name@,
                        writers@[w as int].typ_name@,
                        g,
                    ).1,
                ) + apply_writer_gids(node@, rest.skip(1), writers@).1) =~= (ev_pre + opt_to_seq(
                    apply_writer_spec(
                        node_pre,
                        writers@[w as int].topic_name@,
                        writers@[w as int].typ_name@,
                        g,
                    ).1,
                )) + apply_writer_gids(node@, rest.skip(1), writers@).1);
            }
        } else {
            let p = find_gid(&node.undiscovered_writer, &g);
            if p == node.undiscovered_writer.len() {
                node.undiscovered_writer.push(g);
                proof {
                    assert(node@ =~= node_pre.with_pending_writers(
                        node_pre.undiscovered_writer.push(g),
                    ));
                }
            }
            proof {
                assert(events_view(events@) + (Seq::<EventView>::empty() + apply_writer_gids(
                    node@,
                    rest.skip(1),
                    writers@,
                ).1) =~= events_view(events@) + apply_writer_gids(
                    node@,
                    rest.skip(1),
                    writers@,
                ).1);
            }
        }
        proof {
            assert(apply_writer_gids(node_pre, rest, writers@).0 == apply_writer_gids(
                node@,
                rest.skip(1),
                writers@,
            ).0);
        }
        i += 1;
    }
    proof {
        assert(apply_writer_gids(node@, gids@.skip(count as int), writers@).0 == node@);
        assert(events_view(events@) + Seq::<EventView>::empty() =~= events_view(events@));
    }
}

/// Removes the admin entry under `key`, when there is one, preserving key
/// uniqueness.
fn admin_remove(v: &mut Vec<AdminEntry>, key: &str)
    requires
        forall|i: int, j: int|
            0 <= i < j < admin_view(old(v)@).len() ==> admin_view(old(v)@)[i].key != admin_view(
                old(v)@,
            )[j].key,
    ensures
        admin_view(final(v)@) == admin_remove_key(admin_view(old(v)@), key@),
        forall|i: int, j: int|
            0 <= i < j < admin_view(final(v)@).len() ==> admin_view(final(v)@)[i].key
                != admin_view(final(v)@)[j].key,
{
    let ghost a0 = admin_view(v@);
    let i = find_admin(v, key);
    proof {
        lemma_first_where(a0, by_admin_key(key@));
    }
    if i < v.len() {
        v.remove(i);
        proof {
            assert(admin_view(v@) =~= a0.remove(i as int));
            assert(a0.remove(i as int) =~= a0.take(i as int) + a0.skip(i + 1));
            assert forall|a: int, b: int|
                0 <= a < b < a0.remove(i as int).len() implies a0.remove(i as int)[a].key
                != a0.remove(i as int)[b].key by {
                let a1 = if a < i as int {
                    a
                } else {
                    a + 1
                };
                let b1 = if b < i as int {
                    b
                } else {
                    b + 1
                };
                assert(a0.remove(i as int)[a] == a0[a1]);
                assert(a0.remove(i as int)[b] == a0[b1]);
            }
        }
    }
}

} // verus!

verus! {

/// The admin entries whose keys intersect the sub-selector, in admin order.
pub open spec fn admin_matches(admin: Seq<AdminEntryView>, sub: Seq<char>) -> Seq<AdminEntryView>
    decreases admin.len(),
{
    if admin.len() == 0 {
        Seq::empty()
    } else {
        let head: Seq<AdminEntryView> = if crate::keyexpr::ke_intersects_spec(
            sub,
            admin[0].key,
        ) {
            seq![admin[0]]
        } else {
            Seq::empty()
        };
        head + admin_matches(admin.skip(1), sub)
    }
}

/// An entry stands in the matches exactly when it stands in the admin space
/// and its key intersects the sub-selector.
pub proof fn lemma_admin_matches_exact(admin: Seq<AdminEntryView>, sub: Seq<char>)
    ensures
        forall|e: AdminEntryView| #[trigger]
            admin_matches(admin, sub).contains(e) ==> admin.contains(e)
                && crate::keyexpr::ke_intersects_spec(sub, e.key),
        forall|e: AdminEntryView| #[trigger]
            admin.contains(e) && crate::keyexpr::ke_intersects_spec(sub, e.key)
                ==> admin_matches(admin, sub).contains(e),
    decreases admin.len(),
{
    if admin.len() > 0 {
        lemma_admin_matches_exact(admin.skip(1), sub);
        assert forall|e: AdminEntryView|
            admin_matches(admin, sub).contains(e) implies admin.contains(e)
            && crate::keyexpr::ke_intersects_spec(sub, e.key) by {
            let m = admin_matches(admin, sub);
            let i = choose|i: int| 0 <= i < m.len() && m[i] == e;
            let head: Seq<AdminEntryView> = if crate::keyexpr::ke_intersects_spec(
                sub,
                admin[0].key,
            ) {
                seq![admin[0]]
            } else {
                Seq::empty()
            };
            if i < head.len() {
                assert(e == admin[0]);
                assert(admin.contains(e)) by {
                    assert(admin[0] == e);
                }
            } else {
                assert(admin_matches(admin.skip(1), sub)[i - head.len()] == e);
                assert(admin_matches(admin.skip(1), sub).contains(e));
                assert(admin.skip(1).contains(e) && crate::keyexpr::ke_intersects_spec(
                    sub,
                    e.key,
                ));
                let j = choose|j: int|
                    0 <= j < admin.skip(1).len() && admin.skip(1)[j] == e;
                assert(admin[j + 1] == e);
                assert(admin.contains(e)) by {
                    assert(admin[j + 1] == e);
                }
            }
        }
        assert forall|e: AdminEntryView|
            admin.contains(e) && crate::keyexpr::ke_intersects_spec(
                sub,
                e.key,
            ) implies admin_matches(admin, sub).contains(e) by {
            let i = choose|i: int| 0 <= i < admin.len() && admin[i] == e;
            let head: Seq<AdminEntryView> = if crate::keyexpr::ke_intersects_spec(
                sub,
                admin[0].key,
            ) {
                seq![admin[0]]
            } else {
                Seq::empty()
            };
            if i == 0 {
                assert(admin_matches(admin, sub)[0] == e);
            } else {
                assert(admin.skip(1)[i - 1] == e);
                assert(admin.skip(1).contains(e));
                let j = choose|j: int|
                    0 <= j < admin_matches(admin.skip(1), sub).len() && admin_matches(
                        admin.skip(1),
                        sub,
                    )[j] == e;
                assert(admin_matches(admin, sub)[head.len() + j] == e);
            }
        }
    }
}

/// What an admin query replies: the selector is stripped of the admin
/// prefix; a wild remainder is matched against every admin key by key
/// intersection, a plain one looked up directly; a selector outside the
/// prefix gets no reply.
pub open spec fn admin_query_spec(
    admin: Seq<AdminEntryView>,
    selector: Seq<char>,
    prefix: Seq<char>,
) -> Seq<AdminEntryView> {
    if !crate::text::has_prefix(selector, prefix) {
        Seq::empty()
    } else {
        let sub = selector.skip(prefix.len() as int);
        if sub.contains('*') {
            admin_matches(admin, sub)
        } else {
            let i = first_where(admin, by_admin_key(sub));
            if i < admin.len() {
                seq![admin[i]]
            } else {
                Seq::empty()
            }
        }
    }
}

impl EntityRef {
    /// An identical copy.
    pub fn duplicate(&self) -> (r: EntityRef)
        ensures
            r@ == self@,
    {
        match self {
            EntityRef::Participant(g) => EntityRef::Participant(*g),
            EntityRef::Writer(g) => EntityRef::Writer(*g),
            EntityRef::Reader(g) => EntityRef::Reader(*g),
            EntityRef::Node(g, n) => EntityRef::Node(*g, n.clone()),
        }
    }
}

impl DiscoveredEntities {
    /// Answers an admin query: the entries to reply for, in admin order.
    /// The caller resolves each reference and renders the reply.
    #[verifier::loop_isolation(false)]
    pub fn treat_admin_query(&self, selector: &str, admin_prefix: &str) -> (r: Vec<AdminEntry>)
        ensures
            admin_view(r@) == admin_query_spec(
                admin_view(self.admin_space@),
                selector@,
                admin_prefix@,
            ),
    {
        let ghost a0 = admin_view(self.admin_space@);
        let mut out: Vec<AdminEntry> = Vec::new();
        if !crate::text::starts_with(selector, admin_prefix) {
            proof {
                assert(admin_view(out@) =~= Seq::<AdminEntryView>::empty());
            }
            return out;
        }
        let sub = selector.substring_char(admin_prefix.unicode_len(), selector.unicode_len());
        proof {
            assert(sub@ =~= selector@.skip(admin_prefix@.len() as int));
        }
        if crate::text::contains_char(sub, '*') {
            let n = self.admin_space.len();
            let mut i: usize = 0;
            proof {
                assert(a0.skip(0) =~= a0);
                assert(admin_view(out@) + admin_matches(a0, sub@) =~= admin_matches(a0, sub@));
            }
            while i < n
                invariant
                    i <= n,
                    n == self.admin_space@.len(),
                    admin_matches(a0, sub@) == admin_view(out@) + admin_matches(
                        a0.skip(i as int),
                        sub@,
                    ),
                decreases n - i,
            {
                let ghost rest = a0.skip(i as int);
                proof {
                    assert(rest[0] == a0[i as int]);
                    assert(rest.skip(1) =~= a0.skip(i as int + 1));
                    assert(a0[i as int] == self.admin_space@[i as int]@);
                }
                if crate::keyexpr::ke_intersects(sub, self.admin_space[i].key.as_str()) {
                    let ghost out_pre = out@;
                    out.push(
                        AdminEntry {
                            key: self.admin_space[i].key.clone(),
                            entity: self.admin_space[i].entity.duplicate(),
                        },
                    );
                    proof {
                        assert(admin_view(out@) =~= admin_view(out_pre).push(a0[i as int]));
                        assert(admin_view(out_pre) + (seq![rest[0]] + admin_matches(
                            rest.skip(1),
                            sub@,
                        )) =~= admin_view(out@) + admin_matches(rest.skip(1), sub@));
                    }
                } else {
                    proof {
                        assert(admin_view(out@) + (Seq::<AdminEntryView>::empty()
                            + admin_matches(rest.skip(1), sub@)) =~= admin_view(out@)
                            + admin_matches(rest.skip(1), sub@));
                    }
                }
                i += 1;
            }
            proof {
                assert(admin_matches(a0.skip(n as int), sub@) =~= Seq::<AdminEntryView>::empty());
                assert(admin_view(out@) + Seq::<AdminEntryView>::empty() =~= admin_view(out@));
            }
        } else {
            let i = find_admin(&self.admin_space, sub);
            if i < self.admin_space.len() {
                proof {
                    lemma_first_where(a0, by_admin_key(sub@));
                }
                out.push(
                    AdminEntry {
                        key: self.admin_space[i].key.clone(),
                        entity: self.admin_space[i].entity.duplicate(),
                    },
                );
                proof {
                    assert(a0[i as int] == self.admin_space@[i as int]@);
                    assert(admin_view(out@) =~= seq![a0[i as int]]);
                }
            } else {
                proof {
                    assert(admin_view(out@) =~= Seq::<AdminEntryView>::empty());
                }
            }
        }
        out
    }

    /// The first stored participant under `gid`, when there is one.
    pub fn get_participant(&self, gid: &Gid) -> (r: Option<&DdsParticipant>)
        ensures
            ({
                let i = first_where(self.participants@, by_part_key(*gid));
                match r {
                    Some(p) => i < self.participants@.len() && *p == self.participants@[i],
                    None => i == self.participants@.len(),
                }
            }),
    {
        let i = find_participant(&self.participants, gid);
        if i < self.participants.len() {
            Some(&self.participants[i])
        } else {
            None
        }
    }

    /// The stored node of the given identity, when there is one.
    pub fn get_node(&self, gid: &Gid, fullname: &str) -> (r: Option<&NodeInfo>)
        ensures
            ({
                let i = first_where(
                    nodes_view_of(self.nodes_info@),
                    by_node_id(*gid, fullname@),
                );
                match r {
                    Some(n) => i < self.nodes_info@.len() && n@ == nodes_view_of(
                        self.nodes_info@,
                    )[i],
                    None => i == self.nodes_info@.len(),
                }
            }),
    {
        let i = find_node(&self.nodes_info, gid, fullname);
        if i < self.nodes_info.len() {
            Some(&self.nodes_info[i])
        } else {
            None
        }
    }
}

} // verus!
