//! The bridge's configuration: plain settings, and the allow/deny policy of
//! anchored regular expressions that gates route creation per interface
//! kind.

use vstd::prelude::*;

use crate::node_info::ROS2DiscoveryEvent;

verus! {

/// The default node name the bridge advertises.
pub const DEFAULT_NODENAME: &'static str = "zenoh-bridge-ros2";

/// The default DDS domain.
pub const DEFAULT_DOMAIN: u32 = 0;

/// Reliable routes block by default when congested.
pub const DEFAULT_RELIABLE_ROUTES_BLOCKING: bool = true;

/// The default historical-query timeout, in nanoseconds.
pub const DEFAULT_QUERIES_TIMEOUT_NS: u64 = 5_000_000_000;

#[verifier::external_type_specification]
#[verifier::external_body]
pub struct ExRegex(regex::Regex);

/// Whether the regular expression compiled from `pattern` matches somewhere
/// in `text`: a function of the two strings alone.
pub uninterp spec fn re_match(pattern: Seq<char>, text: Seq<char>) -> bool;

/// A compiled interface filter, remembering the pattern it was compiled
/// from.
pub struct InterfaceRegex {
    pattern: String,
    re: regex::Regex,
}

impl View for InterfaceRegex {
    type V = Seq<char>;

    closed spec fn view(&self) -> Seq<char> {
        self.pattern@
    }
}

impl InterfaceRegex {
    /// The pattern this filter was compiled from.
    pub fn pattern(&self) -> (r: &str)
        ensures
            r@ == self@,
    {
        self.pattern.as_str()
    }
}

/// Relies on `regex::Regex::new`: compiles `pattern`, failing exactly on
/// invalid pattern syntax or a too-large automaton.
#[verifier::external_body]
pub fn compile_regex(pattern: &str) -> (r: Option<InterfaceRegex>)
    ensures
        r matches Some(ir) ==> ir@ == pattern@,
{
    match regex::Regex::new(pattern) {
        Ok(re) => Some(InterfaceRegex { pattern: pattern.to_string(), re }),
        Err(_) => None,
    }
}

/// Relies on `regex::Regex::is_match`: true iff the pattern matches
/// somewhere in `text`; the result depends on the pattern and the text
/// alone.
#[verifier::external_body]
pub fn regex_is_match(re: &InterfaceRegex, text: &str) -> (r: bool)
    ensures
        r == re_match(re@, text@),
{
    re.re.is_match(text)
}

/// Six optional anchored filters, one per interface kind.
pub struct ROS2InterfacesRegex {
    pub publishers: Option<InterfaceRegex>,
    pub subscribers: Option<InterfaceRegex>,
    pub service_servers: Option<InterfaceRegex>,
    pub service_clients: Option<InterfaceRegex>,
    pub action_servers: Option<InterfaceRegex>,
    pub action_clients: Option<InterfaceRegex>,
}

/// The allow or deny policy: the allow variant permits an interface iff its
/// kind's filter is present and matches; the deny variant forbids iff
/// present and matching, else permits.
pub enum Allowance {
    Allow(ROS2InterfacesRegex),
    Deny(ROS2InterfacesRegex),
}

/// One filter applied under allow/deny semantics.
pub open spec fn filter_allows(
    filter: Option<Seq<char>>,
    name: Seq<char>,
    is_allow: bool,
) -> bool {
    match filter {
        Some(p) => if is_allow {
            re_match(p, name)
        } else {
            !re_match(p, name)
        },
        None => !is_allow,
    }
}

/// The view of an optional filter.
pub open spec fn filter_view(f: Option<InterfaceRegex>) -> Option<Seq<char>> {
    match f {
        Some(re) => Some(re@),
        None => None,
    }
}

impl Allowance {
    pub open spec fn spec_is_publisher_allowed(self, name: Seq<char>) -> bool {
        match self {
            Allowance::Allow(r) => filter_allows(filter_view(r.publishers), name, true),
            Allowance::Deny(r) => filter_allows(filter_view(r.publishers), name, false),
        }
    }

    pub open spec fn spec_is_subscriber_allowed(self, name: Seq<char>) -> bool {
        match self {
            Allowance::Allow(r) => filter_allows(filter_view(r.subscribers), name, true),
            Allowance::Deny(r) => filter_allows(filter_view(r.subscribers), name, false),
        }
    }

    pub open spec fn spec_is_service_srv_allowed(self, name: Seq<char>) -> bool {
        match self {
            Allowance::Allow(r) => filter_allows(filter_view(r.service_servers), name, true),
            Allowance::Deny(r) => filter_allows(filter_view(r.service_servers), name, false),
        }
    }

    pub open spec fn spec_is_service_cli_allowed(self, name: Seq<char>) -> bool {
        match self {
            Allowance::Allow(r) => filter_allows(filter_view(r.service_clients), name, true),
            Allowance::Deny(r) => filter_allows(filter_view(r.service_clients), name, false),
        }
    }

    pub open spec fn spec_is_action_srv_allowed(self, name: Seq<char>) -> bool {
        match self {
            Allowance::Allow(r) => filter_allows(filter_view(r.action_servers), name, true),
            Allowance::Deny(r) => filter_allows(filter_view(r.action_servers), name, false),
        }
    }

    pub open spec fn spec_is_action_cli_allowed(self, name: Seq<char>) -> bool {
        match self {
            Allowance::Allow(r) => filter_allows(filter_view(r.action_clients), name, true),
            Allowance::Deny(r) => filter_allows(filter_view(r.action_clients), name, false),
        }
    }

    pub fn is_publisher_allowed(&self, name: &str) -> (r: bool)
        ensures
            r == self.spec_is_publisher_allowed(name@),
    {
        match self {
            Allowance::Allow(f) => match &f.publishers {
                Some(re) => regex_is_match(re, name),
                None => false,
            },
            Allowance::Deny(f) => match &f.publishers {
                Some(re) => !regex_is_match(re, name),
                None => true,
            },
        }
    }

    pub fn is_subscriber_allowed(&self, name: &str) -> (r: bool)
        ensures
            r == self.spec_is_subscriber_allowed(name@),
    {
        match self {
            Allowance::Allow(f) => match &f.subscribers {
                Some(re) => regex_is_match(re, name),
                None => false,
            },
            Allowance::Deny(f) => match &f.subscribers {
                Some(re) => !regex_is_match(re, name),
                None => true,
            },
        }
    }

    pub fn is_service_srv_allowed(&self, name: &str) -> (r: bool)
        ensures
            r == self.spec_is_service_srv_allowed(name@),
    {
        match self {
            Allowance::Allow(f) => match &f.service_servers {
                Some(re) => regex_is_match(re, name),
                None => false,
            },
            Allowance::Deny(f) => match &f.service_servers {
                Some(re) => !regex_is_match(re, name),
                None => true,
            },
        }
    }

    pub fn is_service_cli_allowed(&self, name: &str) -> (r: bool)
        ensures
            r == self.spec_is_service_cli_allowed(name@),
    {
        match self {
            Allowance::Allow(f) => match &f.service_clients {
                Some(re) => regex_is_match(re, name),
                None => false,
            },
            Allowance::Deny(f) => match &f.service_clients {
                Some(re) => !regex_is_match(re, name),
                None => true,
            },
        }
    }

    pub fn is_action_srv_allowed(&self, name: &str) -> (r: bool)
        ensures
            r == self.spec_is_action_srv_allowed(name@),
    {
        match self {
            Allowance::Allow(f) => match &f.action_servers {
                Some(re) => regex_is_match(re, name),
                None => false,
            },
            Allowance::Deny(f) => match &f.action_servers {
                Some(re) => !regex_is_match(re, name),
                None => true,
            },
        }
    }

    pub fn is_action_cli_allowed(&self, name: &str) -> (r: bool)
        ensures
            r == self.spec_is_action_cli_allowed(name@),
    {
        match self {
            Allowance::Allow(f) => match &f.action_clients {
                Some(re) => regex_is_match(re, name),
                None => false,
            },
            Allowance::Deny(f) => match &f.action_clients {
                Some(re) => !regex_is_match(re, name),
                None => true,
            },
        }
    }
}

/// Whether a discovery event passes the configured policy: discovery events
/// are gated per interface kind, undiscovery events always pass so state
/// can be torn down.
pub open spec fn spec_event_allowed(
    allowance: Option<Allowance>,
    evt: crate::node_info::EventView,
) -> bool {
    match allowance {
        None => true,
        Some(a) => match evt {
            crate::node_info::EventView::DiscoveredTopicPub(_, i) => a.spec_is_publisher_allowed(
                i.name,
            ),
            crate::node_info::EventView::DiscoveredTopicSub(_, i) => a.spec_is_subscriber_allowed(
                i.name,
            ),
            crate::node_info::EventView::DiscoveredServiceSrv(
                _,
                i,
            ) => a.spec_is_service_srv_allowed(i.name),
            crate::node_info::EventView::DiscoveredServiceCli(
                _,
                i,
            ) => a.spec_is_service_cli_allowed(i.name),
            crate::node_info::EventView::DiscoveredActionSrv(
                _,
                i,
            ) => a.spec_is_action_srv_allowed(i.name),
            crate::node_info::EventView::DiscoveredActionCli(
                _,
                i,
            ) => a.spec_is_action_cli_allowed(i.name),
            _ => true,
        },
    }
}

/// Applies the configured allow/deny policy to one discovery event.
pub fn event_allowed(allowance: &Option<Allowance>, evt: &ROS2DiscoveryEvent) -> (r: bool)
    ensures
        r == spec_event_allowed(*allowance, evt@),
{
    match allowance {
        None => true,
        Some(a) => match evt {
            ROS2DiscoveryEvent::DiscoveredTopicPub(_, i) => a.is_publisher_allowed(
                i.name.as_str(),
            ),
            ROS2DiscoveryEvent::DiscoveredTopicSub(_, i) => a.is_subscriber_allowed(
                i.name.as_str(),
            ),
            ROS2DiscoveryEvent::DiscoveredServiceSrv(_, i) => a.is_service_srv_allowed(
                i.name.as_str(),
            ),
            ROS2DiscoveryEvent::DiscoveredServiceCli(_, i) => a.is_service_cli_allowed(
                i.name.as_str(),
            ),
            ROS2DiscoveryEvent::DiscoveredActionSrv(_, i) => a.is_action_srv_allowed(
                i.name.as_str(),
            ),
            ROS2DiscoveryEvent::DiscoveredActionCli(_, i) => a.is_action_cli_allowed(
                i.name.as_str(),
            ),
            _ => true,
        },
    }
}

/// The anchored pattern `^s$`.
pub open spec fn anchored(s: Seq<char>) -> Seq<char> {
    "^"@ + s + "$"@
}

/// The anchored patterns joined with `|`: the form a list of filters takes.
pub open spec fn anchored_join(v: Seq<Seq<char>>) -> Seq<char>
    decreases v.len(),
{
    if v.len() == 0 {
        Seq::empty()
    } else if v.len() == 1 {
        anchored(v[0])
    } else {
        anchored(v[0]) + "|"@ + anchored_join(v.skip(1))
    }
}

/// Wraps one filter pattern in anchors.
pub fn anchor_pattern(s: &str) -> (r: String)
    ensures
        r@ == anchored(s@),
{
    let mut out = String::new();
    out.append("^");
    out.append(s);
    out.append("$");
    proof {
        assert(out@ =~= anchored(s@));
    }
    out
}

/// Anchors each pattern of a list and joins them with `|`.
pub fn anchor_patterns(v: &Vec<String>) -> (r: String)
    ensures
        r@ == anchored_join(v@.map_values(|s: String| s@)),
{
    let ghost pv = v@.map_values(|s: String| s@);
    let n = v.len();
    let mut out = String::new();
    if n == 0 {
        proof {
            assert(out@ =~= anchored_join(pv));
        }
        return out;
    }
    let first = anchor_pattern(v[0].as_str());
    out.append(first.as_str());
    let mut i: usize = 1;
    while i < n
        invariant
            1 <= i <= n,
            n == v@.len(),
            pv == v@.map_values(|s: String| s@),
            out@ == anchored_join(pv.take(i as int)),
        decreases n - i,
    {
        out.append("|");
        let next = anchor_pattern(v[i].as_str());
        out.append(next.as_str());
        proof {
            lemma_anchored_join_snoc(pv.take(i as int + 1));
            assert(pv.take(i as int + 1).drop_last() =~= pv.take(i as int));
            assert(pv.take(i as int + 1).last() == pv[i as int]);
            assert(out@ =~= anchored_join(pv.take(i as int + 1)));
        }
        i += 1;
    }
    proof {
        assert(pv.take(n as int) =~= pv);
    }
    out
}

/// Joining splits off the last pattern.
proof fn lemma_anchored_join_snoc(v: Seq<Seq<char>>)
    requires
        v.len() >= 2,
    ensures
        anchored_join(v) == anchored_join(v.drop_last()) + "|"@ + anchored(v.last()),
    decreases v.len(),
{
    if v.len() == 2 {
        assert(v.skip(1) =~= seq![v[1]]);
        assert(v.drop_last() =~= seq![v[0]]);
        assert(anchored_join(v.skip(1)) == anchored(v[1]));
    } else {
        lemma_anchored_join_snoc(v.skip(1));
        assert(v.skip(1).drop_last() =~= v.drop_last().skip(1));
        assert(v.skip(1).last() == v.last());
        assert(anchored_join(v) == anchored(v[0]) + "|"@ + anchored_join(v.skip(1)));
        assert(anchored_join(v.drop_last()) == anchored(v[0]) + "|"@ + anchored_join(
            v.drop_last().skip(1),
        ));
        assert((anchored(v[0]) + "|"@ + (anchored_join(v.drop_last().skip(1)) + "|"@ + anchored(
            v.last(),
        ))) =~= ((anchored(v[0]) + "|"@ + anchored_join(v.drop_last().skip(1))) + "|"@ + anchored(
            v.last(),
        )));
    }
}

/// The configuration the core consumes: identities, the DDS domain, timing,
/// congestion policy, and the optional allow/deny policy. Reading the
/// process environment and parsing the configuration text happen outside
/// the core.
pub struct Config {
    pub id: Option<String>,
    pub namespace: Option<String>,
    pub nodename: String,
    pub domain: u32,
    pub ros_localhost_only: bool,
    pub shm_enabled: bool,
    pub queries_timeout_ns: u64,
    pub reliable_routes_blocking: bool,
    pub allowance: Option<Allowance>,
}

impl Default for Config {
    /// The documented defaults; environment overrides are the caller's
    /// business.
    fn default() -> (r: Self)
        ensures
            r.id.is_none(),
            r.namespace.is_none(),
            r.nodename@ == DEFAULT_NODENAME@,
            r.domain == DEFAULT_DOMAIN,
            !r.ros_localhost_only,
            !r.shm_enabled,
            r.queries_timeout_ns == DEFAULT_QUERIES_TIMEOUT_NS,
            r.reliable_routes_blocking == DEFAULT_RELIABLE_ROUTES_BLOCKING,
            r.allowance.is_none(),
    {
        Config {
            id: None,
            namespace: None,
            nodename: DEFAULT_NODENAME.to_owned(),
            domain: DEFAULT_DOMAIN,
            ros_localhost_only: false,
            shm_enabled: false,
            queries_timeout_ns: DEFAULT_QUERIES_TIMEOUT_NS,
            reliable_routes_blocking: DEFAULT_RELIABLE_ROUTES_BLOCKING,
            allowance: None,
        }
    }
}

} // verus!
