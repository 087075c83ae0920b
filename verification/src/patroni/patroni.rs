use vstd::prelude::*;
use vstd::string::*;
use crate::text::{opt_text, text_le, text_le_exec, lemma_text_le_total, lemma_text_le_transitive};

verus! {

/// A client of one Patroni REST API, at `addr` (`host:port`).
#[derive(Clone, Debug)]
pub struct Patroni {
    pub addr: String,
}

/// One member of the cluster as Patroni's `/cluster` endpoint reports it.
#[derive(Clone, Debug)]
pub struct NodeStatus {
    pub name: String,
    pub role: String,
    pub state: String,
    pub host: String,
    /// Replication lag, where Patroni reports one.
    pub lag: Option<u64>,
    /// The member's own REST API (`api_url`), where Patroni reports one.
    pub api_url: Option<String>,
}

/// The abstract value of a `NodeStatus`.
pub struct NodeStatusView {
    pub name: Seq<char>,
    pub role: Seq<char>,
    pub state: Seq<char>,
    pub host: Seq<char>,
    pub lag: Option<u64>,
    pub api_url: Option<Seq<char>>,
}

impl View for NodeStatus {
    type V = NodeStatusView;

    open spec fn view(&self) -> NodeStatusView {
        NodeStatusView {
            name: self.name@,
            role: self.role@,
            state: self.state@,
            host: self.host@,
            lag: self.lag,
            api_url: opt_text(self.api_url),
        }
    }
}

/// The colour in which the cluster table shows a role or a state.
#[derive(Clone, Copy, Debug, PartialEq, Eq, Structural)]
pub enum Tone {
    Green,
    Cyan,
    Yellow,
}

impl NodeStatus {
    /// The colour of the member's role: green for `leader`, cyan for
    /// `replica`, yellow for any other role.
    pub fn role_tone(&self) -> (c: Tone)
        ensures
            c == if self.role@ == "leader"@ {
                Tone::Green
            } else if self.role@ == "replica"@ {
                Tone::Cyan
            } else {
                Tone::Yellow
            },
    {
        if self.role == String::from_str("leader") {
            Tone::Green
        } else if self.role == String::from_str("replica") {
            Tone::Cyan
        } else {
            Tone::Yellow
        }
    }

    /// The colour of the member's state: green for `running`, cyan
    /// otherwise.
    pub fn state_tone(&self) -> (c: Tone)
        ensures
            c == if self.state@ == "running"@ {
                Tone::Green
            } else {
                Tone::Cyan
            },
    {
        if self.state == String::from_str("running") {
            Tone::Green
        } else {
            Tone::Cyan
        }
    }
}

/// The cluster as this node sees it: its scope, this node's name, and the
/// members, at most one per name.
#[derive(Clone, Debug)]
pub struct ClusterInfo {
    pub scope: String,
    pub node_name: String,
    pub members: Vec<NodeStatus>,
}

/// What Patroni's root endpoint tells of this node, `-` where it tells
/// nothing.
#[derive(Clone, Debug)]
pub struct PatroniData {
    pub role: String,
    pub leader: String,
    pub state: String,
    pub scope: String,
    pub node_name: String,
}

/// The abstract value of a `PatroniData`.
pub struct PatroniDataView {
    pub role: Seq<char>,
    pub leader: Seq<char>,
    pub state: Seq<char>,
    pub scope: Seq<char>,
    pub node_name: Seq<char>,
}

impl View for PatroniData {
    type V = PatroniDataView;

    open spec fn view(&self) -> PatroniDataView {
        PatroniDataView {
            role: self.role@,
            leader: self.leader@,
            state: self.state@,
            scope: self.scope@,
            node_name: self.node_name@,
        }
    }
}

/// The views of a sequence of nodes.
pub open spec fn node_views(ns: Seq<NodeStatus>) -> Seq<NodeStatusView> {
    ns.map_values(|n: NodeStatus| n@)
}

/// The members keyed by name; a later member replaces an earlier one of the
/// same name, as inserting them one by one into a map does.
pub open spec fn member_map(ms: Seq<NodeStatusView>) -> Map<Seq<char>, NodeStatusView>
    decreases ms.len(),
{
    if ms.len() == 0 {
        Map::empty()
    } else {
        member_map(ms.drop_last()).insert(ms.last().name, ms.last())
    }
}

/// No two members share a name.
pub open spec fn distinct_names(ms: Seq<NodeStatusView>) -> bool {
    forall|i: int, j: int|
        0 <= i < ms.len() && 0 <= j < ms.len() && i != j ==> #[trigger] ms[i].name != #[trigger] ms[j].name
}

/// The map of members with distinct names holds exactly their names, each
/// with its member.
pub proof fn lemma_member_map_distinct(ms: Seq<NodeStatusView>)
    requires
        distinct_names(ms),
    ensures
        forall|k: Seq<char>|
            #[trigger] member_map(ms).dom().contains(k) <==> exists|i: int|
                0 <= i < ms.len() && #[trigger] ms[i].name == k,
        forall|i: int|
            0 <= i < ms.len() ==> #[trigger] member_map(ms).dom().contains(ms[i].name)
                && member_map(ms)[ms[i].name] == ms[i],
    decreases ms.len(),
{
    if ms.len() > 0 {
        let p = ms.drop_last();
        let last = ms.last();
        assert(distinct_names(p));
        lemma_member_map_distinct(p);
        assert forall|k: Seq<char>| #[trigger] member_map(ms).dom().contains(k) implies exists|i: int|
            0 <= i < ms.len() && #[trigger] ms[i].name == k by {
            if k != last.name {
                assert(member_map(p).dom().contains(k));
                let i = choose|i: int| 0 <= i < p.len() && #[trigger] p[i].name == k;
                assert(ms[i].name == k);
            } else {
                assert(ms[ms.len() - 1].name == k);
            }
        }
        assert forall|i: int| 0 <= i < ms.len() implies #[trigger] member_map(ms).dom().contains(
            ms[i].name,
        ) && member_map(ms)[ms[i].name] == ms[i] by {
            if i < ms.len() - 1 {
                assert(p[i] == ms[i]);
                assert(ms[i].name != ms[ms.len() - 1].name);
                assert(member_map(p).dom().contains(p[i].name));
                assert(member_map(p)[p[i].name] == p[i]);
            }
        }
        assert forall|k: Seq<char>|
            (exists|i: int| 0 <= i < ms.len() && #[trigger] ms[i].name == k) implies #[trigger] member_map(
            ms,
        ).dom().contains(k) by {
            let i = choose|i: int| 0 <= i < ms.len() && #[trigger] ms[i].name == k;
            assert(member_map(ms).dom().contains(ms[i].name));
        }
    }
}

/// The member map holds exactly the names of the nodes, and for each name
/// the last node of that name: a later node replaces an earlier one.
pub proof fn law_last_node_wins(nodes: Seq<NodeStatusView>, i: int)
    requires
        0 <= i < nodes.len(),
        forall|j: int| i < j < nodes.len() ==> #[trigger] nodes[j].name != nodes[i].name,
    ensures
        member_map(nodes).dom().contains(nodes[i].name),
        member_map(nodes)[nodes[i].name] == nodes[i],
    decreases nodes.len(),
{
    if i < nodes.len() - 1 {
        let p = nodes.drop_last();
        assert forall|j: int| i < j < p.len() implies #[trigger] p[j].name != p[i].name by {
            assert(nodes[j].name != nodes[i].name);
        }
        law_last_node_wins(p, i);
        assert(nodes[nodes.len() - 1].name != nodes[i].name);
    }
}

/// A name is in the member map exactly when some node has it.
pub proof fn law_member_map_names(nodes: Seq<NodeStatusView>, k: Seq<char>)
    ensures
        member_map(nodes).dom().contains(k) <==> exists|i: int|
            0 <= i < nodes.len() && #[trigger] nodes[i].name == k,
    decreases nodes.len(),
{
    if nodes.len() > 0 {
        let p = nodes.drop_last();
        law_member_map_names(p, k);
        if member_map(nodes).dom().contains(k) && k != nodes.last().name {
            let i = choose|i: int| 0 <= i < p.len() && #[trigger] p[i].name == k;
            assert(nodes[i].name == k);
        }
        if exists|i: int| 0 <= i < nodes.len() && #[trigger] nodes[i].name == k {
            let i = choose|i: int| 0 <= i < nodes.len() && #[trigger] nodes[i].name == k;
            if i < nodes.len() - 1 {
                assert(p[i].name == k);
            }
        }
    }
}

/// Name comparison of two strings, as `String`'s `==` tells.
fn same_text(a: &String, b: &String) -> (r: bool)
    ensures
        r == (a@ == b@),
{
    *a == *b
}

/// A copy of `n`.
pub fn copy_node(n: &NodeStatus) -> (r: NodeStatus)
    ensures
        r@ == n@,
{
    NodeStatus {
        name: n.name.clone(),
        role: n.role.clone(),
        state: n.state.clone(),
        host: n.host.clone(),
        lag: n.lag,
        api_url: match &n.api_url {
            Some(u) => Some(u.clone()),
            None => None,
        },
    }
}

/// Where a node goes among the members: in place of the member of its
/// name, where there is one, else at the end.
pub open spec fn insert_node(ms: Seq<NodeStatusView>, n: NodeStatusView) -> Seq<NodeStatusView> {
    if exists|i: int| 0 <= i < ms.len() && #[trigger] ms[i].name == n.name {
        let i = choose|i: int| 0 <= i < ms.len() && #[trigger] ms[i].name == n.name;
        ms.update(i, n)
    } else {
        ms.push(n)
    }
}

/// The members after putting the nodes in one by one, in order, each as
/// `insert_node` says.
pub open spec fn inserted_members(nodes: Seq<NodeStatusView>) -> Seq<NodeStatusView>
    decreases nodes.len(),
{
    if nodes.len() == 0 {
        Seq::empty()
    } else {
        insert_node(inserted_members(nodes.drop_last()), nodes.last())
    }
}

/// Puts `node` among `members` as a map insert does: it replaces the member
/// of the same name, if there is one, and is added at the end otherwise.
fn insert_member(members: &mut Vec<NodeStatus>, node: NodeStatus)
    requires
        distinct_names(node_views(old(members)@)),
    ensures
        distinct_names(node_views(final(members)@)),
        node_views(final(members)@) == insert_node(node_views(old(members)@), node@),
        member_map(node_views(final(members)@)) == member_map(node_views(old(members)@)).insert(
            node@.name,
            node@,
        ),
{
    let ghost ov = node_views(members@);
    let mut i: usize = 0;
    while i < members.len()
        invariant
            ov == node_views(members@),
            ov == node_views(old(members)@),
            distinct_names(ov),
            i <= members@.len(),
            forall|j: int| 0 <= j < i ==> #[trigger] ov[j].name != node@.name,
        decreases members@.len() - i,
    {
        if same_text(&members[i].name, &node.name) {
            let ghost nv = node@;
            members.set(i, node);
            proof {
                let ms = node_views(members@);
                assert(ms =~= ov.update(i as int, nv));
                assert(distinct_names(ms)) by {
                    assert forall|a: int, b: int|
                        0 <= a < ms.len() && 0 <= b < ms.len() && a != b implies #[trigger] ms[a].name
                        != #[trigger] ms[b].name by {
                        assert(ov[a].name != ov[b].name);
                    }
                }
                lemma_member_map_distinct(ms);
                lemma_member_map_distinct(ov);
                assert(member_map(ms) =~= member_map(ov).insert(nv.name, nv)) by {
                    assert forall|k: Seq<char>| #[trigger] member_map(ms).dom().contains(k)
                        <==> member_map(ov).insert(nv.name, nv).dom().contains(k) by {
                        if member_map(ms).dom().contains(k) {
                            let a = choose|a: int| 0 <= a < ms.len() && #[trigger] ms[a].name == k;
                            if a != i {
                                assert(ov[a].name == k);
                            }
                        }
                        if member_map(ov).dom().contains(k) {
                            let a = choose|a: int| 0 <= a < ov.len() && #[trigger] ov[a].name == k;
                            if a != i {
                                assert(ms[a].name == k);
                            } else {
                                assert(ms[a].name == k);
                            }
                        }
                        if k == nv.name {
                            assert(ms[i as int].name == k);
                        }
                    }
                    assert forall|k: Seq<char>| #[trigger] member_map(ms).dom().contains(k)
                        implies member_map(ms)[k] == member_map(ov).insert(nv.name, nv)[k] by {
                        let a = choose|a: int| 0 <= a < ms.len() && #[trigger] ms[a].name == k;
                        if a != i {
                            assert(ov[a] == ms[a]);
                        }
                    }
                }
                assert(ov[i as int].name == nv.name);
                let c = choose|c: int| 0 <= c < ov.len() && #[trigger] ov[c].name == nv.name;
                if c != i {
                    assert(ov[c].name != ov[i as int].name);
                }
                assert(ms == insert_node(ov, nv));
            }
            return;
        }
        i = i + 1;
    }
    let ghost nv = node@;
    members.push(node);
    proof {
        let ms = node_views(members@);
        assert(ms =~= ov.push(nv));
        assert(!exists|c: int| 0 <= c < ov.len() && #[trigger] ov[c].name == nv.name);
        assert(ms.drop_last() =~= ov);
        assert(distinct_names(ms)) by {
            assert forall|a: int, b: int|
                0 <= a < ms.len() && 0 <= b < ms.len() && a != b implies #[trigger] ms[a].name
                != #[trigger] ms[b].name by {
                if a < ov.len() && b < ov.len() {
                    assert(ov[a].name != ov[b].name);
                } else if a < ov.len() {
                    assert(ov[a].name != nv.name);
                } else {
                    assert(ov[b].name != nv.name);
                }
            }
        }
    }
}

/// The members are in order of name.
pub open spec fn sorted_by_name(ms: Seq<NodeStatusView>) -> bool {
    forall|i: int, j: int|
        0 <= i < j < ms.len() ==> text_le(#[trigger] ms[i].name, #[trigger] ms[j].name)
}

/// Putting a member whose name is new anywhere among members with distinct
/// names keeps the names distinct and adds it to their map.
pub proof fn lemma_insert_fresh_member(ov: Seq<NodeStatusView>, p: int, x: NodeStatusView)
    requires
        distinct_names(ov),
        0 <= p <= ov.len(),
        forall|k: int| 0 <= k < ov.len() ==> #[trigger] ov[k].name != x.name,
    ensures
        distinct_names(ov.insert(p, x)),
        member_map(ov.insert(p, x)) == member_map(ov).insert(x.name, x),
{
    let nv = ov.insert(p, x);
    assert forall|a: int, b: int|
        0 <= a < nv.len() && 0 <= b < nv.len() && a != b implies #[trigger] nv[a].name
        != #[trigger] nv[b].name by {
        let oa = if a < p { a } else { a - 1 };
        let ob = if b < p { b } else { b - 1 };
        if a != p && b != p {
            assert(ov[oa].name != ov[ob].name);
        } else if a == p {
            assert(ov[ob].name != x.name);
        } else {
            assert(ov[oa].name != x.name);
        }
    }
    lemma_member_map_distinct(ov);
    lemma_member_map_distinct(nv);
    assert forall|k: Seq<char>| #[trigger] member_map(nv).dom().contains(k) <==> member_map(
        ov,
    ).insert(x.name, x).dom().contains(k) by {
        if member_map(nv).dom().contains(k) {
            let a = choose|a: int| 0 <= a < nv.len() && #[trigger] nv[a].name == k;
            if a < p {
                assert(ov[a].name == k);
            } else if a > p {
                assert(ov[a - 1].name == k);
            }
        }
        if member_map(ov).dom().contains(k) {
            let a = choose|a: int| 0 <= a < ov.len() && #[trigger] ov[a].name == k;
            if a < p {
                assert(nv[a].name == k);
            } else {
                assert(nv[a + 1].name == k);
            }
        }
        if k == x.name {
            assert(nv[p].name == k);
        }
    }
    assert forall|k: Seq<char>| #[trigger] member_map(nv).dom().contains(k) implies member_map(
        nv,
    )[k] == member_map(ov).insert(x.name, x)[k] by {
        let a = choose|a: int| 0 <= a < nv.len() && #[trigger] nv[a].name == k;
        if a < p {
            assert(ov[a] == nv[a]);
        } else if a > p {
            assert(ov[a - 1] == nv[a]);
        }
    }
    assert(member_map(nv) =~= member_map(ov).insert(x.name, x));
}

/// The members named `k`, in order.
pub open spec fn named(ms: Seq<NodeStatusView>, k: Seq<char>) -> Seq<NodeStatusView>
    decreases ms.len(),
{
    if ms.len() == 0 {
        Seq::empty()
    } else if ms.last().name == k {
        named(ms.drop_last(), k).push(ms.last())
    } else {
        named(ms.drop_last(), k)
    }
}

/// Putting `x` at `p`, where no member from `p` on has `x`'s name, keeps
/// the members of every name in order, with `x` last among its own.
proof fn lemma_named_insert(s: Seq<NodeStatusView>, p: int, x: NodeStatusView, k: Seq<char>)
    requires
        0 <= p <= s.len(),
        forall|j: int| p <= j < s.len() ==> #[trigger] s[j].name != x.name,
    ensures
        named(s.insert(p, x), k) == if x.name == k {
            named(s, k).push(x)
        } else {
            named(s, k)
        },
    decreases s.len(),
{
    if p == s.len() {
        assert(s.insert(p, x) =~= s.push(x));
        assert(s.push(x).drop_last() =~= s);
    } else {
        let d = s.drop_last();
        lemma_named_insert(d, p, x, k);
        assert(s.insert(p, x).drop_last() =~= d.insert(p, x));
        assert(s.insert(p, x).last() == s.last());
        assert(s.last().name != x.name);
    }
}

/// A copy of `ms` in order of name, as the stable `sort_by_key` on the
/// names leaves it: the same members (a permutation of them), those of one
/// name in their former order; where the names are distinct, also with the
/// same map.
pub fn sort_members_by_name(ms: &Vec<NodeStatus>) -> (r: Vec<NodeStatus>)
    ensures
        sorted_by_name(node_views(r@)),
        node_views(r@).to_multiset() == node_views(ms@).to_multiset(),
        distinct_names(node_views(ms@)) ==> distinct_names(node_views(r@)),
        distinct_names(node_views(ms@)) ==> member_map(node_views(r@)) == member_map(
            node_views(ms@),
        ),
        r@.len() == ms@.len(),
        forall|k: Seq<char>| #[trigger] named(node_views(r@), k) == named(node_views(ms@), k),
{
    broadcast use vstd::seq_lib::to_multiset_build, vstd::seq_lib::to_multiset_insert;

    let mut out: Vec<NodeStatus> = Vec::new();
    let mut i: usize = 0;
    assert(node_views(ms@).take(0) =~= Seq::<NodeStatusView>::empty());
    assert(node_views(out@) =~= Seq::<NodeStatusView>::empty());
    while i < ms.len()
        invariant
            i <= ms@.len(),
            distinct_names(node_views(ms@)) ==> distinct_names(node_views(out@)),
            distinct_names(node_views(ms@)) ==> member_map(node_views(out@)) == member_map(
                node_views(ms@).take(i as int),
            ),
            out@.len() == i,
            sorted_by_name(node_views(out@)),
            node_views(out@).to_multiset() == node_views(ms@).take(i as int).to_multiset(),
            forall|k: Seq<char>| #[trigger] named(node_views(out@), k) == named(
                node_views(ms@).take(i as int),
                k,
            ),
        decreases ms@.len() - i,
    {
        let x = copy_node(&ms[i]);
        let mut p: usize = 0;
        while p < out.len() && text_le_exec(out[p].name.as_str(), x.name.as_str())
            invariant
                p <= out@.len(),
                forall|k: int| 0 <= k < p ==> text_le(#[trigger] out@[k].name@, x.name@),
            decreases out@.len() - p,
        {
            p = p + 1;
        }
        let ghost ov = node_views(out@);
        let ghost xv = x@;
        proof {
            let msv = node_views(ms@);
            let pre = msv.take(i as int);
            assert(msv[i as int] == xv);
            if distinct_names(msv) {
                assert(distinct_names(pre));
                lemma_member_map_distinct(pre);
                lemma_member_map_distinct(ov);
                if member_map(pre).dom().contains(xv.name) {
                    let j = choose|j: int| 0 <= j < pre.len() && #[trigger] pre[j].name == xv.name;
                    assert(msv[j].name == msv[i as int].name);
                }
                assert forall|k: int| 0 <= k < ov.len() implies #[trigger] ov[k].name != xv.name by {
                    assert(member_map(ov).dom().contains(ov[k].name));
                }
                lemma_insert_fresh_member(ov, p as int, xv);
            }
            if p < ov.len() {
                assert(ov[p as int] == out@[p as int]@);
                lemma_text_le_total(ov[p as int].name, xv.name);
                assert(!text_le(ov[p as int].name, xv.name));
            }
            assert forall|j: int| p <= j < ov.len() implies #[trigger] ov[j].name != xv.name by {
                if j > p {
                    assert(text_le(ov[p as int].name, ov[j].name));
                }
            }
        }
        out.insert(p, x);
        proof {
            let nv = node_views(out@);
            assert(nv =~= ov.insert(p as int, xv));
            assert forall|a: int, b: int| 0 <= a < b < nv.len() implies text_le(
                #[trigger] nv[a].name,
                #[trigger] nv[b].name,
            ) by {
                if a < p && b < p {
                    assert(text_le(ov[a].name, ov[b].name));
                } else if a < p && b == p {
                    assert(ov[a] == out@[a]@);
                } else if a < p {
                    assert(text_le(ov[a].name, ov[b - 1].name));
                } else if a == p {
                    if b - 1 > p {
                        assert(text_le(ov[p as int].name, ov[b - 1].name));
                        lemma_text_le_transitive(xv.name, ov[p as int].name, ov[b - 1].name);
                    }
                } else {
                    assert(text_le(ov[a - 1].name, ov[b - 1].name));
                }
            }
            assert(node_views(ms@)[i as int] == xv);
            assert(node_views(ms@).take(i + 1) =~= node_views(ms@).take(i as int).push(xv));
            assert(node_views(ms@).take(i + 1).drop_last() =~= node_views(ms@).take(i as int));
            vstd::seq_lib::to_multiset_insert(ov, p as int, xv);
            vstd::seq_lib::to_multiset_build(node_views(ms@).take(i as int), xv);
            assert(nv.to_multiset() == node_views(ms@).take(i + 1).to_multiset());
            assert forall|k: Seq<char>| #[trigger] named(nv, k) == named(
                node_views(ms@).take(i + 1),
                k,
            ) by {
                lemma_named_insert(ov, p as int, xv, k);
            }
        }
        i = i + 1;
    }
    assert(node_views(ms@).take(ms@.len() as int) =~= node_views(ms@));
    out
}

impl ClusterInfo {
    /// The same cluster with its members in order of name.
    pub fn sorted_by_name(self) -> (c: ClusterInfo)
        ensures
            c.scope@ == self.scope@,
            c.node_name@ == self.node_name@,
            sorted_by_name(node_views(c.members@)),
            distinct_names(node_views(self.members@)) ==> distinct_names(node_views(c.members@)),
            distinct_names(node_views(self.members@)) ==> member_map(node_views(c.members@))
                == member_map(node_views(self.members@)),
            node_views(c.members@).to_multiset() == node_views(self.members@).to_multiset(),
            forall|k: Seq<char>|
                #[trigger] named(node_views(c.members@), k) == named(node_views(self.members@), k),
    {
        let members = sort_members_by_name(&self.members);
        ClusterInfo { scope: self.scope, node_name: self.node_name, members }
    }
}

proof fn lemma_member_map_drop_first(ms: Seq<NodeStatusView>)
    requires
        distinct_names(ms),
        ms.len() > 0,
    ensures
        distinct_names(ms.drop_first()),
        member_map(ms.drop_first()) == member_map(ms).remove(ms[0].name),
{
    let t = ms.drop_first();
    assert(distinct_names(t)) by {
        assert forall|a: int, b: int|
            0 <= a < t.len() && 0 <= b < t.len() && a != b implies #[trigger] t[a].name
            != #[trigger] t[b].name by {
            assert(ms[a + 1].name != ms[b + 1].name);
        }
    }
    lemma_member_map_distinct(ms);
    lemma_member_map_distinct(t);
    assert forall|k: Seq<char>| #[trigger] member_map(t).dom().contains(k) <==> member_map(
        ms,
    ).remove(ms[0].name).dom().contains(k) by {
        if member_map(t).dom().contains(k) {
            let a = choose|a: int| 0 <= a < t.len() && #[trigger] t[a].name == k;
            assert(ms[a + 1].name == k);
            assert(ms[a + 1].name != ms[0].name);
        }
        if member_map(ms).dom().contains(k) && k != ms[0].name {
            let a = choose|a: int| 0 <= a < ms.len() && #[trigger] ms[a].name == k;
            assert(a != 0);
            assert(t[a - 1].name == k);
        }
    }
    assert forall|k: Seq<char>| #[trigger] member_map(t).dom().contains(k) implies member_map(t)[k]
        == member_map(ms)[k] by {
        let a = choose|a: int| 0 <= a < t.len() && #[trigger] t[a].name == k;
        assert(ms[a + 1] == t[a]);
    }
    assert(member_map(t) =~= member_map(ms).remove(ms[0].name));
}

/// Members in order of name, with distinct names, are fixed by their map:
/// two such lists with the same members are the same list. So the sorted
/// member list of a cluster is determined, and sorting it again changes
/// nothing.
pub proof fn law_sorted_members_unique(a: Seq<NodeStatusView>, b: Seq<NodeStatusView>)
    requires
        sorted_by_name(a),
        sorted_by_name(b),
        distinct_names(a),
        distinct_names(b),
        member_map(a) == member_map(b),
    ensures
        a == b,
    decreases a.len(),
{
    lemma_member_map_distinct(a);
    lemma_member_map_distinct(b);
    if a.len() == 0 {
        if b.len() > 0 {
            assert(member_map(b).dom().contains(b[0].name));
        }
        assert(a =~= b);
    } else if b.len() == 0 {
        assert(member_map(a).dom().contains(a[0].name));
    } else {
        assert(member_map(a).dom().contains(b[0].name));
        let i = choose|i: int| 0 <= i < a.len() && #[trigger] a[i].name == b[0].name;
        assert(member_map(b).dom().contains(a[0].name));
        let j = choose|j: int| 0 <= j < b.len() && #[trigger] b[j].name == a[0].name;
        if i > 0 {
            assert(text_le(a[0].name, a[i].name));
        }
        if j > 0 {
            assert(text_le(b[0].name, b[j].name));
        }
        crate::text::lemma_text_le_reflexive(a[0].name);
        crate::text::lemma_text_le_reflexive(b[0].name);
        crate::text::lemma_text_le_antisymmetric(a[0].name, b[0].name);
        assert(a[0] == member_map(a)[a[0].name]);
        assert(b[0] == member_map(b)[b[0].name]);
        lemma_member_map_drop_first(a);
        lemma_member_map_drop_first(b);
        let ta = a.drop_first();
        let tb = b.drop_first();
        assert(sorted_by_name(ta)) by {
            assert forall|x: int, y: int| 0 <= x < y < ta.len() implies text_le(
                #[trigger] ta[x].name,
                #[trigger] ta[y].name,
            ) by {
                assert(text_le(a[x + 1].name, a[y + 1].name));
            }
        }
        assert(sorted_by_name(tb)) by {
            assert forall|x: int, y: int| 0 <= x < y < tb.len() implies text_le(
                #[trigger] tb[x].name,
                #[trigger] tb[y].name,
            ) by {
                assert(text_le(b[x + 1].name, b[y + 1].name));
            }
        }
        law_sorted_members_unique(ta, tb);
        assert(a =~= seq![a[0]] + ta);
        assert(b =~= seq![b[0]] + tb);
    }
}

/// Replication that is healthy within a threshold is healthy within any
/// larger one.
pub proof fn law_replication_ok_monotone(ms: Seq<NodeStatusView>, t1: u64, t2: u64)
    requires
        lags_within(ms, t1),
        t1 <= t2,
    ensures
        lags_within(ms, t2),
{
    assert forall|i: int| 0 <= i < ms.len() implies (#[trigger] ms[i].lag matches Some(l) ==> l
        <= t2) by {
        if let Some(l) = ms[i].lag {
            assert(l <= t1);
        }
    }
}

/// The name of the first member whose role is `leader`, or `-` where none is.
pub open spec fn leader_name(ms: Seq<NodeStatusView>) -> Seq<char>
    decreases ms.len(),
{
    if ms.len() == 0 {
        "-"@
    } else if ms[0].role == "leader"@ {
        ms[0].name
    } else {
        leader_name(ms.drop_first())
    }
}

/// Every member that reports a lag lags by at most `max_lag_us`.
pub open spec fn lags_within(ms: Seq<NodeStatusView>, max_lag_us: u64) -> bool {
    forall|i: int| 0 <= i < ms.len() ==> (#[trigger] ms[i].lag matches Some(l) ==> l <= max_lag_us)
}

impl ClusterInfo {
    /// The name of the leader: the first member whose role is `leader`, or
    /// `-` where no member has that role.
    pub fn leader_node_name(&self) -> (r: String)
        ensures
            r@ == leader_name(node_views(self.members@)),
    {
        let ghost ms = node_views(self.members@);
        let leader = String::from_str("leader");
        let mut i: usize = 0;
        assert(ms.skip(0) =~= ms);
        while i < self.members.len()
            invariant
                ms == node_views(self.members@),
                leader@ == "leader"@,
                i <= ms.len(),
                leader_name(ms) == leader_name(ms.skip(i as int)),
            decreases ms.len() - i,
        {
            assert(ms.skip(i as int)[0] == self.members@[i as int]@);
            if self.members[i].role == leader {
                return self.members[i].name.clone();
            }
            assert(ms.skip(i as int).drop_first() =~= ms.skip(i + 1));
            i = i + 1;
        }
        String::from_str("-")
    }

    /// The first member named `name`, if any.
    pub fn member(&self, name: &str) -> (r: Option<&NodeStatus>)
        ensures
            match r {
                Some(n) => exists|i: int|
                    0 <= i < self.members@.len() && self.members@[i]@ == n@ && n.name@ == name@
                        && forall|j: int| 0 <= j < i ==> #[trigger] self.members@[j].name@ != name@,
                None => forall|i: int|
                    0 <= i < self.members@.len() ==> #[trigger] self.members@[i].name@ != name@,
            },
    {
        let wanted = String::from_str(name);
        let mut i: usize = 0;
        while i < self.members.len()
            invariant
                wanted@ == name@,
                i <= self.members@.len(),
                forall|j: int| 0 <= j < i ==> #[trigger] self.members@[j].name@ != name@,
            decreases self.members@.len() - i,
        {
            if self.members[i].name == wanted {
                return Some(&self.members[i]);
            }
            i = i + 1;
        }
        None
    }

    /// How the overview names this node's role: `Primary` where the member
    /// named as this node has the role `leader`, `Replica` otherwise (also
    /// where no member has this node's name).
    pub fn node_role_label(&self) -> (r: &'static str)
        ensures
            r@ == if exists|i: int|
                0 <= i < self.members@.len() && self.members@[i].name@ == self.node_name@
                    && self.members@[i].role@ == "leader"@ && forall|j: int|
                    0 <= j < i ==> #[trigger] self.members@[j].name@ != self.node_name@ {
                "Primary"@
            } else {
                "Replica"@
            },
    {
        match self.member(self.node_name.as_str()) {
            Some(n) => {
                if n.role == String::from_str("leader") {
                    "Primary"
                } else {
                    proof {
                        assert forall|i: int|
                            0 <= i < self.members@.len() && self.members@[i].name@ == self.node_name@
                                && forall|j: int|
                                0 <= j < i ==> #[trigger] self.members@[j].name@ != self.node_name@
                            implies self.members@[i].role@ != "leader"@ by {
                            let k = choose|k: int|
                                0 <= k < self.members@.len() && self.members@[k]@ == n@
                                    && n.name@ == self.node_name@ && forall|j: int|
                                    0 <= j < k ==> #[trigger] self.members@[j].name@ != self.node_name@;
                            if i < k {
                                assert(self.members@[i].name@ != self.node_name@);
                            } else if k < i {
                                assert(self.members@[k].name@ != self.node_name@);
                            }
                        }
                    }
                    "Replica"
                }
            },
            None => "Replica",
        }
    }

    /// Whether replication is healthy: every member that reports a lag lags
    /// by at most `max_lag_us` microseconds.
    pub fn replication_ok(&self, max_lag_us: u64) -> (ok: bool)
        ensures
            ok == lags_within(node_views(self.members@), max_lag_us),
    {
        let ghost ms = node_views(self.members@);
        let mut i: usize = 0;
        while i < self.members.len()
            invariant
                ms == node_views(self.members@),
                i <= ms.len(),
                forall|j: int| 0 <= j < i ==> (#[trigger] ms[j].lag matches Some(l) ==> l <= max_lag_us),
            decreases ms.len() - i,
        {
            assert(ms[i as int] == self.members@[i as int]@);
            match self.members[i].lag {
                Some(l) => {
                    if l > max_lag_us {
                        assert(!(ms[i as int].lag matches Some(l) ==> l <= max_lag_us));
                        return false;
                    }
                },
                None => {},
            }
            i = i + 1;
        }
        true
    }
}

/// `o`'s text, or `-` where there is none.
pub open spec fn or_dash(o: Option<Seq<char>>) -> Seq<char> {
    match o {
        Some(s) => s,
        None => "-"@,
    }
}

fn text_or_dash(o: Option<String>) -> (r: String)
    ensures
        r@ == or_dash(opt_text(o)),
{
    match o {
        Some(s) => s,
        None => String::from_str("-"),
    }
}

/// The string at the JSON pointer `pointer` in the JSON document `body`, if
/// `body` parses as JSON, the pointer reaches a value, and that value is a
/// string: a function of the two texts alone.
pub uninterp spec fn json_text_at(body: Seq<char>, pointer: Seq<char>) -> Option<Seq<char>>;

/// Parses `body` with `serde_json::from_str` into a `serde_json::Value`,
/// looks up `pointer` with `Value::pointer` and takes the string there with
/// `Value::as_str`. The contract names that lookup `json_text_at` and says
/// nothing more of it.
#[verifier::external_body]
fn json_str_at(body: &str, pointer: &str) -> (r: Option<String>)
    ensures
        opt_text(r) == json_text_at(body@, pointer@),
{
    let value: serde_json::Value = serde_json::from_str(body).ok()?;
    value.pointer(pointer)?.as_str().map(|s| s.to_string())
}

/// What a Patroni status document `body` tells: each field is the string
/// found at its place, or `-`.
pub open spec fn patroni_data_of(body: Seq<char>) -> PatroniDataView {
    PatroniDataView {
        role: or_dash(json_text_at(body, "/role"@)),
        leader: or_dash(json_text_at(body, "/leader"@)),
        state: or_dash(json_text_at(body, "/state"@)),
        scope: or_dash(json_text_at(body, "/patroni/scope"@)),
        node_name: or_dash(json_text_at(body, "/patroni/name"@)),
    }
}

/// The status data where Patroni could not be asked: every field `-`.
pub open spec fn unknown_patroni_data() -> PatroniDataView {
    PatroniDataView { role: "-"@, leader: "-"@, state: "-"@, scope: "-"@, node_name: "-"@ }
}

impl PatroniData {
    /// Status data from the fields found in a status document; a field that
    /// was not found becomes `-`.
    pub fn from_fields(
        role: Option<String>,
        leader: Option<String>,
        state: Option<String>,
        scope: Option<String>,
        node_name: Option<String>,
    ) -> (d: PatroniData)
        ensures
            d@ == (PatroniDataView {
                role: or_dash(opt_text(role)),
                leader: or_dash(opt_text(leader)),
                state: or_dash(opt_text(state)),
                scope: or_dash(opt_text(scope)),
                node_name: or_dash(opt_text(node_name)),
            }),
    {
        PatroniData {
            role: text_or_dash(role),
            leader: text_or_dash(leader),
            state: text_or_dash(state),
            scope: text_or_dash(scope),
            node_name: text_or_dash(node_name),
        }
    }
}

impl Patroni {
    /// A client of the API at `addr`.
    pub fn new(addr: String) -> (p: Patroni)
        ensures
            p.addr@ == addr@,
    {
        Patroni { addr }
    }

    /// `http://` followed by the address.
    pub fn base_url(&self) -> (r: String)
        ensures
            r@ == "http://"@ + self.addr@,
    {
        String::from_str("http://").concat(self.addr.as_str())
    }

    /// The URL of the `/cluster` endpoint.
    pub fn cluster_url(&self) -> (r: String)
        ensures
            r@ == "http://"@ + self.addr@ + "/cluster"@,
    {
        self.base_url().concat("/cluster")
    }

    /// The cluster built from the nodes that `/cluster` listed and the
    /// status data of this node: its members are the nodes keyed by name, a
    /// later node replacing an earlier one of the same name.
    pub fn get_cluster_info(&self, nodes: Vec<NodeStatus>, info: PatroniData) -> (c: ClusterInfo)
        ensures
            c.scope@ == info.scope@,
            c.node_name@ == info.node_name@,
            node_views(c.members@) == inserted_members(node_views(nodes@)),
            distinct_names(node_views(c.members@)),
            member_map(node_views(c.members@)) == member_map(node_views(nodes@)),
    {
        let mut members: Vec<NodeStatus> = Vec::new();
        let mut i: usize = 0;
        assert(node_views(members@) =~= Seq::<NodeStatusView>::empty());
        assert(node_views(nodes@).take(0) =~= Seq::<NodeStatusView>::empty());
        while i < nodes.len()
            invariant
                i <= nodes@.len(),
                distinct_names(node_views(members@)),
                node_views(members@) == inserted_members(node_views(nodes@).take(i as int)),
                member_map(node_views(members@)) == member_map(node_views(nodes@).take(i as int)),
            decreases nodes@.len() - i,
        {
            let node = copy_node(&nodes[i]);
            insert_member(&mut members, node);
            assert(node_views(nodes@).take(i + 1).drop_last() =~= node_views(nodes@).take(i as int));
            assert(node_views(nodes@).take(i + 1).last() == nodes@[i as int]@);
            i = i + 1;
        }
        assert(node_views(nodes@).take(nodes@.len() as int) =~= node_views(nodes@));
        ClusterInfo { scope: info.scope, node_name: info.node_name, members }
    }

    /// The nodes that `/cluster` listed, or none where it could not be read.
    pub fn get_cluster_nodes(&self, listed: Option<Vec<NodeStatus>>) -> (r: Vec<NodeStatus>)
        ensures
            r@ == match listed {
                Some(v) => v@,
                None => Seq::<NodeStatus>::empty(),
            },
    {
        match listed {
            Some(v) => v,
            None => Vec::new(),
        }
    }

    /// The status data of the root endpoint's document `body`: each field is
    /// the string at its place in the JSON, or `-`.
    pub fn parse_patroni_json(&self, body: &str) -> (d: PatroniData)
        ensures
            d@ == patroni_data_of(body@),
    {
        PatroniData::from_fields(
            json_str_at(body, "/role"),
            json_str_at(body, "/leader"),
            json_str_at(body, "/state"),
            json_str_at(body, "/patroni/scope"),
            json_str_at(body, "/patroni/name"),
        )
    }

    /// The status data of this node from the root endpoint's reply body
    /// (`None` where no reply with a body came): the parsed document, or
    /// every field `-`.
    pub fn get_patroni_info(&self, body: Option<String>) -> (d: PatroniData)
        ensures
            d@ == match body {
                Some(b) => patroni_data_of(b@),
                None => unknown_patroni_data(),
            },
    {
        match body {
            Some(b) => self.parse_patroni_json(b.as_str()),
            None => PatroniData::from_fields(None, None, None, None, None),
        }
    }
}

} // verus!
