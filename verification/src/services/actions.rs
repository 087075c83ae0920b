use vstd::prelude::*;
use vstd::string::*;
use crate::text::{opt_text, substring};
use crate::patroni::patroni::{ClusterInfo, NodeStatus, NodeStatusView, Patroni, PatroniData, distinct_names, inserted_members, member_map, node_views};

verus! {

/// An administrative action on the cluster.
#[derive(Clone, Copy, Debug, PartialEq, Eq, Structural)]
pub enum Action {
    Switchover,
    Restart,
    Reinitialize,
    PauseCluster,
    ResumeCluster,
}

/// The actions in the order the actions list shows them.
pub open spec fn all_actions() -> Seq<Action> {
    seq![
        Action::Switchover,
        Action::Restart,
        Action::Reinitialize,
        Action::PauseCluster,
        Action::ResumeCluster,
    ]
}

/// The title of an action.
pub open spec fn action_title(a: Action) -> Seq<char> {
    match a {
        Action::Switchover => "Switchover"@,
        Action::Restart => "Restart Node"@,
        Action::Reinitialize => "Reinitialize Node"@,
        Action::PauseCluster => "Pause Cluster"@,
        Action::ResumeCluster => "Resume Cluster"@,
    }
}

/// Whether an action needs a confirmation: every action but resuming.
pub open spec fn destructive(a: Action) -> bool {
    a != Action::ResumeCluster
}

/// Whether an action is aimed at one node.
pub open spec fn targets_node(a: Action) -> bool {
    a == Action::Switchover || a == Action::Restart || a == Action::Reinitialize
}

/// The actions list holds five distinct actions with distinct titles, and
/// every one of them but resuming the cluster asks for a confirmation.
pub proof fn law_action_catalog()
    ensures
        all_actions().len() == 5,
        forall|i: int, j: int|
            0 <= i < j < 5 ==> #[trigger] all_actions()[i] != #[trigger] all_actions()[j],
        forall|i: int, j: int|
            0 <= i < j < 5 ==> action_title(#[trigger] all_actions()[i]) != action_title(
                #[trigger] all_actions()[j],
            ),
        forall|i: int|
            0 <= i < 5 ==> (destructive(#[trigger] all_actions()[i]) <==> all_actions()[i]
                != Action::ResumeCluster),
{
    reveal_strlit("Switchover");
    reveal_strlit("Restart Node");
    reveal_strlit("Reinitialize Node");
    reveal_strlit("Pause Cluster");
    reveal_strlit("Resume Cluster");
    assert forall|i: int, j: int| 0 <= i < j < 5 implies action_title(
        #[trigger] all_actions()[i],
    ) != action_title(#[trigger] all_actions()[j]) by {
        assert(action_title(all_actions()[i]).len() != action_title(all_actions()[j]).len());
    }
}

impl Action {
    /// The title of the action.
    pub fn as_str(&self) -> (s: &'static str)
        ensures
            s@ == action_title(*self),
    {
        match self {
            Action::Switchover => "Switchover",
            Action::Restart => "Restart Node",
            Action::Reinitialize => "Reinitialize Node",
            Action::PauseCluster => "Pause Cluster",
            Action::ResumeCluster => "Resume Cluster",
        }
    }

    /// A sentence that says what the action does.
    pub fn description(&self) -> (s: &'static str)
        ensures
            s@ == match *self {
                Action::Switchover => "Change the leader node in the cluster"@,
                Action::Restart => "Restart a specific node in the cluster"@,
                Action::Reinitialize => "Reinitialize a specific node in the cluster"@,
                Action::PauseCluster => "Pause automatic failover in the cluster"@,
                Action::ResumeCluster => "Resume automatic failover in the cluster"@,
            },
    {
        match self {
            Action::Switchover => "Change the leader node in the cluster",
            Action::Restart => "Restart a specific node in the cluster",
            Action::Reinitialize => "Reinitialize a specific node in the cluster",
            Action::PauseCluster => "Pause automatic failover in the cluster",
            Action::ResumeCluster => "Resume automatic failover in the cluster",
        }
    }

    /// Whether the action asks for a confirmation before it runs.
    pub fn is_destructive(&self) -> (b: bool)
        ensures
            b == destructive(*self),
    {
        match self {
            Action::Switchover => true,
            Action::Restart => true,
            Action::Reinitialize => true,
            Action::PauseCluster => true,
            Action::ResumeCluster => false,
        }
    }

    /// Every action, in the order the actions list shows them.
    pub fn all() -> (v: Vec<Action>)
        ensures
            v@ == all_actions(),
    {
        let v = vec![
            Action::Switchover,
            Action::Restart,
            Action::Reinitialize,
            Action::PauseCluster,
            Action::ResumeCluster,
        ];
        assert(v@ =~= all_actions());
        v
    }
}

/// The HTTP method of a request to Patroni.
#[derive(Clone, Copy, Debug, PartialEq, Eq, Structural)]
pub enum HttpMethod {
    Post,
    Patch,
}

/// A request to Patroni's REST API: method, URL and JSON body, and the text
/// that the error message starts with when the request fails.
#[derive(Clone, Debug)]
pub struct PatroniRequest {
    pub method: HttpMethod,
    pub url: String,
    pub body: String,
    pub failure: String,
}

impl PatroniRequest {
    /// What the request came to: success where no error came back, else
    /// the failure text followed by the error's text.
    pub fn outcome(&self, error: Option<String>) -> (r: Result<(), String>)
        ensures
            match error {
                None => r is Ok,
                Some(e) => r matches Err(m) && m@ == self.failure@ + e@,
            },
    {
        match error {
            None => Ok(()),
            Some(e) => Err(self.failure.clone().concat(e.as_str())),
        }
    }
}

/// The base of a member's own REST API: its `api_url` (which Patroni gives
/// as `http://host:port/patroni`) without a trailing `/patroni`.
pub open spec fn api_base(api_url: Seq<char>) -> Seq<char> {
    if api_url.len() >= 8 && api_url.subrange(api_url.len() - 8, api_url.len() as int)
        == "/patroni"@ {
        api_url.subrange(0, api_url.len() - 8)
    } else {
        api_url
    }
}

/// The API base of the first member named `node`, where that member reports
/// an API address.
pub open spec fn member_api(ms: Seq<NodeStatusView>, node: Seq<char>) -> Option<Seq<char>>
    decreases ms.len(),
{
    if ms.len() == 0 {
        None
    } else if ms[0].name == node {
        match ms[0].api_url {
            Some(u) => Some(api_base(u)),
            None => None,
        }
    } else {
        member_api(ms.drop_first(), node)
    }
}

fn api_base_exec(api_url: &String) -> (r: String)
    ensures
        r@ == api_base(api_url@),
{
    let s = api_url.as_str();
    let n = s.unicode_len();
    if n >= 8 && substring(s, n - 8, n) == String::from_str("/patroni") {
        substring(s, 0, n - 8)
    } else {
        api_url.clone()
    }
}

fn node_api(members: &Vec<NodeStatus>, node: &str) -> (r: Option<String>)
    ensures
        opt_text(r) == member_api(node_views(members@), node@),
{
    let ghost mv = node_views(members@);
    let wanted = String::from_str(node);
    let mut i: usize = 0;
    assert(mv.skip(0) =~= mv);
    while i < members.len()
        invariant
            mv == node_views(members@),
            wanted@ == node@,
            i <= mv.len(),
            member_api(mv, node@) == member_api(mv.skip(i as int), node@),
        decreases mv.len() - i,
    {
        assert(mv.skip(i as int).drop_first() =~= mv.skip(i + 1));
        assert(mv.skip(i as int)[0] == members@[i as int]@);
        if members[i].name == wanted {
            return match &members[i].api_url {
                Some(u) => Some(api_base_exec(u)),
                None => None,
            };
        }
        i = i + 1;
    }
    None
}

/// Runs the administrative actions through one Patroni API.
pub struct ActionsService {
    pub patroni_client: Patroni,
}

impl ActionsService {
    /// A service that talks to `patroni_client`'s API.
    pub fn new(patroni_client: Patroni) -> (s: ActionsService)
        ensures
            s.patroni_client.addr@ == patroni_client.addr@,
    {
        ActionsService { patroni_client }
    }

    /// The cluster as the API reports it: what `Patroni::get_cluster_info`
    /// gives, members in the same order.
    pub fn get_cluster_info(&self, nodes: Vec<NodeStatus>, info: PatroniData) -> (c: ClusterInfo)
        ensures
            c.scope@ == info.scope@,
            c.node_name@ == info.node_name@,
            node_views(c.members@) == inserted_members(node_views(nodes@)),
            distinct_names(node_views(c.members@)),
            member_map(node_views(c.members@)) == member_map(node_views(nodes@)),
    {
        self.patroni_client.get_cluster_info(nodes, info)
    }

    /// The request that moves leadership from `leader` to `candidate`.
    pub fn switchover(&self, leader: &str, candidate: &str) -> (r: PatroniRequest)
        ensures
            r.method == HttpMethod::Post,
            r.url@ == "http://"@ + self.patroni_client.addr@ + "/switchover"@,
            r.body@ == "{\"leader\": \""@ + leader@ + "\", \"candidate\": \""@ + candidate@
                + "\"}"@,
            r.failure@ == "Failed to perform switchover: "@,
    {
        let url = self.patroni_client.base_url().concat("/switchover");
        let body = String::from_str("{\"leader\": \"").concat(leader).concat(
            "\", \"candidate\": \"",
        ).concat(candidate).concat("\"}");
        PatroniRequest {
            method: HttpMethod::Post,
            url,
            body,
            failure: String::from_str("Failed to perform switchover: "),
        }
    }

    /// The request that restarts PostgreSQL on the member named `node`:
    /// sent to that member's own API (see `member_api`). Where no member of
    /// that name reports an API address, the error says so.
    pub fn restart_node(&self, members: &Vec<NodeStatus>, node: &str) -> (r: Result<
        PatroniRequest,
        String,
    >)
        ensures
            match member_api(node_views(members@), node@) {
                Some(base) => r matches Ok(q) && q.method == HttpMethod::Post && q.url@ == base
                    + "/restart"@ && q.body@ == "{\"restart\": true}"@ && q.failure@
                    == "Failed to restart node "@ + node@ + ": "@,
                None => r matches Err(e) && e@ == "Failed to restart node "@ + node@ + ": "@
                    + "no API address is known for this node"@,
            },
    {
        let failure = String::from_str("Failed to restart node ").concat(node).concat(": ");
        match node_api(members, node) {
            Some(base) => Ok(
                PatroniRequest {
                    method: HttpMethod::Post,
                    url: base.concat("/restart"),
                    body: String::from_str("{\"restart\": true}"),
                    failure,
                },
            ),
            None => Err(failure.concat("no API address is known for this node")),
        }
    }

    /// The request that reinitializes the member named `node`: sent to that
    /// member's own API (see `member_api`). Where no member of that name
    /// reports an API address, the error says so.
    pub fn reinitialize_node(&self, members: &Vec<NodeStatus>, node: &str) -> (r: Result<
        PatroniRequest,
        String,
    >)
        ensures
            match member_api(node_views(members@), node@) {
                Some(base) => r matches Ok(q) && q.method == HttpMethod::Post && q.url@ == base
                    + "/reinitialize"@ && q.body@ == "{\"reinitialize\": true}"@ && q.failure@
                    == "Failed to reinitialize node "@ + node@ + ": "@,
                None => r matches Err(e) && e@ == "Failed to reinitialize node "@ + node@ + ": "@
                    + "no API address is known for this node"@,
            },
    {
        let failure = String::from_str("Failed to reinitialize node ").concat(node).concat(": ");
        match node_api(members, node) {
            Some(base) => Ok(
                PatroniRequest {
                    method: HttpMethod::Post,
                    url: base.concat("/reinitialize"),
                    body: String::from_str("{\"reinitialize\": true}"),
                    failure,
                },
            ),
            None => Err(failure.concat("no API address is known for this node")),
        }
    }

    /// The request that pauses automatic failover.
    pub fn pause_cluster(&self) -> (r: PatroniRequest)
        ensures
            r.method == HttpMethod::Patch,
            r.url@ == "http://"@ + self.patroni_client.addr@ + "/pause"@,
            r.body@ == "{\"paused\": true}"@,
            r.failure@ == "Failed to pause cluster: "@,
    {
        PatroniRequest {
            method: HttpMethod::Patch,
            url: self.patroni_client.base_url().concat("/pause"),
            body: String::from_str("{\"paused\": true}"),
            failure: String::from_str("Failed to pause cluster: "),
        }
    }

    /// The request that resumes automatic failover.
    pub fn resume_cluster(&self) -> (r: PatroniRequest)
        ensures
            r.method == HttpMethod::Patch,
            r.url@ == "http://"@ + self.patroni_client.addr@ + "/pause"@,
            r.body@ == "{\"paused\": false}"@,
            r.failure@ == "Failed to resume cluster: "@,
    {
        PatroniRequest {
            method: HttpMethod::Patch,
            url: self.patroni_client.base_url().concat("/pause"),
            body: String::from_str("{\"paused\": false}"),
            failure: String::from_str("Failed to resume cluster: "),
        }
    }
}

} // verus!
