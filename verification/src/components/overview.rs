use vstd::prelude::*;
use crate::config::Config;
use crate::patroni::patroni::{
    ClusterInfo, NodeStatus, Patroni, PatroniData, distinct_names, inserted_members, member_map,
    node_views,
};
use crate::system::{
    IpInterface, backend_stats, backend_total, backend_up, detect_keepalived_vip as system_vip,
    detect_service_version, error_line_count, get_service_errors, get_service_uptime, iface_views,
    keepalived_vip, uptime_of, version_of,
};
use crate::text::{lowercase, opt_text, text_lines};

verus! {

/// The overview component: this host, the cluster and the monitored
/// services.
pub struct Overview {
    pub patroni_srv: Patroni,
    pub config: Config,
}

/// What the overview tab shows.
pub struct OverviewData {
    pub hostname: String,
    pub ip: String,
    pub cluster_data: ClusterInfo,
    pub components: Vec<ComponentStatus>,
}

/// The state of one monitored service.
#[derive(Clone, Debug)]
pub struct ComponentStatus {
    pub name: String,
    pub up: bool,
    pub errors: u32,
    pub uptime: String,
    pub version: String,
}

/// The abstract value of a `ComponentStatus`.
pub struct ComponentStatusView {
    pub name: Seq<char>,
    pub up: bool,
    pub errors: u32,
    pub uptime: Seq<char>,
    pub version: Seq<char>,
}

impl View for ComponentStatus {
    type V = ComponentStatusView;

    open spec fn view(&self) -> ComponentStatusView {
        ComponentStatusView {
            name: self.name@,
            up: self.up,
            errors: self.errors,
            uptime: self.uptime@,
            version: self.version@,
        }
    }
}

impl ComponentStatus {
    /// The status text the overview shows: `UP` for an active service,
    /// `DOWN` otherwise.
    pub fn status_text(&self) -> (s: &'static str)
        ensures
            s@ == if self.up {
                "UP"@
            } else {
                "DOWN"@
            },
    {
        if self.up {
            "UP"
        } else {
            "DOWN"
        }
    }
}

/// What the system reported of one service: whether `systemctl is-active`
/// succeeded, and what `journalctl`, `systemctl show` and the service's
/// `-v` and `--version` runs printed (`None` where a command could not be
/// run or, for the version runs, did not succeed).
#[derive(Clone, Debug)]
pub struct ServiceProbe {
    pub name: String,
    pub active: bool,
    pub journal: Option<String>,
    pub uptime_output: Option<String>,
    pub version_short: Option<String>,
    pub version_long: Option<String>,
}

/// The state of a service from what the system reported of it.
pub open spec fn component_of(p: ServiceProbe) -> ComponentStatusView {
    ComponentStatusView {
        name: p.name@,
        up: p.active,
        errors: match p.journal {
            Some(o) => error_line_count(text_lines(lowercase(o@))) as u32,
            None => 0,
        },
        uptime: uptime_of(opt_text(p.uptime_output)),
        version: version_of(opt_text(p.version_short), opt_text(p.version_long)),
    }
}

fn opt_str(o: &Option<String>) -> (r: Option<&str>)
    ensures
        match r {
            Some(s) => o matches Some(t) && s@ == t@,
            None => o is None,
        },
{
    match o {
        Some(s) => Some(s.as_str()),
        None => None,
    }
}

impl Overview {
    /// An overview of the cluster behind `patroni_srv`, of the services
    /// that `config` lists.
    pub fn new(patroni_srv: Patroni, config: Config) -> (o: Overview)
        ensures
            o.patroni_srv.addr@ == patroni_srv.addr@,
            o.config@ == config@,
    {
        Overview { patroni_srv, config }
    }

    /// The state of one service from what the system reported of it.
    pub fn component_status(&self, probe: &ServiceProbe) -> (c: ComponentStatus)
        ensures
            c@ == component_of(*probe),
    {
        let errors = get_service_errors(opt_str(&probe.journal));
        let uptime = get_service_uptime(opt_str(&probe.uptime_output));
        let version = Self::detect_version(
            opt_str(&probe.version_short),
            opt_str(&probe.version_long),
        );
        ComponentStatus { name: probe.name.clone(), up: probe.active, errors, uptime, version }
    }

    /// The states of the services, in the order of their reports.
    pub fn collect_component_statuses(&self, probes: &Vec<ServiceProbe>) -> (r: Vec<
        ComponentStatus,
    >)
        ensures
            r@.len() == probes@.len(),
            forall|i: int| 0 <= i < probes@.len() ==> #[trigger] r@[i]@ == component_of(probes@[i]),
    {
        let mut out: Vec<ComponentStatus> = Vec::new();
        let mut i: usize = 0;
        while i < probes.len()
            invariant
                i <= probes@.len(),
                out@.len() == i,
                forall|j: int| 0 <= j < i ==> #[trigger] out@[j]@ == component_of(probes@[j]),
            decreases probes@.len() - i,
        {
            let c = self.component_status(&probes[i]);
            out.push(c);
            i = i + 1;
        }
        out
    }

    /// The overview: this host's name and address as given, the cluster
    /// (see `Patroni::get_cluster_info`) and the states of the services.
    pub fn get_overview(
        &self,
        hostname: String,
        ip: String,
        nodes: Vec<NodeStatus>,
        info: PatroniData,
        probes: Vec<ServiceProbe>,
    ) -> (d: OverviewData)
        ensures
            d.hostname@ == hostname@,
            d.ip@ == ip@,
            d.cluster_data.scope@ == info.scope@,
            d.cluster_data.node_name@ == info.node_name@,
            node_views(d.cluster_data.members@) == inserted_members(node_views(nodes@)),
            distinct_names(node_views(d.cluster_data.members@)),
            member_map(node_views(d.cluster_data.members@)) == member_map(node_views(nodes@)),
            d.components@.len() == probes@.len(),
            forall|i: int|
                0 <= i < probes@.len() ==> #[trigger] d.components@[i]@ == component_of(probes@[i]),
    {
        let cluster_data = self.patroni_srv.get_cluster_info(nodes, info);
        let components = self.collect_component_statuses(&probes);
        OverviewData { hostname, ip, cluster_data, components }
    }

    /// The version of a service from its `-v` and `--version` runs.
    fn detect_version(short: Option<&str>, long: Option<&str>) -> (r: String)
        ensures
            r@ == version_of(
                match short {
                    Some(s) => Some(s@),
                    None => None,
                },
                match long {
                    Some(l) => Some(l@),
                    None => None,
                },
            ),
    {
        detect_service_version(short, long)
    }

    /// HAProxy's backend counts (up, total) from its `show stat` reply
    /// (`None` where the socket could not be queried, which gives `(0, 0)`).
    pub fn fetch_haproxy_backend_stats(&self, reply: Option<&str>) -> (r: (u32, u32))
        requires
            reply matches Some(b) ==> backend_total(text_lines(b@)) <= u32::MAX,
        ensures
            r == match reply {
                Some(b) => (
                    backend_up(text_lines(b@)) as u32,
                    backend_total(text_lines(b@)) as u32,
                ),
                None => (0u32, 0u32),
            },
            r.0 <= r.1,
    {
        match reply {
            Some(b) => backend_stats(b),
            None => (0, 0),
        }
    }

    /// The keepalived virtual address (see `system::detect_keepalived_vip`).
    pub fn detect_keepalived_vip(ifaces: Option<Vec<IpInterface>>, text: Option<String>) -> (r:
        String)
        ensures
            r@ == keepalived_vip(
                match ifaces {
                    Some(v) => Some(iface_views(v@)),
                    None => None,
                },
                opt_text(text),
            ),
    {
        system_vip(ifaces, text)
    }
}

} // verus!
