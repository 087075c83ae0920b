use vstd::prelude::*;
use crate::patroni::patroni::{
    ClusterInfo, NodeStatus, Patroni, PatroniData, distinct_names, member_map, node_views,
    sorted_by_name,
};

verus! {

/// The cluster component: reads the cluster for display.
pub struct Cluster {
    pub patroni_srv: Patroni,
}

impl Cluster {
    /// A service that talks to `patroni_srv`'s API.
    pub fn new(patroni_srv: Patroni) -> (s: Cluster)
        ensures
            s.patroni_srv.addr@ == patroni_srv.addr@,
    {
        Cluster { patroni_srv }
    }

    /// Information about the cluster: as `Patroni::get_cluster_info` builds
    /// it, with the members in order of name.
    pub fn get_cluster_info(&self, nodes: Vec<NodeStatus>, info: PatroniData) -> (c: ClusterInfo)
        ensures
            c.scope@ == info.scope@,
            c.node_name@ == info.node_name@,
            distinct_names(node_views(c.members@)),
            member_map(node_views(c.members@)) == member_map(node_views(nodes@)),
            sorted_by_name(node_views(c.members@)),
    {
        let info = self.patroni_srv.get_cluster_info(nodes, info);
        info.sorted_by_name()
    }
}

} // verus!
