use vstd::prelude::*;
use crate::patroni::patroni::{
    ClusterInfo, NodeStatus, Patroni, PatroniData, distinct_names, member_map, node_views,
    sorted_by_name,
};

verus! {

/// Reads the cluster for the cluster tab.
pub struct ClusterService {
    pub patroni_client: Patroni,
}

impl ClusterService {
    /// A service that talks to `patroni_client`'s API.
    pub fn new(patroni_client: Patroni) -> (s: ClusterService)
        ensures
            s.patroni_client.addr@ == patroni_client.addr@,
    {
        ClusterService { patroni_client }
    }

    /// Information about the cluster: as `Patroni::get_cluster_info` builds
    /// it, with the members in order of name.
    pub fn get_cluster_info(&self, nodes: Vec<NodeStatus>, info: PatroniData) -> (c: ClusterInfo)
        ensures
            c.scope@ == info.scope@,
            c.node_name@ == info.node_name@,
            distinct_names(node_views(c.members@)),
            member_map(node_views(c.members@)) == member_map(node_views(nodes@)),
            sorted_by_name(node_views(c.members@)),
    {
        let info = self.patroni_client.get_cluster_info(nodes, info);
        info.sorted_by_name()
    }
}

} // verus!
