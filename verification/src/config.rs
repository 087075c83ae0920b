use vstd::prelude::*;
use vstd::string::*;
use crate::text::{split_on, split_str, trim, trim_str, views, lemma_split_on_nonempty, law_trim_idempotent};

verus! {

/// The settings of a monitoring session: where Patroni answers, which DNS
/// server to route towards for IP detection, the HAProxy socket, the largest
/// tolerated replication lag and the services to watch.
#[derive(Clone, Debug)]
pub struct Config {
    /// Patroni API address (`host:port`).
    pub patroni_addr: String,
    /// DNS server used for local IP detection.
    pub dns_server: String,
    /// Path of the HAProxy admin socket.
    pub haproxy_socket: String,
    /// Largest tolerated replication lag, in seconds.
    pub max_replication_lag_secs: u64,
    /// Services to monitor, separated by commas.
    pub services: String,
}

/// The abstract value of a `Config`.
pub struct ConfigView {
    pub patroni_addr: Seq<char>,
    pub dns_server: Seq<char>,
    pub haproxy_socket: Seq<char>,
    pub max_replication_lag_secs: u64,
    pub services: Seq<char>,
}

impl View for Config {
    type V = ConfigView;

    open spec fn view(&self) -> ConfigView {
        ConfigView {
            patroni_addr: self.patroni_addr@,
            dns_server: self.dns_server@,
            haproxy_socket: self.haproxy_socket@,
            max_replication_lag_secs: self.max_replication_lag_secs,
            services: self.services@,
        }
    }
}

/// The entries of a comma-separated service list, each trimmed.
pub open spec fn service_names(services: Seq<char>) -> Seq<Seq<char>> {
    split_on(services, ',').map_values(|p: Seq<char>| trim(p))
}

/// How many services a configuration lists.
pub open spec fn services_count(cfg: ConfigView) -> nat {
    service_names(cfg.services).len()
}

/// A service list names at least one service (an empty text names one
/// empty entry).
pub proof fn lemma_services_count_positive(cfg: ConfigView)
    ensures
        services_count(cfg) >= 1,
{
    lemma_split_on_nonempty(cfg.services, ',');
}

/// Each listed service name is already trimmed: no white space at either
/// end.
pub proof fn law_service_names_trimmed(services: Seq<char>)
    ensures
        forall|i: int|
            0 <= i < service_names(services).len() ==> trim(#[trigger] service_names(services)[i])
                == service_names(services)[i],
{
    assert forall|i: int| 0 <= i < service_names(services).len() implies trim(
        #[trigger] service_names(services)[i],
    ) == service_names(services)[i] by {
        law_trim_idempotent(split_on(services, ',')[i]);
    }
}

impl Config {
    /// A configuration holding the given settings, as the command line gave
    /// them.
    pub fn new(
        patroni_addr: String,
        dns_server: String,
        haproxy_socket: String,
        max_replication_lag_secs: u64,
        services: String,
    ) -> (c: Config)
        ensures
            c@ == (ConfigView {
                patroni_addr: patroni_addr@,
                dns_server: dns_server@,
                haproxy_socket: haproxy_socket@,
                max_replication_lag_secs,
                services: services@,
            }),
    {
        Config { patroni_addr, dns_server, haproxy_socket, max_replication_lag_secs, services }
    }

    /// The maximum replication lag in microseconds.
    pub fn max_replication_lag_us(&self) -> (us: u64)
        requires
            self.max_replication_lag_secs * 1_000_000 <= u64::MAX,
        ensures
            us == self.max_replication_lag_secs * 1_000_000,
    {
        self.max_replication_lag_secs * 1_000_000
    }

    /// The service shown at place `selected` of the service list, or
    /// `unknown` where the list has no such place.
    pub fn selected_service(&self, selected: usize) -> (r: String)
        ensures
            r@ == if selected < service_names(self.services@).len() {
                service_names(self.services@)[selected as int]
            } else {
                "unknown"@
            },
    {
        let services = self.services_list();
        if selected < services.len() {
            assert(views(services@)[selected as int] == services@[selected as int]@);
            services[selected].clone()
        } else {
            String::from_str("unknown")
        }
    }

    /// The services to monitor: the comma-separated entries, each trimmed.
    pub fn services_list(&self) -> (r: Vec<String>)
        ensures
            views(r@) == service_names(self.services@),
            r@.len() == services_count(self@),
            r@.len() >= 1,
    {
        let pieces = split_str(self.services.as_str(), ',');
        let ghost pv = views(pieces@);
        proof {
            lemma_split_on_nonempty(self.services@, ',');
        }
        let mut out: Vec<String> = Vec::new();
        let mut i: usize = 0;
        while i < pieces.len()
            invariant
                pv == views(pieces@),
                pv == split_on(self.services@, ','),
                i <= pieces@.len(),
                views(out@) =~= pv.take(i as int).map_values(|p: Seq<char>| trim(p)),
            decreases pieces@.len() - i,
        {
            let t = trim_str(pieces[i].as_str());
            assert(pv[i as int] == pieces@[i as int]@);
            let ghost ov = views(out@);
            out.push(t);
            assert(views(out@) =~= ov.push(trim(pv[i as int])));
            assert(pv.take(i + 1) =~= pv.take(i as int).push(pv[i as int]));
            assert(pv.take(i + 1).map_values(|p: Seq<char>| trim(p)) =~= pv.take(
                i as int,
            ).map_values(|p: Seq<char>| trim(p)).push(trim(pv[i as int])));
            i = i + 1;
        }
        assert(pv.take(pieces@.len() as int) =~= pv);
        out
    }
}

} // verus!
