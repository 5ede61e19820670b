//! Settings for the DNS discovery service.

use vstd::prelude::*;

verus! {

/// Settings for the DNS discovery service. Durations are held as whole
/// seconds; the two limits must not be zero.
#[derive(Clone, Debug)]
pub struct DnsDiscoveryConfig {
    /// Timeout for DNS lookups, in seconds.
    ///
    /// Default: 5s
    pub lookup_timeout: u64,
    /// The DNS request rate limit, per second.
    ///
    /// Default: 3
    pub max_requests_per_sec: usize,
    /// The rate at which trees should be updated, in seconds.
    ///
    /// Default: 30min
    pub recheck_interval: u64,
    /// Maximum number of cached DNS records.
    pub dns_record_cache_limit: usize,
    /// Links to the DNS networks to bootstrap, by domain name.
    pub bootstrap_dns_networks: Option<Vec<String>>,
}

impl DnsDiscoveryConfig {
    /// The two limits are rates and capacities: never zero.
    pub open spec fn wf(self) -> bool {
        self.max_requests_per_sec > 0 && self.dns_record_cache_limit > 0
    }
}

impl Default for DnsDiscoveryConfig {
    /// Five-second lookups, three requests per second, rechecks every half
    /// hour, a thousand cached records, and an empty bootstrap set.
    fn default() -> (r: DnsDiscoveryConfig)
        ensures
            r.wf(),
            r.lookup_timeout == 5,
            r.max_requests_per_sec == 3,
            r.recheck_interval == 60 * 30,
            r.dns_record_cache_limit == 1000,
            r.bootstrap_dns_networks matches Some(v) && v@.len() == 0,
    {
        DnsDiscoveryConfig {
            lookup_timeout: 5,
            max_requests_per_sec: 3,
            recheck_interval: 60 * 30,
            dns_record_cache_limit: 1000,
            bootstrap_dns_networks: Some(Vec::new()),
        }
    }
}

} // verus!
