//! Counters and statistics of the version history.

use crate::ratio::Ratio;
use vstd::prelude::*;

verus! {

/// Deltas per anchor where there is no history to count, for anchors ten versions apart.
pub const DEFAULT_AVG_DELTA_CHAIN: u64 = 5;

/// How reads of reconstructed properties were served.
#[derive(Clone, Copy, Debug, PartialEq, Eq, Structural)]
pub struct CacheMetrics {
    /// Lookups that the primary property cache served.
    pub primary_cache_hits: u64,
    /// Lookups that the anchor cache served.
    pub anchor_cache_hits: u64,
    /// Lookups that walked the delta chain.
    pub full_reconstructions: u64,
}

/// In which way a lookup is served.
#[derive(Clone, Copy, Debug, PartialEq, Eq, Structural)]
pub enum Service {
    /// By the primary property cache.
    Primary,
    /// By the anchor cache.
    Anchor,
    /// By walking the delta chain.
    Walk,
}

impl CacheMetrics {
    /// The counters after one more lookup.
    pub open spec fn served(self, service: Service) -> CacheMetrics {
        match service {
            Service::Primary => CacheMetrics {
                primary_cache_hits: self.primary_cache_hits.wrapping_add(1),
                ..self
            },
            Service::Anchor => CacheMetrics {
                anchor_cache_hits: self.anchor_cache_hits.wrapping_add(1),
                ..self
            },
            Service::Walk => CacheMetrics {
                full_reconstructions: self.full_reconstructions.wrapping_add(1),
                ..self
            },
        }
    }

    /// The counters after several lookups.
    pub open spec fn served_all(self, services: Seq<Service>) -> CacheMetrics
        decreases services.len(),
    {
        if services.len() == 0 {
            self
        } else {
            self.served_all(services.drop_last()).served(services.last())
        }
    }

    /// The counters after `n` lookups, each of them served in one way or another.
    pub open spec fn after_lookups(self, n: nat, after: CacheMetrics) -> bool {
        exists|services: Seq<Service>|
            services.len() == n && after == #[trigger] self.served_all(services)
    }

    /// No lookup counts nothing.
    pub proof fn lemma_no_lookup(self)
        ensures
            self.after_lookups(0, self),
    {
        assert(self.served_all(Seq::empty()) == self);
    }

    /// One more lookup counts one more.
    pub proof fn lemma_next_lookup(self, n: nat, mid: CacheMetrics, service: Service)
        requires
            self.after_lookups(n, mid),
        ensures
            self.after_lookups(n + 1, mid.served(service)),
    {
        let services = choose|services: Seq<Service>|
            services.len() == n && mid == #[trigger] self.served_all(services);
        assert(services.push(service).drop_last() =~= services);
        assert(self.served_all(services.push(service)) == mid.served(service));
    }

    /// All lookups.
    pub fn total_operations(&self) -> (r: u64)
        requires
            self.primary_cache_hits + self.anchor_cache_hits + self.full_reconstructions
                <= u64::MAX,
        ensures
            r == self.primary_cache_hits + self.anchor_cache_hits + self.full_reconstructions,
    {
        self.primary_cache_hits + self.anchor_cache_hits + self.full_reconstructions
    }

    /// The part of all lookups that is given, if there were any.
    pub open spec fn rate_of(self, part: int) -> Option<Ratio> {
        let total = self.primary_cache_hits + self.anchor_cache_hits + self.full_reconstructions;
        if total == 0 {
            None
        } else {
            Some(Ratio { part: part as i128, whole: total as u128 })
        }
    }

    /// The part of all lookups that is given, if there were any.
    fn rate(&self, part: u128) -> (r: Option<Ratio>)
        requires
            part <= i128::MAX,
        ensures
            r == self.rate_of(part as int),
    {
        let total: u128 = self.primary_cache_hits as u128 + self.anchor_cache_hits as u128
            + self.full_reconstructions as u128;
        if total == 0 {
            None
        } else {
            Some(Ratio { part: part as i128, whole: total })
        }
    }

    /// How often a cache served a lookup. None if there were no lookups yet.
    pub fn hit_rate(&self) -> (r: Option<Ratio>)
        ensures
            r == self.rate_of(self.primary_cache_hits + self.anchor_cache_hits),
    {
        self.rate(self.primary_cache_hits as u128 + self.anchor_cache_hits as u128)
    }

    /// How often the primary cache served a lookup. None if there were no lookups yet.
    pub fn primary_hit_rate(&self) -> (r: Option<Ratio>)
        ensures
            r == self.rate_of(self.primary_cache_hits as int),
    {
        self.rate(self.primary_cache_hits as u128)
    }

    /// How often the anchor cache served a lookup. None if there were no lookups yet.
    pub fn anchor_fallback_rate(&self) -> (r: Option<Ratio>)
        ensures
            r == self.rate_of(self.anchor_cache_hits as int),
    {
        self.rate(self.anchor_cache_hits as u128)
    }

    /// How often a lookup walked the delta chain. None if there were no lookups yet.
    pub fn reconstruction_rate(&self) -> (r: Option<Ratio>)
        ensures
            r == self.rate_of(self.full_reconstructions as int),
    {
        self.rate(self.full_reconstructions as u128)
    }
}

/// Every lookup is served in one of three ways: the rates of all three make one.
pub proof fn law_rates_make_one(metrics: CacheMetrics)
    requires
        metrics.primary_cache_hits + metrics.anchor_cache_hits + metrics.full_reconstructions > 0,
    ensures
        metrics.rate_of(metrics.primary_cache_hits as int)->0.part + metrics.rate_of(
            metrics.anchor_cache_hits as int,
        )->0.part + metrics.rate_of(metrics.full_reconstructions as int)->0.part
            == metrics.rate_of(metrics.full_reconstructions as int)->0.whole,
        metrics.rate_of(metrics.primary_cache_hits + metrics.anchor_cache_hits)->0.part
            + metrics.rate_of(metrics.full_reconstructions as int)->0.part == metrics.rate_of(
            metrics.full_reconstructions as int,
        )->0.whole,
{
}

/// How the pre-anchor hooks fared.
#[derive(Clone, Copy, Debug, PartialEq, Eq, Structural)]
pub struct HookMetricsSnapshot {
    /// Hooks that were called.
    pub invocations: u64,
    /// Hooks that returned normally.
    pub successes: u64,
    /// Hooks that returned an error.
    pub failures: u64,
    /// Hooks that panicked.
    pub panics: u64,
    /// Hooks that did not return in time.
    pub timeouts: u64,
}

/// The counters of a version history.
#[derive(Clone, Copy, Debug, PartialEq, Eq, Structural)]
pub struct Meters {
    /// How reads of properties were served.
    pub cache: CacheMetrics,
    /// How the pre-anchor hooks fared.
    pub hooks: HookMetricsSnapshot,
}

impl Meters {
    /// Nothing counted yet.
    pub open spec fn zero() -> Meters {
        Meters {
            cache: CacheMetrics {
                primary_cache_hits: 0,
                anchor_cache_hits: 0,
                full_reconstructions: 0,
            },
            hooks: HookMetricsSnapshot {
                invocations: 0,
                successes: 0,
                failures: 0,
                panics: 0,
                timeouts: 0,
            },
        }
    }

    /// Nothing counted yet.
    pub fn new() -> (r: Meters)
        ensures
            r == Meters::zero(),
    {
        Meters {
            cache: CacheMetrics {
                primary_cache_hits: 0,
                anchor_cache_hits: 0,
                full_reconstructions: 0,
            },
            hooks: HookMetricsSnapshot {
                invocations: 0,
                successes: 0,
                failures: 0,
                panics: 0,
                timeouts: 0,
            },
        }
    }
}

/// Statistics about the version history.
#[derive(Clone, Copy, Debug, PartialEq, Eq, Structural)]
pub struct HistoricalStats {
    /// Total number of node versions stored.
    pub total_node_versions: usize,
    /// Total number of edge versions stored.
    pub total_edge_versions: usize,
    /// Number of anchor node versions.
    pub node_anchor_count: usize,
    /// Number of delta node versions.
    pub node_delta_count: usize,
    /// Number of anchor edge versions.
    pub edge_anchor_count: usize,
    /// Number of delta edge versions.
    pub edge_delta_count: usize,
    /// Number of unique nodes with version history.
    pub unique_nodes: usize,
    /// Number of unique edges with version history.
    pub unique_edges: usize,
    /// Number of cached node property reconstructions.
    pub node_cache_entries: usize,
    /// Number of cached edge property reconstructions.
    pub edge_cache_entries: usize,
    /// Number of cached node anchor properties.
    pub node_anchor_cache_entries: usize,
    /// Number of cached edge anchor properties.
    pub edge_anchor_cache_entries: usize,
}

/// Memory that one cache entry is estimated to take.
pub const BYTES_PER_ENTRY: usize = 150;

impl HistoricalStats {
    /// The entries of all caches.
    pub open spec fn cache_entries(self) -> int {
        self.node_cache_entries + self.edge_cache_entries + self.node_anchor_cache_entries
            + self.edge_anchor_cache_entries
    }

    /// The part of all versions that are anchors. One if there are no versions.
    pub fn compression_ratio(&self) -> (r: Ratio)
        ensures
            r.well_formed(),
            self.total_node_versions + self.total_edge_versions == 0 ==> r == (Ratio {
                part: 1,
                whole: 1,
            }),
            self.total_node_versions + self.total_edge_versions > 0 ==> r.part
                == self.node_anchor_count + self.edge_anchor_count && r.whole
                == self.total_node_versions + self.total_edge_versions,
    {
        let total_versions: u128 = self.total_node_versions as u128
            + self.total_edge_versions as u128;
        if total_versions == 0 {
            return Ratio::whole_number(1);
        }
        let total_anchors: u128 = self.node_anchor_count as u128 + self.edge_anchor_count as u128;
        Ratio { part: total_anchors as i128, whole: total_versions }
    }

    /// Estimated memory that all caches take, in bytes.
    pub fn estimated_cache_memory_bytes(&self) -> (r: usize)
        requires
            self.cache_entries() * BYTES_PER_ENTRY <= usize::MAX,
        ensures
            r == self.cache_entries() * BYTES_PER_ENTRY,
    {
        let total_entries: usize = self.node_cache_entries + self.edge_cache_entries
            + self.node_anchor_cache_entries + self.edge_anchor_cache_entries;
        total_entries * BYTES_PER_ENTRY
    }
}

/// Every lookup is counted once: as many lookups as there were, so much more do the three counters
/// add up to, as long as none of them is full.
pub proof fn law_every_lookup_is_counted(before: CacheMetrics, services: Seq<Service>)
    requires
        before.primary_cache_hits + services.len() <= u64::MAX,
        before.anchor_cache_hits + services.len() <= u64::MAX,
        before.full_reconstructions + services.len() <= u64::MAX,
    ensures
        before.served_all(services).primary_cache_hits == before.primary_cache_hits + services.filter(
            |s: Service| s is Primary,
        ).len(),
        before.served_all(services).anchor_cache_hits == before.anchor_cache_hits + services.filter(
            |s: Service| s is Anchor,
        ).len(),
        before.served_all(services).full_reconstructions == before.full_reconstructions
            + services.filter(|s: Service| s is Walk).len(),
        services.filter(|s: Service| s is Primary).len() + services.filter(
            |s: Service| s is Anchor,
        ).len() + services.filter(|s: Service| s is Walk).len() == services.len(),
    decreases services.len(),
{
    reveal(Seq::filter);
    if services.len() > 0 {
        law_every_lookup_is_counted(before, services.drop_last());
    }
}

/// There is a rate exactly if there were lookups, and it is the given part of all of them.
pub proof fn law_rate_is_of_all_lookups(metrics: CacheMetrics, part: u64)
    ensures
        ({
            let total = metrics.primary_cache_hits + metrics.anchor_cache_hits
                + metrics.full_reconstructions;
            &&& metrics.rate_of(part as int) is None <==> total == 0
            &&& metrics.rate_of(part as int) matches Some(r) ==> r.part == part && r.whole == total
        }),
{
}

/// After so many lookups the three counters add up to so many more, as long as none of them is
/// full, and none of them has fallen.
pub proof fn law_lookups_add_up(before: CacheMetrics, n: nat, after: CacheMetrics)
    requires
        before.after_lookups(n, after),
        before.primary_cache_hits + n <= u64::MAX,
        before.anchor_cache_hits + n <= u64::MAX,
        before.full_reconstructions + n <= u64::MAX,
    ensures
        after.primary_cache_hits + after.anchor_cache_hits + after.full_reconstructions
            == before.primary_cache_hits + before.anchor_cache_hits + before.full_reconstructions + n,
        before.primary_cache_hits <= after.primary_cache_hits,
        before.anchor_cache_hits <= after.anchor_cache_hits,
        before.full_reconstructions <= after.full_reconstructions,
{
    let services = choose|services: Seq<Service>|
        services.len() == n && after == #[trigger] before.served_all(services);
    law_every_lookup_is_counted(before, services);
}

/// All entries of all four caches count, each once.
pub proof fn law_all_caches_count(stats: HistoricalStats)
    ensures
        stats.cache_entries() == stats.node_cache_entries + stats.edge_cache_entries
            + stats.node_anchor_cache_entries + stats.edge_anchor_cache_entries,
{
}

} // verus!
