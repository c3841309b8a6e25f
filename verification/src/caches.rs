//! The caches that stand beside the controller, as far as this library
//! settles them: how each one is configured.

use std::sync::Arc;
use vstd::prelude::*;

use crate::metrics::Nanos;

verus! {

/// How large a cache may grow and how long an entry stays good.
#[derive(Clone, Copy, Debug, PartialEq, Eq, Structural)]
pub struct CacheOptions {
    /// Largest number of entries.
    pub size: usize,
    /// How long an entry stays good.
    pub ttl: Nanos,
}

/// How the cache of projects and their endpoints is configured.
#[derive(Clone, Copy, Debug, PartialEq, Eq, Structural)]
pub struct ProjectInfoCacheOptions {
    /// Largest number of projects.
    pub size: usize,
    /// How long an entry stays good.
    pub ttl: Nanos,
    /// Largest number of roles kept for one endpoint.
    pub max_roles: usize,
    /// Time between two collections of stale entries.
    pub gc_interval: Nanos,
}

/// Cache of what waking a compute node returned.
#[derive(Debug)]
pub struct NodeInfoCache {
    options: CacheOptions,
}

impl NodeInfoCache {
    /// The options the cache was made with.
    pub closed spec fn view(&self) -> CacheOptions {
        self.options
    }

    /// A cache that keeps to `options`.
    pub fn new(options: CacheOptions) -> (cache: Self)
        ensures
            cache@ == options,
    {
        NodeInfoCache { options }
    }

    /// The options the cache was made with.
    pub fn options(&self) -> (options: CacheOptions)
        ensures
            options == self@,
    {
        self.options
    }
}

/// Cache that maps a project to its endpoints.
#[derive(Debug)]
pub struct ProjectInfoCache {
    options: ProjectInfoCacheOptions,
}

impl ProjectInfoCache {
    /// The options the cache was made with.
    pub closed spec fn view(&self) -> ProjectInfoCacheOptions {
        self.options
    }

    /// A cache that keeps to `options`.
    pub fn new(options: ProjectInfoCacheOptions) -> (cache: Self)
        ensures
            cache@ == options,
    {
        ProjectInfoCache { options }
    }

    /// The options the cache was made with.
    pub fn options(&self) -> (options: ProjectInfoCacheOptions)
        ensures
            options == self@,
    {
        self.options
    }
}

/// The caches of one control plane.
#[derive(Debug)]
pub struct ApiCaches {
    /// Cache of what waking a compute node returned.
    pub node_info: NodeInfoCache,
    /// Cache that maps a project to its endpoints, shared with those who
    /// keep it up to date.
    pub project_info: Arc<ProjectInfoCache>,
}

impl ApiCaches {
    /// Both caches, each made with its own options.
    pub fn new(
        wake_compute_cache_config: CacheOptions,
        project_info_cache_config: ProjectInfoCacheOptions,
    ) -> (caches: Self)
        ensures
            caches.node_info@ == wake_compute_cache_config,
            caches.project_info@ == project_info_cache_config,
    {
        ApiCaches {
            node_info: NodeInfoCache::new(wake_compute_cache_config),
            project_info: Arc::new(ProjectInfoCache::new(project_info_cache_config)),
        }
    }
}

} // verus!
