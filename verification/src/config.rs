//! The site's configuration.
use vstd::prelude::*;

use crate::text::string_views;

verus! {

/// The site's configuration, but for the time that an analysis may take, which is no whole
/// number of seconds and is held by whoever keeps the clock.
pub struct SiteConfig {
    pub site_name: Option<String>,
    pub author: Option<String>,
    pub author_url: Option<String>,
    pub listen: Vec<String>,
    pub db_path: String,
    pub service_workers: usize,
    pub max_jobs_per_worker: usize,
    pub cache_capacity: usize,
}

impl Default for SiteConfig {
    fn default() -> (r: Self)
        ensures
            r.site_name is None,
            r.author is None,
            r.author_url is None,
            string_views(r.listen@) == seq!["127.0.0.1:3873"@],
            r.db_path@ == "nichy-web.db"@,
            r.service_workers == 4,
            r.max_jobs_per_worker == 500,
            r.cache_capacity == 4096,
    {
        SiteConfig {
            site_name: None,
            author: None,
            author_url: None,
            listen: default_listen(),
            db_path: default_db_path(),
            service_workers: default_service_workers(),
            max_jobs_per_worker: default_max_jobs_per_worker(),
            cache_capacity: default_cache_capacity(),
        }
    }
}

/// Where the site listens.
pub fn default_listen() -> (r: Vec<String>)
    ensures
        string_views(r@) == seq!["127.0.0.1:3873"@],
{
    let mut out: Vec<String> = Vec::new();
    out.push("127.0.0.1:3873".to_owned());
    assert(string_views(out@) =~= seq!["127.0.0.1:3873"@]);
    out
}

/// Where the site keeps its data.
pub fn default_db_path() -> (r: String)
    ensures
        r@ == "nichy-web.db"@,
{
    "nichy-web.db".to_owned()
}

/// How many workers analyze; with none, every request starts a process of its own.
pub fn default_service_workers() -> (r: usize)
    ensures
        r == 4,
{
    4
}

/// How many jobs a worker does before it is replaced.
pub fn default_max_jobs_per_worker() -> (r: usize)
    ensures
        r == 500,
{
    500
}

/// How many analyses are kept.
pub fn default_cache_capacity() -> (r: usize)
    ensures
        r == 4096,
{
    4096
}

/// Where nothing is configured, the site listens on this machine alone, four workers do 500 jobs
/// each, and 4096 analyses are kept.
pub proof fn law_defaults(r: SiteConfig)
    requires
        call_ensures(SiteConfig::default, (), r),
    ensures
        r.listen@.len() == 1 && r.listen@[0]@ == "127.0.0.1:3873"@,
        r.db_path@ == "nichy-web.db"@,
        r.service_workers == 4,
        r.max_jobs_per_worker == 500,
        r.cache_capacity == 4096,
        r.site_name is None && r.author is None && r.author_url is None,
{
    let v = string_views(r.listen@);
    assert(v == seq!["127.0.0.1:3873"@]);
    assert(v.len() == r.listen@.len());
    assert(v[0] == r.listen@[0]@);
}

} // verus!
