//! How the service is configured.

use crate::admission::AdmissionConfig;
use crate::export::ExportLimits;
use crate::web::WebAssets;
use vstd::prelude::*;
use vstd::string::*;

verus! {

#[derive(Debug)]
pub struct ServiceConfig {
    /// Directory holding the catalog and the search indexes.
    pub data_dir: String,
    /// The address to listen on, `host:port`.
    pub bind: String,
    /// Built web application directory on disk. Overrides the embedded UI.
    pub web_dir: Option<String>,
    /// Serve the web UI embedded in the executable when `web_dir` is unset.
    pub embedded_web: bool,
    /// Worker threads for enumeration.
    pub scan_threads: usize,
    /// Let the reconciler start periodic rescans of feed-less sources.
    pub auto_reconcile: bool,
    /// Run literal-text content extraction.
    pub content: bool,
    /// Extraction threads (global; per-source budgets apply on top).
    pub content_workers: usize,
    /// Bounds and deadlines for expensive HTTP operations.
    pub admission: AdmissionConfig,
    /// Bounds on exports.
    pub export: ExportLimits,
}

impl ServiceConfig {
    /// Resolve the web UI source from `web_dir` / `embedded_web`.
    pub fn web_assets(&self) -> (r: WebAssets)
        ensures
            match self.web_dir {
                Some(dir) => r matches WebAssets::Directory(d) && d@ == dir@,
                None => r == (if self.embedded_web {
                    WebAssets::Embedded
                } else {
                    WebAssets::Disabled
                }),
            },
    {
        match &self.web_dir {
            Some(dir) => WebAssets::Directory(dir.clone()),
            None => if self.embedded_web {
                WebAssets::Embedded
            } else {
                WebAssets::Disabled
            },
        }
    }
}

impl Default for ServiceConfig {
    fn default() -> (r: ServiceConfig)
        ensures
            r.data_dir@ == "data"@,
            r.bind@ == "127.0.0.1:7700"@,
            r.web_dir is None,
            r.embedded_web,
            r.scan_threads == 8,
            r.auto_reconcile,
            r.content,
            r.content_workers == 4,
            r.admission == (AdmissionConfig {
                concurrency: 4,
                queue_depth: 32,
                queue_wait_ms: 5_000,
                search_timeout_ms: 30_000,
                operation_timeout_ms: 60_000,
                max_body_bytes: 1_048_576,
            }),
            r.export == (ExportLimits { page_size: 500, max_rows: 100_000, concurrency: 2 }),
    {
        ServiceConfig {
            data_dir: "data".to_owned(),
            bind: "127.0.0.1:7700".to_owned(),
            web_dir: None,
            embedded_web: true,
            scan_threads: 8,
            auto_reconcile: true,
            content: true,
            content_workers: 4,
            admission: AdmissionConfig::default(),
            export: ExportLimits::default(),
        }
    }
}

} // verus!
