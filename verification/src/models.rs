//! The records that flow between the search tasks, the website collector,
//! the store and the CSV export.
use vstd::prelude::*;

use crate::text::owned;

verus! {

/// The views of a list of strings.
pub open spec fn strs(v: Seq<String>) -> Seq<Seq<char>> {
    v.map_values(|s: String| s@)
}

/// What the user asks a search task to do.
#[derive(Debug, Clone)]
pub struct SearchRequest {
    pub keyword: String,
    pub location: String,
    pub max_results: u32,
    pub language: String,
    pub headless: bool,
}

/// The language a request uses when it names none.
pub fn default_language() -> (res: String)
    ensures
        res@ == "zh-CN"@,
{
    owned("zh-CN")
}

/// A request runs the browser without a window unless it says otherwise.
pub fn default_headless() -> (res: bool)
    ensures
        res,
{
    true
}

/// A stored search task with its counters.
#[derive(Debug, Clone)]
pub struct SearchJob {
    pub id: String,
    pub keyword: String,
    pub location: String,
    pub max_results: u32,
    pub language: String,
    pub headless: bool,
    pub status: String,
    pub discovered: u32,
    pub enriched: u32,
    pub emails_found: u32,
    pub failed: u32,
    pub business_count: u32,
    pub exported: u32,
    pub message: String,
    pub created_at: String,
    pub updated_at: String,
}

/// A business as the map collector reports it. The rating is carried by the
/// bit pattern of its `f64` value (`f64::to_bits`), which the library only
/// moves and compares for presence.
#[derive(Debug, Clone, Default)]
pub struct BusinessInput {
    pub name: String,
    pub category: String,
    pub address: String,
    pub phone: String,
    pub website: String,
    pub maps_url: String,
    pub rating_bits: Option<u64>,
    pub review_count: Option<u32>,
}

/// A stored business with what the website collector found for it.
/// `rating_bits` holds the bit pattern of the `f64` rating.
#[derive(Debug, Clone)]
pub struct Business {
    pub id: i64,
    pub job_id: String,
    pub name: String,
    pub category: String,
    pub address: String,
    pub phone: String,
    pub website: String,
    pub maps_url: String,
    pub rating_bits: Option<u64>,
    pub review_count: Option<u32>,
    pub business_summary: String,
    pub emails: Vec<String>,
    pub email_source_urls: Vec<String>,
    pub facebook_urls: Vec<String>,
    pub status: String,
    pub error: String,
    pub created_at: String,
    pub updated_at: String,
    pub exported_at: Option<String>,
}

/// One line of the map collector's output protocol.
#[derive(Debug)]
pub enum CrawlerEvent {
    Diagnostic { message: String },
    Status { message: String },
    Progress { discovered: u32, message: String },
    Business { data: BusinessInput },
    Blocked { message: String },
    Error { message: String },
    Done { discovered: u32 },
}

/// Everything the window shows at once: the tasks and one task's businesses.
#[derive(Debug, Clone)]
pub struct AppSnapshot {
    pub jobs: Vec<SearchJob>,
    pub businesses: Vec<Business>,
}

/// What an export wrote and how much merging removed.
#[derive(Debug, Clone)]
pub struct ExportResult {
    pub path: String,
    pub source_jobs: usize,
    pub input_records: usize,
    pub exported_records: usize,
    pub duplicates_removed: usize,
}

/// The CSV that the e-mail enrichment produced, with its counters.
#[derive(Debug, Clone)]
pub struct EmailCsvResult {
    pub csv: String,
    pub processed_records: usize,
    pub records_with_email: usize,
    pub emails_found: usize,
    pub no_email: usize,
    pub failed: usize,
}

/// What the website collector found on one site. `source_by_email` pairs each
/// e-mail address with the first page it was seen on; no address occurs twice.
#[derive(Debug, Clone, Default)]
pub struct WebsiteResult {
    pub summary: String,
    pub emails: Vec<String>,
    pub source_urls: Vec<String>,
    pub source_by_email: Vec<(String, String)>,
    pub facebook_urls: Vec<String>,
    pub status: String,
    pub error: String,
}

} // verus!
