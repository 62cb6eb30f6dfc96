//! Running a map search: what each line of the collector's protocol does
//! to the task, how the task ends, and what a business's website crawl
//! adds to the task's counters.
use vstd::prelude::*;

use crate::models::{BusinessInput, CrawlerEvent, WebsiteResult};
use crate::robots::{lines, split_lines};
use crate::text::{blank, chars_of, empty_string, eq_str, is_blank, owned, string_from_chars};

verus! {

/// What an event of the collector asks of the stored task.
pub enum JobUpdate {
    /// Set the task's status and message.
    Status { status: String, message: String },
    /// Raise the task's discovered count to at least `discovered` and set
    /// its message.
    Discovered { discovered: u32, message: String },
    /// Save the business; a business still pending then has its website
    /// crawled.
    SaveBusiness(BusinessInput),
    /// Nothing to store.
    Ignore,
}

/// How a search ended.
pub enum SearchEnd {
    /// Stopped on request: the task keeps the status the request gave it.
    Stopped,
    /// The collector exited successfully.
    Completed,
    /// The collector failed, with the message to show.
    Failed(String),
}

/// The state of a running search: whether a pause or cancel request
/// stopped it, and the last error the collector reported.
pub struct SearchRun {
    pub stopped_by_control: bool,
    pub event_error: String,
}

/// The message of a search that found all its businesses.
pub open spec fn collection_done_message() -> Seq<char> {
    "Google Maps 采集完成，正在整理官网结果"@
}

/// The message of a failed search: the collector's last reported error;
/// else the last line of what it wrote to stderr, when that is not blank;
/// else a generic one.
pub open spec fn failure_detail(event_error: Seq<char>, stderr: Seq<char>) -> Seq<char> {
    if event_error.len() > 0 {
        event_error
    } else if !is_blank(stderr) && lines(stderr).len() > 0 {
        lines(stderr).last()
    } else {
        "采集器异常退出"@
    }
}

impl SearchRun {
    pub fn new() -> (res: SearchRun)
        ensures
            !res.stopped_by_control,
            res.event_error@.len() == 0,
    {
        SearchRun { stopped_by_control: false, event_error: empty_string() }
    }

    /// A line of the protocol: status and error lines set the running
    /// status and message (an error is also kept for the end), progress
    /// and the final count raise the discovered count, a business is
    /// saved, a blocked line sets the status `blocked`, diagnostics change
    /// nothing.
    pub fn on_event(&mut self, event: CrawlerEvent) -> (res: JobUpdate)
        ensures
            final(self).stopped_by_control == old(self).stopped_by_control,
            match event {
                CrawlerEvent::Error { message } => final(self).event_error@ == message@,
                _ => final(self).event_error@ == old(self).event_error@,
            },
            match event {
                CrawlerEvent::Diagnostic { .. } => res is Ignore,
                CrawlerEvent::Status { message } => (res matches JobUpdate::Status { status, message: m }
                    && status@ == "running"@ && m@ == message@),
                CrawlerEvent::Progress { discovered, message } => (res matches JobUpdate::Discovered {
                    discovered: d,
                    message: m,
                } && d == discovered && m@ == message@),
                CrawlerEvent::Business { data } => res == JobUpdate::SaveBusiness(data),
                CrawlerEvent::Blocked { message } => (res matches JobUpdate::Status { status, message: m }
                    && status@ == "blocked"@ && m@ == message@),
                CrawlerEvent::Error { message } => (res matches JobUpdate::Status { status, message: m }
                    && status@ == "running"@ && m@ == message@),
                CrawlerEvent::Done { discovered } => (res matches JobUpdate::Discovered {
                    discovered: d,
                    message: m,
                } && d == discovered && m@ == collection_done_message()),
            },
    {
        match event {
            CrawlerEvent::Diagnostic { .. } => JobUpdate::Ignore,
            CrawlerEvent::Status { message } => JobUpdate::Status { status: owned("running"), message },
            CrawlerEvent::Progress { discovered, message } => JobUpdate::Discovered { discovered, message },
            CrawlerEvent::Business { data } => JobUpdate::SaveBusiness(data),
            CrawlerEvent::Blocked { message } => JobUpdate::Status { status: owned("blocked"), message },
            CrawlerEvent::Error { message } => {
                let kept = message.clone();
                self.event_error = kept;
                JobUpdate::Status { status: owned("running"), message }
            },
            CrawlerEvent::Done { discovered } => JobUpdate::Discovered {
                discovered,
                message: owned("Google Maps 采集完成，正在整理官网结果"),
            },
        }
    }

    /// A pause or cancel request stopped the collector.
    pub fn on_control_change(&mut self)
        ensures
            final(self).stopped_by_control,
            final(self).event_error@ == old(self).event_error@,
    {
        self.stopped_by_control = true;
    }

    /// Reading the collector's output failed; the search ends with it.
    pub fn on_read_error(&mut self, error: String)
        ensures
            final(self).stopped_by_control == old(self).stopped_by_control,
            final(self).event_error@ == error@,
    {
        self.event_error = error;
    }

    /// How the search ends, given whether the collector exited successfully
    /// and what it wrote to stderr.
    pub fn finish(&self, exit_success: bool, stderr: &str) -> (res: SearchEnd)
        ensures
            self.stopped_by_control ==> res is Stopped,
            !self.stopped_by_control && exit_success ==> res is Completed,
            !self.stopped_by_control && !exit_success ==> (res matches SearchEnd::Failed(m) && m@
                == failure_detail(self.event_error@, stderr@)),
    {
        if self.stopped_by_control {
            SearchEnd::Stopped
        } else if exit_success {
            SearchEnd::Completed
        } else if !self.event_error.as_str().is_empty() {
            SearchEnd::Failed(self.event_error.clone())
        } else {
            let cs = chars_of(stderr);
            if !blank(stderr) {
                let all = split_lines(&cs);
                if all.len() > 0 {
                    let last = &all[all.len() - 1];
                    return SearchEnd::Failed(string_from_chars(last));
                }
            }
            SearchEnd::Failed(owned("采集器异常退出"))
        }
    }
}

/// A business is crawled only when its website field is not blank.
pub fn website_needs_crawl(website: &str) -> (res: bool)
    ensures
        res == !is_blank(website@),
{
    !blank(website)
}

/// What a business without a website gets: status `no_website` and
/// nothing found.
pub fn no_website_result() -> (res: WebsiteResult)
    ensures
        res.status@ == "no_website"@,
        res.summary@.len() == 0,
        res.emails.len() == 0,
        res.source_urls.len() == 0,
        res.source_by_email.len() == 0,
        res.facebook_urls.len() == 0,
        res.error@.len() == 0,
{
    WebsiteResult {
        summary: empty_string(),
        emails: Vec::new(),
        source_urls: Vec::new(),
        source_by_email: Vec::new(),
        facebook_urls: Vec::new(),
        status: owned("no_website"),
        error: empty_string(),
    }
}

/// What a finished website crawl adds to its task: one enriched business,
/// its addresses, and one failure when the crawl failed.
pub fn enrichment_increment(result: &WebsiteResult) -> (res: (u32, u32, u32))
    ensures
        res.0 == 1,
        res.1 == result.emails.len() as u32,
        res.2 == (if result.status@ == "failed"@ {
            1u32
        } else {
            0u32
        }),
{
    let status = chars_of(result.status.as_str());
    let failed: u32 = if eq_str(&status, "failed") {
        1
    } else {
        0
    };
    (1, result.emails.len() as u32, failed)
}

} // verus!
