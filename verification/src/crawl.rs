//! The website collector's decisions. A crawl starts at the home page,
//! reads at most seven pages of the site (the home page, then the contact
//! and about pages it links to), honours `robots.txt`, and gathers the
//! public addresses, the page each was first seen on, a summary and the
//! site's Facebook pages. The fetching itself happens outside: the session
//! says what to fetch next and is told what came back.
use vstd::prelude::*;

use crate::emails::collected_emails;
use crate::models::{strs, WebsiteResult};
use crate::order::{insert_sorted, strictly_sorted};
use crate::pages::{
    contains_string, discover_priority_links, extract_emails, extract_summary, page_summary,
    priority_links, searchable_text, url_views,
};
use crate::robots::{robots_allows, robots_allows_spec};
use crate::text::{decimal, decimal_string, empty_string, owned, trim_end_slashes, trim_end_slashes_exec};
use crate::urls::{
    clear_url_fragment, clear_url_query, join_url, normalized_host, normalized_host_spec,
    set_url_path, url_fragment_cleared, url_joined, url_opt_view, url_path_set, url_query_cleared,
    ParsedUrl, UrlView,
};

verus! {

/// The most pages one crawl reads.
pub const MAX_PAGES: usize = 7;

/// What the caller does next for a crawl.
#[derive(Debug, PartialEq, Eq)]
pub enum CrawlAction {
    /// Fetch the robots file of the site of this page and report it.
    FetchRobots(String),
    /// Fetch this page and report it.
    FetchPage(String),
    /// Nothing to fetch for this entry; ask again.
    Skip,
    /// The crawl is over.
    Finished,
}

pub ghost enum ActionView {
    FetchRobots(Seq<char>),
    FetchPage(Seq<char>),
    Skip,
    Finished,
}

pub open spec fn action_view(a: CrawlAction) -> ActionView {
    match a {
        CrawlAction::FetchRobots(u) => ActionView::FetchRobots(u@),
        CrawlAction::FetchPage(u) => ActionView::FetchPage(u@),
        CrawlAction::Skip => ActionView::Skip,
        CrawlAction::Finished => ActionView::Finished,
    }
}

/// The state of a crawl.
pub struct CrawlSession {
    collect_facebook_links: bool,
    queue: Vec<(ParsedUrl, bool)>,
    robots_cache: Vec<(String, Option<String>)>,
    visited: Vec<String>,
    found: Vec<(String, String)>,
    sources: Vec<String>,
    facebook_urls: Vec<String>,
    summary: String,
    error: String,
    current: Option<(ParsedUrl, bool)>,
}

pub ghost struct CrawlView {
    pub collect_facebook_links: bool,
    /// Pages still to read, each marked when it is the home page.
    pub queue: Seq<(UrlView, bool)>,
    /// Robots files by site, `None` where none could be read.
    pub robots: Seq<(Seq<char>, Option<Seq<char>>)>,
    /// The pages taken so far, without trailing slashes.
    pub visited: Seq<Seq<char>>,
    /// Each address found, with the first page it was seen on.
    pub found: Seq<(Seq<char>, Seq<char>)>,
    /// The pages on which addresses were found.
    pub sources: Seq<Seq<char>>,
    pub facebook: Seq<Seq<char>>,
    pub summary: Seq<char>,
    pub error: Seq<char>,
    /// The page being fetched, if any.
    pub current: Option<(UrlView, bool)>,
}

pub open spec fn opt_str(o: Option<String>) -> Option<Seq<char>> {
    match o {
        Some(s) => Some(s@),
        None => None,
    }
}

pub open spec fn pair_views(v: Seq<(String, String)>) -> Seq<(Seq<char>, Seq<char>)> {
    v.map_values(|p: (String, String)| (p.0@, p.1@))
}

pub open spec fn keys(v: Seq<(Seq<char>, Seq<char>)>) -> Seq<Seq<char>> {
    v.map_values(|p: (Seq<char>, Seq<char>)| p.0)
}

impl View for CrawlSession {
    type V = CrawlView;

    closed spec fn view(&self) -> CrawlView {
        CrawlView {
            collect_facebook_links: self.collect_facebook_links,
            queue: self.queue@.map_values(|p: (ParsedUrl, bool)| (p.0@, p.1)),
            robots: self.robots_cache@.map_values(
                |p: (String, Option<String>)| (p.0@, opt_str(p.1)),
            ),
            visited: strs(self.visited@),
            found: pair_views(self.found@),
            sources: strs(self.sources@),
            facebook: strs(self.facebook_urls@),
            summary: self.summary@,
            error: self.error@,
            current: match self.current {
                Some((u, h)) => Some((u@, h)),
                None => None,
            },
        }
    }
}

/// A crawl never takes more than seven pages, takes no page twice, and
/// keeps each address and each source page once.
pub open spec fn crawl_wf(v: CrawlView) -> bool {
    &&& v.visited.len() <= MAX_PAGES
    &&& v.visited.no_duplicates()
    &&& keys(v.found).no_duplicates()
    &&& v.sources.no_duplicates()
}

/// The robots file recorded for a site.
pub open spec fn robots_lookup(cache: Seq<(Seq<char>, Option<Seq<char>>)>, key: Seq<char>) -> Option<
    Option<Seq<char>>,
>
    decreases cache.len(),
{
    if cache.len() == 0 {
        None
    } else if cache[0].0 == key {
        Some(cache[0].1)
    } else {
        robots_lookup(cache.drop_first(), key)
    }
}

/// One step of a crawl that is not waiting for a fetch.
pub open spec fn next_step_spec(v: CrawlView) -> (CrawlView, ActionView) {
    if v.queue.len() == 0 || v.visited.len() >= MAX_PAGES {
        (v, ActionView::Finished)
    } else {
        let (u, home) = v.queue[0];
        let rest = v.queue.drop_first();
        let page = trim_end_slashes(u.serialization);
        if v.visited.contains(page) {
            (CrawlView { queue: rest, ..v }, ActionView::Skip)
        } else {
            let visited = v.visited.push(page);
            match robots_lookup(v.robots, normalized_host_spec(u)) {
                Some(content) => if robots_allows_spec(content, u.path) {
                    (
                        CrawlView { queue: rest, visited, current: Some((u, home)), ..v },
                        ActionView::FetchPage(u.serialization),
                    )
                } else {
                    (CrawlView { queue: rest, visited, ..v }, ActionView::Skip)
                },
                None => (
                    CrawlView { queue: rest, visited, current: Some((u, home)), ..v },
                    ActionView::FetchRobots(u.serialization),
                ),
            }
        }
    }
}

/// The crawl after the robots file of the current page's site was read
/// (`None`: it could not be).
pub open spec fn robots_step_spec(v: CrawlView, content: Option<Seq<char>>) -> (
    CrawlView,
    ActionView,
) {
    let (u, home) = v.current->0;
    let robots = v.robots.push((normalized_host_spec(u), content));
    if robots_allows_spec(content, u.path) {
        (CrawlView { robots, ..v }, ActionView::FetchPage(u.serialization))
    } else {
        (CrawlView { robots, current: None, ..v }, ActionView::Skip)
    }
}

/// How the crawl changes when a page could not be read: the first page's
/// error is kept.
pub open spec fn page_failed_spec(v: CrawlView, error: Seq<char>) -> CrawlView {
    CrawlView {
        current: None,
        error: if v.visited.len() == 1 {
            error
        } else {
            v.error
        },
        ..v
    }
}

/// Only the first page taken can fail a crawl: when it cannot be read, its
/// error becomes the crawl's (and, with no address, the crawl `failed`);
/// when a later page cannot be read, the crawl's error stays as it was.
/// Nothing but the page awaited changes otherwise. So a crawl whose home
/// page was read and gave no address still ends `no_email`, with no error,
/// whatever later pages fail.
pub proof fn lemma_later_failures_keep_error(v: CrawlView, error: Seq<char>)
    ensures
        v.visited.len() != 1 ==> page_failed_spec(v, error).error == v.error,
        v.visited.len() == 1 ==> page_failed_spec(v, error).error == error,
        v.visited.len() == 1 && error.len() > 0 && v.found.len() == 0 ==> crawl_status(
            page_failed_spec(v, error).found.len() > 0,
            page_failed_spec(v, error).error,
        ) == "failed"@,
        page_failed_spec(v, error).current is None,
        page_failed_spec(v, error).visited == v.visited,
        page_failed_spec(v, error).queue == v.queue,
        page_failed_spec(v, error).found == v.found,
        page_failed_spec(v, error).sources == v.sources,
        v.visited.len() != 1 && v.error.len() == 0 && v.found.len() == 0 ==> crawl_status(
            page_failed_spec(v, error).found.len() > 0,
            page_failed_spec(v, error).error,
        ) == "no_email"@,
{
}

impl CrawlSession {
    pub closed spec fn wf(&self) -> bool {
        crawl_wf(self@)
    }

    /// A crawl that starts at `start`, the home page.
    pub fn new(start: ParsedUrl, collect_facebook_links: bool) -> (res: CrawlSession)
        ensures
            res.wf(),
            res@.queue == seq![(start@, true)],
            res@.collect_facebook_links == collect_facebook_links,
            res@.robots.len() == 0,
            res@.visited.len() == 0,
            res@.found.len() == 0,
            res@.sources.len() == 0,
            res@.facebook.len() == 0,
            res@.summary.len() == 0,
            res@.error.len() == 0,
            res@.current is None,
    {
        let ghost sv = start@;
        let mut queue: Vec<(ParsedUrl, bool)> = Vec::new();
        queue.push((start, true));
        let s = CrawlSession {
            collect_facebook_links,
            queue,
            robots_cache: Vec::new(),
            visited: Vec::new(),
            found: Vec::new(),
            sources: Vec::new(),
            facebook_urls: Vec::new(),
            summary: empty_string(),
            error: empty_string(),
            current: None,
        };
        assert(s@.queue =~= seq![(sv, true)]);
        assert(s@.visited =~= Seq::<Seq<char>>::empty());
        assert(s@.found =~= Seq::<(Seq<char>, Seq<char>)>::empty());
        assert(s@.sources =~= Seq::<Seq<char>>::empty());
        s
    }

    /// A crawl never takes more than seven pages and never takes a page
    /// twice; it keeps each address and each source page once.
    pub proof fn lemma_crawl_limits(&self)
        requires
            self.wf(),
        ensures
            self@.visited.len() <= MAX_PAGES,
            self@.visited.no_duplicates(),
            keys(self@.found).no_duplicates(),
            self@.sources.no_duplicates(),
    {
    }

    /// Whether a fetch is awaited.
    pub fn is_waiting(&self) -> (res: bool)
        ensures
            res == self@.current is Some,
    {
        self.current.is_some()
    }

    fn robots_lookup_exec(&self, key: &String) -> (res: Option<Option<String>>)
        ensures
            match res {
                Some(c) => robots_lookup(self@.robots, key@) == Some(opt_str(c)),
                None => robots_lookup(self@.robots, key@) is None,
            },
    {
        let ghost r = self@.robots;
        let mut i: usize = 0;
        assert(r.skip(0) =~= r);
        while i < self.robots_cache.len()
            invariant
                i <= self.robots_cache.len(),
                r == self@.robots,
                robots_lookup(r, key@) == robots_lookup(r.skip(i as int), key@),
            decreases self.robots_cache.len() - i,
        {
            assert(r.skip(i as int).drop_first() =~= r.skip(i + 1));
            assert(r.skip(i as int)[0] == r[i as int]);
            if self.robots_cache[i].0 == *key {
                let c = self.robots_cache[i].1.clone();
                return Some(c);
            }
            i = i + 1;
        }
        None
    }

    /// Decides the next fetch: finished when no page is left or seven pages
    /// were taken; a page already taken is skipped; otherwise the page is
    /// taken and either the site's robots file is asked for, or the page
    /// itself when the recorded robots file lets it be read.
    pub fn next_step(&mut self) -> (res: CrawlAction)
        requires
            old(self).wf(),
            old(self)@.current is None,
        ensures
            final(self).wf(),
            (final(self)@, action_view(res)) == next_step_spec(old(self)@),
    {
        if self.queue.len() == 0 || self.visited.len() >= MAX_PAGES {
            return CrawlAction::Finished;
        }
        let ghost v = self@;
        let (url, home) = self.queue.remove(0);
        assert(self@.queue =~= v.queue.drop_first());
        let page = trim_end_slashes_exec(url.serialization.as_str());
        if contains_string(&self.visited, &page) {
            return CrawlAction::Skip;
        }
        self.visited.push(page);
        assert(self@.visited =~= v.visited.push(page@));
        let key = normalized_host(&url);
        let key_s = crate::text::string_from_chars(&key);
        let ser = url.serialization.clone();
        match self.robots_lookup_exec(&key_s) {
            Some(content) => {
                let allowed = match &content {
                    Some(c) => robots_allows(Some(c.as_str()), url.path.as_str()),
                    None => robots_allows(None, url.path.as_str()),
                };
                if allowed {
                    self.current = Some((url, home));
                    CrawlAction::FetchPage(ser)
                } else {
                    CrawlAction::Skip
                }
            },
            None => {
                self.current = Some((url, home));
                CrawlAction::FetchRobots(ser)
            },
        }
    }

    /// Records the robots file of the current page's site (`None`: it could
    /// not be read) and fetches the page when the file lets it be read.
    pub fn robots_fetched(&mut self, content: Option<String>) -> (res: CrawlAction)
        requires
            old(self).wf(),
            old(self)@.current is Some,
        ensures
            final(self).wf(),
            (final(self)@, action_view(res)) == robots_step_spec(old(self)@, opt_str(content)),
    {
        let ghost v = self@;
        let (url, home) = self.current.take().unwrap();
        let key = normalized_host(&url);
        let key_s = crate::text::string_from_chars(&key);
        let allowed = match &content {
            Some(c) => robots_allows(Some(c.as_str()), url.path.as_str()),
            None => robots_allows(None, url.path.as_str()),
        };
        self.robots_cache.push((key_s, content));
        assert(self@.robots =~= v.robots.push((normalized_host_spec(url@), opt_str(content))));
        if allowed {
            let ser = url.serialization.clone();
            self.current = Some((url, home));
            CrawlAction::FetchPage(ser)
        } else {
            CrawlAction::Skip
        }
    }

    /// Records that the current page could not be read.
    pub fn page_failed(&mut self, error: String)
        requires
            old(self).wf(),
            old(self)@.current is Some,
        ensures
            final(self).wf(),
            final(self)@ == page_failed_spec(old(self)@, error@),
            old(self)@.visited.len() != 1 ==> final(self)@.error == old(self)@.error,
    {
        self.current = None;
        if self.visited.len() == 1 {
            self.error = error;
        }
    }
}

} // verus!

verus! {

/// Whether the page being fetched is the home page.
pub open spec fn current_is_home(v: CrawlView) -> bool {
    match v.current {
        Some((_, home)) => home,
        None => false,
    }
}

pub open spec fn as_followups(links: Seq<UrlView>) -> Seq<(UrlView, bool)> {
    links.map_values(|u: UrlView| (u, false))
}

pub open spec fn serializations(links: Seq<UrlView>) -> Seq<Seq<char>> {
    links.map_values(|u: UrlView| u.serialization)
}

/// The status of a finished crawl: `completed` when it found an address,
/// else `failed` when the home page could not be read, else `no_email`.
pub open spec fn crawl_status(found_any: bool, error: Seq<char>) -> Seq<char> {
    if found_any {
        "completed"@
    } else if error.len() > 0 {
        "failed"@
    } else {
        "no_email"@
    }
}

pub proof fn lemma_push_contains<A>(s: Seq<A>, a: A)
    ensures
        forall|y: A| #[trigger] s.push(a).contains(y) <==> (s.contains(y) || y == a),
{
    assert forall|y: A| #[trigger] s.push(a).contains(y) <==> (s.contains(y) || y == a) by {
        if s.contains(y) {
            let k = choose|k: int| 0 <= k < s.len() && s[k] == y;
            assert(s.push(a)[k] == y);
        }
        if y == a {
            assert(s.push(a)[s.len() as int] == y);
        }
        if s.push(a).contains(y) {
            let k = choose|k: int| 0 <= k < s.push(a).len() && s.push(a)[k] == y;
            if k < s.len() {
                assert(s[k] == y);
            }
        }
    }
}

fn found_contains(found: &Vec<(String, String)>, e: &String) -> (res: bool)
    ensures
        res == keys(pair_views(found@)).contains(e@),
{
    let mut k: usize = 0;
    while k < found.len()
        invariant
            k <= found.len(),
            forall|j: int| 0 <= j < k ==> keys(pair_views(found@))[j] != e@,
        decreases found.len() - k,
    {
        if found[k].0 == *e {
            assert(keys(pair_views(found@))[k as int] == e@);
            return true;
        }
        k = k + 1;
    }
    false
}

impl CrawlSession {
    /// Records the page that was read for the current entry (`final_url` is
    /// where redirects ended): its addresses join those found, each
    /// remembered with the first page it was seen on, and that page becomes
    /// a source; the first summary is kept; Facebook pages are kept when
    /// asked for; the home page queues its contact and about pages.
    pub fn page_fetched(&mut self, final_url: ParsedUrl, html: &str)
        requires
            old(self).wf(),
            old(self)@.current is Some,
        ensures
            final(self).wf(),
            ({
                let v = old(self)@;
                let n = final(self)@;
                let page = collected_emails(searchable_text(html@));
                let src = final_url@.serialization;
                let links = priority_links(html@, final_url@);
                let any = exists|e: Seq<char>| page.contains(e);
                &&& n.current is None
                &&& n.collect_facebook_links == v.collect_facebook_links
                &&& n.robots == v.robots
                &&& n.visited == v.visited
                &&& n.error == v.error
                &&& n.queue == (if current_is_home(v) {
                    v.queue + as_followups(links.0)
                } else {
                    v.queue
                })
                &&& n.sources == (if any && !v.sources.contains(src) {
                    v.sources.push(src)
                } else {
                    v.sources
                })
                &&& n.found.len() >= v.found.len()
                &&& n.found.take(v.found.len() as int) == v.found
                &&& forall|i: int| v.found.len() <= i < n.found.len() ==> (#[trigger] n.found[i]).1 == src
                &&& forall|x: Seq<char>| #[trigger] keys(n.found).contains(x) <==> (keys(
                    v.found,
                ).contains(x) || page.contains(x))
                &&& n.facebook == (if v.collect_facebook_links {
                    v.facebook + serializations(links.1)
                } else {
                    v.facebook
                })
                &&& n.summary == (if v.summary.len() == 0 {
                    page_summary(html@)
                } else {
                    v.summary
                })
            }),
    {
        let ghost v = self@;
        let (_url, home) = self.current.take().unwrap();
        let page_emails = extract_emails(html);
        let src = final_url.serialization.clone();
        let ghost page = collected_emails(searchable_text(html@));
        if page_emails.len() > 0 {
            assert(strs(page_emails@).contains(strs(page_emails@)[0]));
            assert(page.contains(strs(page_emails@)[0]));
            crate::order::push_unique(&mut self.sources, src.clone());
        } else {
            assert forall|e: Seq<char>| !page.contains(e) by {
                if page.contains(e) {
                    assert(strs(page_emails@).contains(e));
                }
            }
        }
        let ghost found0 = pair_views(self.found@);
        let ghost sources1 = self@.sources;
        let mut i: usize = 0;
        while i < page_emails.len()
            invariant
                i <= page_emails.len(),
                self@.visited == v.visited,
                self@.queue == v.queue,
                self@.robots == v.robots,
                self@.error == v.error,
                self@.summary == v.summary,
                self@.facebook == v.facebook,
                self@.sources == sources1,
                self@.collect_facebook_links == v.collect_facebook_links,
                self@.current is None,
                src@ == final_url@.serialization,
                strs(page_emails@).no_duplicates(),
                forall|x: Seq<char>| #[trigger] strs(page_emails@).contains(x) <==> page.contains(x),
                keys(pair_views(self.found@)).no_duplicates(),
                pair_views(self.found@).len() >= found0.len(),
                pair_views(self.found@).take(found0.len() as int) == found0,
                forall|k: int|
                    found0.len() <= k < pair_views(self.found@).len() ==> (#[trigger] pair_views(
                        self.found@,
                    )[k]).1 == src@,
                forall|x: Seq<char>| #[trigger] keys(pair_views(self.found@)).contains(x) <==> (keys(
                    found0,
                ).contains(x) || exists|j: int| 0 <= j < i && x == strs(page_emails@)[j]),
            decreases page_emails.len() - i,
        {
            let e = page_emails[i].clone();
            let ghost before = pair_views(self.found@);
            let present = found_contains(&self.found, &e);
            let ghost pe = strs(page_emails@);
            assert(pe[i as int] == e@);
            if !present {
                self.found.push((e, src.clone()));
                assert(pair_views(self.found@) =~= before.push((pe[i as int], src@)));
                assert(keys(pair_views(self.found@)) =~= keys(before).push(pe[i as int]));
                assert(pair_views(self.found@).take(found0.len() as int) =~= before.take(
                    found0.len() as int,
                ));
                proof {
                    lemma_push_contains(keys(before), pe[i as int]);
                }
            }
            assert forall|x: Seq<char>| #[trigger] keys(pair_views(self.found@)).contains(x) <==> (
            keys(found0).contains(x) || exists|j: int| 0 <= j < i + 1 && x == pe[j]) by {
                assert(keys(pair_views(self.found@)).contains(x) <==> (keys(before).contains(x) || x
                    == pe[i as int]));
                assert(keys(before).contains(x) <==> (keys(found0).contains(x) || exists|j: int|
                    0 <= j < i && x == pe[j]));
                if exists|j: int| 0 <= j < i && x == pe[j] {
                    let j = choose|j: int| 0 <= j < i && x == pe[j];
                    assert(0 <= j < i + 1 && x == pe[j]);
                }
                if x == pe[i as int] {
                    assert(0 <= i < i + 1 && x == pe[i as int]);
                }
                if exists|j: int| 0 <= j < i + 1 && x == pe[j] {
                    let j = choose|j: int| 0 <= j < i + 1 && x == pe[j];
                    if j < i {
                        assert(0 <= j < i && x == pe[j]);
                    }
                }
            }
            i = i + 1;
        }
        assert forall|x: Seq<char>| #[trigger] keys(pair_views(self.found@)).contains(x) <==> (keys(
            found0,
        ).contains(x) || page.contains(x)) by {
            if page.contains(x) {
                assert(strs(page_emails@).contains(x));
                let j = choose|j: int| 0 <= j < strs(page_emails@).len() && strs(page_emails@)[j] == x;
                assert(0 <= j < i && x == strs(page_emails@)[j]);
            }
            if exists|j: int| 0 <= j < i && x == strs(page_emails@)[j] {
                let j = choose|j: int| 0 <= j < i && x == strs(page_emails@)[j];
                assert(strs(page_emails@).contains(x));
            }
        }
        if self.summary.as_str().is_empty() {
            self.summary = extract_summary(html);
        }
        let (contacts, facebook) = discover_priority_links(html, &final_url);
        let ghost links = priority_links(html@, final_url@);
        if self.collect_facebook_links {
            let ghost fb0 = strs(self.facebook_urls@);
            let ghost mid = self@;
            let mut j: usize = 0;
            while j < facebook.len()
                invariant
                    j <= facebook.len(),
                    self@ == (CrawlView { facebook: self@.facebook, ..mid }),
                    url_views(facebook@) == links.1,
                    strs(self.facebook_urls@) == fb0 + serializations(links.1).take(j as int),
                decreases facebook.len() - j,
            {
                assert(url_views(facebook@)[j as int] == facebook@[j as int]@);
                assert(serializations(links.1)[j as int] == facebook@[j as int]@.serialization);
                let ghost fb_before = strs(self.facebook_urls@);
                let sj = facebook[j].serialization.clone();
                self.facebook_urls.push(sj);
                assert(strs(self.facebook_urls@) =~= fb_before.push(sj@));
                assert(serializations(links.1).take(j + 1) =~= serializations(links.1).take(
                    j as int,
                ).push(serializations(links.1)[j as int]));
                assert(strs(self.facebook_urls@) =~= fb0 + serializations(links.1).take(j + 1));
                j = j + 1;
            }
            assert(serializations(links.1).take(j as int) =~= serializations(links.1));
        }
        if home {
            let ghost q0 = self@.queue;
            let ghost mid = self@;
            let mut contacts = contacts;
            let mut j: usize = 0;
            let n = contacts.len();
            while contacts.len() > 0
                invariant
                    self@ == (CrawlView { queue: self@.queue, ..mid }),
                    j + contacts.len() == n,
                    n == links.0.len(),
                    url_views(contacts@) == links.0.skip(j as int),
                    self@.queue == q0 + as_followups(links.0).take(j as int),
                    self@.found == pair_views(self.found@),
                decreases contacts.len(),
            {
                let ghost before = contacts@;
                let c = contacts.remove(0);
                assert(contacts@ == before.drop_first());
                assert(url_views(before)[0] == before[0]@);
                assert(links.0.skip(j as int)[0] == links.0[j as int]);
                assert(url_views(contacts@) =~= url_views(before).drop_first());
                assert(links.0.skip(j as int).drop_first() =~= links.0.skip(j + 1));
                assert(c@ == links.0[j as int]);
                let ghost qb = self@.queue;
                let ghost cv = c@;
                self.queue.push((c, false));
                assert(self@.queue =~= qb.push((cv, false)));
                assert(as_followups(links.0).take(j + 1) =~= as_followups(links.0).take(j as int).push(
                    (cv, false),
                ));
                assert(self@.queue =~= q0 + as_followups(links.0).take(j + 1));
                j = j + 1;
            }
            assert(as_followups(links.0).take(j as int) =~= as_followups(links.0));
        }
    }

    /// What the crawl found: the addresses in ascending order, the source
    /// pages in ascending order, each address with its first page, the
    /// Facebook pages in ascending order without repeats, the summary, the
    /// first page's error, and the status.
    pub fn finish(self) -> (res: WebsiteResult)
        requires
            self.wf(),
        ensures
            strictly_sorted(strs(res.emails@)),
            forall|x: Seq<char>| #[trigger] strs(res.emails@).contains(x) <==> keys(
                self@.found,
            ).contains(x),
            strictly_sorted(strs(res.source_urls@)),
            forall|x: Seq<char>| #[trigger] strs(res.source_urls@).contains(x) <==> self@.sources.contains(
                x,
            ),
            pair_views(res.source_by_email@) == self@.found,
            strictly_sorted(strs(res.facebook_urls@)),
            forall|x: Seq<char>| #[trigger] strs(res.facebook_urls@).contains(x) <==> self@.facebook.contains(
                x,
            ),
            res.summary@ == self@.summary,
            res.error@ == self@.error,
            res.status@ == crawl_status(self@.found.len() > 0, self@.error),
    {
        let ghost v = self@;
        let mut emails: Vec<String> = Vec::new();
        assert(strs(emails@) =~= Seq::<Seq<char>>::empty());
        let mut i: usize = 0;
        while i < self.found.len()
            invariant
                i <= self.found.len(),
                v.found == pair_views(self.found@),
                strictly_sorted(strs(emails@)),
                forall|x: Seq<char>| #[trigger] strs(emails@).contains(x) <==> keys(v.found).take(
                    i as int,
                ).contains(x),
            decreases self.found.len() - i,
        {
            let item = self.found[i].0.clone();
            assert(keys(v.found)[i as int] == item@);
            insert_sorted(&mut emails, item);
            proof {
                lemma_push_contains(keys(v.found).take(i as int), item@);
            }
            assert(keys(v.found).take(i + 1) =~= keys(v.found).take(i as int).push(
                self.found@[i as int].0@,
            ));
            i = i + 1;
        }
        assert(keys(v.found).take(i as int) =~= keys(v.found));
        let mut sources: Vec<String> = Vec::new();
        assert(strs(sources@) =~= Seq::<Seq<char>>::empty());
        let mut k: usize = 0;
        while k < self.sources.len()
            invariant
                k <= self.sources.len(),
                v.sources == strs(self.sources@),
                strictly_sorted(strs(sources@)),
                forall|x: Seq<char>| #[trigger] strs(sources@).contains(x) <==> v.sources.take(
                    k as int,
                ).contains(x),
            decreases self.sources.len() - k,
        {
            let item = self.sources[k].clone();
            assert(v.sources[k as int] == item@);
            insert_sorted(&mut sources, item);
            proof {
                lemma_push_contains(v.sources.take(k as int), item@);
            }
            assert(v.sources.take(k + 1) =~= v.sources.take(k as int).push(self.sources@[k as int]@));
            k = k + 1;
        }
        assert(v.sources.take(k as int) =~= v.sources);
        let mut facebook: Vec<String> = Vec::new();
        assert(strs(facebook@) =~= Seq::<Seq<char>>::empty());
        let mut m: usize = 0;
        while m < self.facebook_urls.len()
            invariant
                m <= self.facebook_urls.len(),
                v.facebook == strs(self.facebook_urls@),
                strictly_sorted(strs(facebook@)),
                forall|x: Seq<char>| #[trigger] strs(facebook@).contains(x) <==> v.facebook.take(
                    m as int,
                ).contains(x),
            decreases self.facebook_urls.len() - m,
        {
            let item = self.facebook_urls[m].clone();
            assert(v.facebook[m as int] == item@);
            insert_sorted(&mut facebook, item);
            proof {
                lemma_push_contains(v.facebook.take(m as int), item@);
            }
            assert(v.facebook.take(m + 1) =~= v.facebook.take(m as int).push(
                self.facebook_urls@[m as int]@,
            ));
            m = m + 1;
        }
        assert(v.facebook.take(m as int) =~= v.facebook);
        let status = if self.found.len() > 0 {
            owned("completed")
        } else if !self.error.as_str().is_empty() {
            owned("failed")
        } else {
            owned("no_email")
        };
        WebsiteResult {
            summary: self.summary,
            emails,
            source_urls: sources,
            source_by_email: self.found,
            facebook_urls: facebook,
            status,
            error: self.error,
        }
    }
}

/// The result of a crawl that could not start.
pub fn failed_result(error: String) -> (res: WebsiteResult)
    ensures
        res.status@ == "failed"@,
        res.error@ == error@,
        res.summary@.len() == 0,
        res.emails.len() == 0,
        res.source_urls.len() == 0,
        res.source_by_email.len() == 0,
        res.facebook_urls.len() == 0,
{
    WebsiteResult {
        summary: empty_string(),
        emails: Vec::new(),
        source_urls: Vec::new(),
        source_by_email: Vec::new(),
        facebook_urls: Vec::new(),
        status: owned("failed"),
        error,
    }
}

} // verus!

verus! {

// ---------------------------------------------------------------------------
// Answers from a site
// ---------------------------------------------------------------------------

/// The most bytes a page may have.
pub const MAX_RESPONSE_BYTES: u64 = 2097152;

/// How many times one page fetch follows a redirect before giving up: the
/// first request and three redirects.
pub const MAX_FETCH_ATTEMPTS: usize = 4;

/// What to do with the answer to a page request.
pub enum PageResponse {
    /// Ask again at this address.
    Redirect(ParsedUrl),
    /// Give up with this message.
    Failed(String),
    /// Read the body.
    Accept,
}

pub ghost enum PageResponseView {
    Redirect(UrlView),
    Failed(Seq<char>),
    Accept,
}

pub open spec fn page_response_view(r: PageResponse) -> PageResponseView {
    match r {
        PageResponse::Redirect(u) => PageResponseView::Redirect(u@),
        PageResponse::Failed(m) => PageResponseView::Failed(m@),
        PageResponse::Accept => PageResponseView::Accept,
    }
}

/// The decision on an answer: a redirect (3xx) goes to its `Location`
/// resolved against the requested page; any other status but 2xx fails; a
/// declared content type must be HTML or XHTML; a declared length must not
/// exceed 2 MB.
pub open spec fn page_response_spec(
    url: UrlView,
    status: u16,
    location: Option<Seq<char>>,
    content_type: Option<Seq<char>>,
    content_length: Option<u64>,
) -> PageResponseView {
    if 300 <= status <= 399 {
        match location {
            None => PageResponseView::Failed("官网返回了无效重定向"@),
            Some(l) => match url_joined(url.serialization, l) {
                None => PageResponseView::Failed("官网重定向地址无效"@),
                Some(u) => PageResponseView::Redirect(u),
            },
        }
    } else if !(200 <= status <= 299) {
        PageResponseView::Failed("官网返回 HTTP "@ + decimal(status as nat))
    } else if content_type is Some && !crate::text::contains(
        crate::text::lower(content_type->0),
        "text/html"@,
    ) && !crate::text::contains(crate::text::lower(content_type->0), "application/xhtml"@) {
        PageResponseView::Failed("官网首页不是 HTML 页面"@)
    } else if (match content_length {
        Some(n) => n,
        None => 0,
    }) > MAX_RESPONSE_BYTES {
        PageResponseView::Failed("官网页面超过 2 MB 限制"@)
    } else {
        PageResponseView::Accept
    }
}

pub fn classify_page_response(
    url: &ParsedUrl,
    status: u16,
    location: Option<String>,
    content_type: Option<String>,
    content_length: Option<u64>,
) -> (res: PageResponse)
    ensures
        page_response_view(res) == page_response_spec(
            url@,
            status,
            opt_str(location),
            opt_str(content_type),
            content_length,
        ),
{
    if 300 <= status && status <= 399 {
        return match location {
            None => PageResponse::Failed(owned("官网返回了无效重定向")),
            Some(l) => match join_url(url.serialization.as_str(), l.as_str()) {
                None => PageResponse::Failed(owned("官网重定向地址无效")),
                Some(u) => PageResponse::Redirect(u),
            },
        };
    }
    if !(200 <= status && status <= 299) {
        let mut m = crate::text::chars_of("官网返回 HTTP ");
        let d = decimal_string(status as u64);
        crate::text::append_str(&mut m, d.as_str());
        return PageResponse::Failed(crate::text::string_from_chars(&m));
    }
    if let Some(ct) = &content_type {
        let c = crate::text::chars_of(ct.as_str());
        let lc = crate::text::lower_chars(&c);
        if !crate::text::contains_str(&lc, "text/html") && !crate::text::contains_str(
            &lc,
            "application/xhtml",
        ) {
            return PageResponse::Failed(owned("官网首页不是 HTML 页面"));
        }
    }
    let len = match content_length {
        Some(n) => n,
        None => 0,
    };
    if len > MAX_RESPONSE_BYTES {
        return PageResponse::Failed(owned("官网页面超过 2 MB 限制"));
    }
    PageResponse::Accept
}

/// A body read in full must not exceed 2 MB either.
pub fn check_body_size(len: usize) -> (res: Result<(), String>)
    ensures
        res is Ok <==> len <= MAX_RESPONSE_BYTES,
        res matches Err(m) ==> m@ == "官网页面超过 2 MB 限制"@,
{
    if len as u64 > MAX_RESPONSE_BYTES {
        Err(owned("官网页面超过 2 MB 限制"))
    } else {
        Ok(())
    }
}

/// The message of a fetch that kept being redirected.
pub fn too_many_redirects() -> (res: String)
    ensures
        res@ == "官网重定向次数过多"@,
{
    owned("官网重定向次数过多")
}

/// The robots file of a page's site: the page with path `/robots.txt` and
/// no query or fragment.
pub open spec fn robots_url_spec(base: UrlView) -> Option<UrlView> {
    match url_path_set(base.serialization, "/robots.txt"@) {
        None => None,
        Some(a) => match url_query_cleared(a.serialization) {
            None => None,
            Some(b) => url_fragment_cleared(b.serialization),
        },
    }
}

pub fn robots_url(base: &ParsedUrl) -> (res: Option<ParsedUrl>)
    ensures
        url_opt_view(res) == robots_url_spec(base@),
{
    let a = match set_url_path(base.serialization.as_str(), "/robots.txt") {
        None => return None,
        Some(a) => a,
    };
    let b = match clear_url_query(a.serialization.as_str()) {
        None => return None,
        Some(b) => b,
    };
    clear_url_fragment(b.serialization.as_str())
}

/// A robots file is used only when the answer is `200 OK` and declares at
/// most 256 KiB.
pub fn accept_robots_response(status: u16, content_length: Option<u64>) -> (res: bool)
    ensures
        res == (status == 200 && (match content_length {
            Some(n) => n,
            None => 0,
        }) <= 262144),
{
    let len = match content_length {
        Some(n) => n,
        None => 0,
    };
    status == 200 && len <= 262144
}

/// The delay between two requests to one site, in milliseconds.
pub const HOST_REQUEST_DELAY_MS: u64 = 1000;

/// When the next request to a site may go out: one second after the last
/// one scheduled there, but not before now.
pub open spec fn next_request_time(last_scheduled: Option<u64>, now: u64) -> int {
    let next = match last_scheduled {
        Some(t) => t + HOST_REQUEST_DELAY_MS,
        None => now as int,
    };
    if next > now {
        next
    } else {
        now as int
    }
}

/// Requests to one site go out at least a second apart, never before they
/// are asked for, and without waiting when the site was not asked lately.
pub proof fn lemma_requests_spaced(last_scheduled: Option<u64>, now: u64)
    ensures
        next_request_time(last_scheduled, now) >= now,
        last_scheduled matches Some(t) ==> next_request_time(last_scheduled, now) >= t + HOST_REQUEST_DELAY_MS,
        last_scheduled is None ==> next_request_time(last_scheduled, now) == now,
{
}

/// The times at which a run of requests to one site go out, when each is
/// asked for at `nows[i]` and handed the time the one before it was given
/// (`last` for the first).
pub open spec fn request_schedule(last: Option<u64>, nows: Seq<u64>) -> Seq<int>
    decreases nows.len(),
{
    if nows.len() == 0 {
        Seq::empty()
    } else {
        let t = next_request_time(last, nows[0]);
        seq![t] + request_schedule(Some(t as u64), nows.drop_first())
    }
}

/// A run of requests to one site goes out one a second at most: each no
/// earlier than it was asked for, at least a second after the one before,
/// so the `i`-th at least `i` seconds after the first was asked for (and
/// `i + 1` seconds after `last`). The times stay on the clock while the
/// run is shorter than the clock's room above `bound`.
pub proof fn lemma_schedule_spaced(last: Option<u64>, nows: Seq<u64>, bound: u64)
    requires
        forall|i: int| 0 <= i < nows.len() ==> nows[i] <= bound,
        last matches Some(t) ==> t <= bound,
        bound + HOST_REQUEST_DELAY_MS * (nows.len() + 1) <= u64::MAX,
    ensures
        request_schedule(last, nows).len() == nows.len(),
        forall|i: int|
            0 <= i < nows.len() ==> #[trigger] request_schedule(last, nows)[i] >= nows[i],
        forall|i: int|
            0 < i < nows.len() ==> #[trigger] request_schedule(last, nows)[i] >= request_schedule(
                last,
                nows,
            )[i - 1] + HOST_REQUEST_DELAY_MS,
        forall|i: int|
            0 <= i < nows.len() ==> #[trigger] request_schedule(last, nows)[i] >= nows[0]
                + HOST_REQUEST_DELAY_MS * i,
        forall|i: int|
            0 <= i < nows.len() ==> #[trigger] request_schedule(last, nows)[i] <= bound
                + HOST_REQUEST_DELAY_MS * (i + 1),
        last matches Some(t) ==> forall|i: int|
            0 <= i < nows.len() ==> #[trigger] request_schedule(last, nows)[i] >= t
                + HOST_REQUEST_DELAY_MS * (i + 1),
    decreases nows.len(),
{
    if nows.len() > 0 {
        let t = next_request_time(last, nows[0]);
        let rest = nows.drop_first();
        let b2 = (bound + HOST_REQUEST_DELAY_MS) as u64;
        lemma_schedule_spaced(Some(t as u64), rest, b2);
        let s = request_schedule(last, nows);
        let r = request_schedule(Some(t as u64), rest);
        assert(s =~= seq![t] + r);
        assert forall|i: int| 0 < i < nows.len() implies #[trigger] s[i] >= s[i - 1]
            + HOST_REQUEST_DELAY_MS by {
            assert(s[i] == r[i - 1]);
            if i > 1 {
                assert(s[i - 1] == r[i - 2]);
            }
        }
        assert forall|i: int| 0 <= i < nows.len() implies #[trigger] s[i] >= nows[0]
            + HOST_REQUEST_DELAY_MS * i by {
            if i > 0 {
                assert(s[i] == r[i - 1]);
                assert(r[i - 1] >= t + HOST_REQUEST_DELAY_MS * i);
            }
        }
        assert forall|i: int| 0 <= i < nows.len() implies #[trigger] s[i] >= nows[i] by {
            if i > 0 {
                assert(s[i] == r[i - 1]);
                assert(rest[i - 1] == nows[i]);
            }
        }
        assert forall|i: int| 0 <= i < nows.len() implies #[trigger] s[i] <= bound
            + HOST_REQUEST_DELAY_MS * (i + 1) by {
            if i > 0 {
                assert(s[i] == r[i - 1]);
            }
        }
        if let Some(t0) = last {
            assert forall|i: int| 0 <= i < nows.len() implies #[trigger] s[i] >= t0
                + HOST_REQUEST_DELAY_MS * (i + 1) by {
                if i > 0 {
                    assert(s[i] == r[i - 1]);
                    assert(r[i - 1] >= t + HOST_REQUEST_DELAY_MS * i);
                }
            }
        }
    }
}

/// When a request goes out depends only on the requests before it: the
/// schedule of the first `k` requests is the start of the whole run's.
pub proof fn lemma_schedule_prefix(last: Option<u64>, nows: Seq<u64>, k: int)
    requires
        0 <= k <= nows.len(),
    ensures
        request_schedule(last, nows.take(k)) == request_schedule(last, nows).take(k),
    decreases k,
{
    lemma_schedule_len(last, nows);
    lemma_schedule_len(last, nows.take(k));
    if k > 0 {
        let t = next_request_time(last, nows[0]);
        assert(nows.take(k).drop_first() =~= nows.drop_first().take(k - 1));
        lemma_schedule_prefix(Some(t as u64), nows.drop_first(), k - 1);
        assert(request_schedule(last, nows.take(k)) =~= request_schedule(last, nows).take(k));
    } else {
        assert(request_schedule(last, nows.take(k)) =~= request_schedule(last, nows).take(k));
    }
}

proof fn lemma_schedule_len(last: Option<u64>, nows: Seq<u64>)
    ensures
        request_schedule(last, nows).len() == nows.len(),
    decreases nows.len(),
{
    if nows.len() > 0 {
        lemma_schedule_len(Some(next_request_time(last, nows[0]) as u64), nows.drop_first());
    }
}

/// When the next request to a site may go out, and how long to wait for
/// it (see `next_request_time`). Times are milliseconds on one clock.
pub fn throttle_delay(last_scheduled: Option<u64>, now: u64) -> (res: (u64, u64))
    requires
        last_scheduled matches Some(t) ==> t + HOST_REQUEST_DELAY_MS <= u64::MAX,
    ensures
        res.0 == next_request_time(last_scheduled, now),
        res.1 == next_request_time(last_scheduled, now) - now,
{
    let next = match last_scheduled {
        Some(t) => t + HOST_REQUEST_DELAY_MS,
        None => now,
    };
    let scheduled = if next > now {
        next
    } else {
        now
    };
    (scheduled, scheduled - now)
}

} // verus!
