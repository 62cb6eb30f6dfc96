//! Filling in the address column of an exported CSV file: which of the
//! addresses found on a business's website belongs in its row.
use vstd::prelude::*;

use crate::crawl::{opt_str, pair_views};
use crate::models::{EmailCsvResult, WebsiteResult};
use crate::csvfile::{bom, csv_written, prefix_bom, write_csv_records, csv_read, read_csv_table, rows_view, CsvRead, CsvReadView, csv_read_view};
use crate::models::strs;
use crate::order::lex_lt;
use crate::text::{
    append_chars, append_str, ascii_alnum, chars_of, contains, contains_sub, eq_str, find_char,
    find_char_exec, in_list, is_ascii_alnum, lemma_find_char_bounds, lower, lower_chars, starts_with,
    string_from_chars, sub_chars, trim, trim_chars, views, is_blank, empty_string, string_from_utf8, byte_len, byte_len_above, concat_strs, owned, blank, trim_str,
};
use crate::urls::{parse_url, strip_www, strip_www_exec, url_parsed};

verus! {

// ---------------------------------------------------------------------------
// Plain helpers
// ---------------------------------------------------------------------------

/// The ASCII letters and digits of a text.
pub open spec fn compact_spec(s: Seq<char>) -> Seq<char> {
    s.filter(|c: char| is_ascii_alnum(c))
}

pub fn compact(value: &Vec<char>) -> (res: Vec<char>)
    ensures
        res@ == compact_spec(value@),
{
    let mut out: Vec<char> = Vec::new();
    let mut i: usize = 0;
    while i < value.len()
        invariant
            i <= value.len(),
            out@ == value@.take(i as int).filter(|c: char| is_ascii_alnum(c)),
        decreases value.len() - i,
    {
        proof {
            assert(value@.take(i + 1).drop_last() =~= value@.take(i as int));
            reveal(Seq::filter);
        }
        if ascii_alnum(value[i]) {
            out.push(value[i]);
        }
        i = i + 1;
    }
    assert(value@.take(i as int) =~= value@);
    out
}

/// The host of a website field: the trimmed field, with `https://` put in
/// front unless it starts with `http://` or `https://`, parsed; its host in
/// lower case without leading `www.`; empty when there is none.
pub open spec fn site_host(raw: Seq<char>) -> Seq<char> {
    let v = trim(raw);
    let text = if starts_with(v, "http://"@) || starts_with(v, "https://"@) {
        v
    } else {
        "https://"@ + v
    };
    strip_www(
        match url_parsed(text) {
            Some(u) => match u.host {
                Some(h) => lower(h),
                None => Seq::empty(),
            },
            None => Seq::empty(),
        },
    )
}

pub fn normalized_host(raw_url: &str) -> (res: Vec<char>)
    ensures
        res@ == site_host(raw_url@),
{
    let cs = chars_of(raw_url);
    let v = trim_chars(&cs);
    let http = chars_of("http://");
    let https = chars_of("https://");
    let text = if crate::text::has_prefix(&v, &http) || crate::text::has_prefix(&v, &https) {
        string_from_chars(&v)
    } else {
        let mut t = chars_of("https://");
        append_chars(&mut t, &v);
        string_from_chars(&t)
    };
    let host = match parse_url(text.as_str()) {
        Some(u) => match &u.host {
            Some(h) => {
                let hc = chars_of(h.as_str());
                lower_chars(&hc)
            },
            None => Vec::new(),
        },
        None => Vec::new(),
    };
    strip_www_exec(&host)
}

// ---------------------------------------------------------------------------
// Runs of letters and digits
// ---------------------------------------------------------------------------

/// The length of the run of ASCII letters and digits that starts `s`.
pub open spec fn run_len(s: Seq<char>) -> nat
    decreases s.len(),
{
    if s.len() == 0 || !is_ascii_alnum(s[0]) {
        0
    } else {
        1 + run_len(s.drop_first())
    }
}

/// The non-empty pieces of `s` split at every character that is not an
/// ASCII letter or digit.
pub open spec fn alnum_runs(s: Seq<char>) -> Seq<Seq<char>>
    decreases s.len(),
{
    if s.len() == 0 {
        Seq::empty()
    } else if !is_ascii_alnum(s[0]) {
        alnum_runs(s.drop_first())
    } else {
        let n = run_len(s);
        if 0 < n <= s.len() {
            seq![s.take(n as int)] + alnum_runs(s.skip(n as int))
        } else {
            Seq::empty()
        }
    }
}

/// The pieces of at least four characters.
pub open spec fn long_tokens(s: Seq<char>) -> Seq<Seq<char>> {
    alnum_runs(s).filter(|t: Seq<char>| t.len() >= 4)
}

proof fn lemma_run_len(s: Seq<char>, i: int, j: int)
    requires
        0 <= i <= j <= s.len(),
        forall|k: int| i <= k < j ==> is_ascii_alnum(#[trigger] s[k]),
        j == s.len() || !is_ascii_alnum(s[j]),
    ensures
        run_len(s.skip(i)) == j - i,
    decreases j - i,
{
    if i < j {
        lemma_run_len(s, i + 1, j);
        assert(s.skip(i).drop_first() =~= s.skip(i + 1));
    } else if j < s.len() {
        assert(s.skip(i)[0] == s[j]);
    }
}

pub fn long_tokens_exec(s: &Vec<char>) -> (res: Vec<Vec<char>>)
    ensures
        views(res@) == long_tokens(s@),
{
    let n = s.len();
    let mut out: Vec<Vec<char>> = Vec::new();
    let ghost mut acc: Seq<Seq<char>> = Seq::empty();
    let mut i: usize = 0;
    assert(s@.skip(0) =~= s@);
    while i < n
        invariant
            i <= n == s.len(),
            alnum_runs(s@) == acc + alnum_runs(s@.skip(i as int)),
            views(out@) == acc.filter(|t: Seq<char>| t.len() >= 4),
        decreases n - i,
    {
        if !ascii_alnum(s[i]) {
            assert(s@.skip(i as int).drop_first() =~= s@.skip(i + 1));
            i = i + 1;
        } else {
            let mut j = i;
            while j < n && ascii_alnum(s[j])
                invariant
                    i <= j <= n == s.len(),
                    forall|k: int| i <= k < j ==> is_ascii_alnum(#[trigger] s@[k]),
                decreases n - j,
            {
                j = j + 1;
            }
            proof {
                lemma_run_len(s@, i as int, j as int);
                assert(s@.skip(i as int).take(j - i) =~= s@.subrange(i as int, j as int));
                assert(s@.skip(i as int).skip(j - i) =~= s@.skip(j as int));
                assert(alnum_runs(s@.skip(i as int)) == seq![s@.subrange(i as int, j as int)]
                    + alnum_runs(s@.skip(j as int)));
            }
            let w = sub_chars(s, i, j);
            proof {
                assert(acc.push(w@).drop_last() =~= acc);
                reveal(Seq::filter);
            }
            if j - i >= 4 {
                out.push(w);
                assert(views(out@) =~= acc.push(s@.subrange(i as int, j as int)).filter(
                    |t: Seq<char>| t.len() >= 4,
                ));
            } else {
                assert(views(out@) =~= acc.push(s@.subrange(i as int, j as int)).filter(
                    |t: Seq<char>| t.len() >= 4,
                ));
            }
            proof {
                assert(alnum_runs(s@) =~= acc.push(s@.subrange(i as int, j as int)) + alnum_runs(
                    s@.skip(j as int),
                ));
                acc = acc.push(s@.subrange(i as int, j as int));
            }
            i = j;
        }
    }
    assert(s@.skip(i as int) =~= Seq::<char>::empty());
    assert(acc + Seq::<Seq<char>>::empty() =~= acc);
    out
}

// ---------------------------------------------------------------------------
// Choosing the address of a row
// ---------------------------------------------------------------------------

pub open spec fn free_email_domains() -> Seq<Seq<char>> {
    seq![
        "gmail.com"@, "googlemail.com"@, "hotmail.com"@, "outlook.com"@, "live.com"@,
        "icloud.com"@, "me.com"@, "yahoo.com"@, "yahoo.ca"@, "yahoo.com.au"@, "proton.me"@,
        "protonmail.com"@, "aol.com"@, "comcast.net"@, "cox.net"@,
    ]
}

fn free_email_domain_list() -> (res: Vec<&'static str>)
    ensures
        res@.map_values(|s: &str| s@) == free_email_domains(),
{
    let v = vec![
        "gmail.com", "googlemail.com", "hotmail.com", "outlook.com", "live.com", "icloud.com",
        "me.com", "yahoo.com", "yahoo.ca", "yahoo.com.au", "proton.me", "protonmail.com",
        "aol.com", "comcast.net", "cox.net",
    ];
    assert(v@.map_values(|s: &str| s@) =~= free_email_domains());
    v
}

/// How much a generic mailbox name is worth as a business contact.
pub open spec fn mailbox_score(local: Seq<char>) -> int {
    if local == "info"@ || local == "contact"@ {
        8
    } else if local == "hello"@ || local == "support"@ {
        7
    } else if local == "service"@ || local == "customerservice"@ || local == "customer.service"@ {
        6
    } else if local == "sales"@ || local == "office"@ || local == "enquiries"@ || local
        == "inquiries"@ {
        4
    } else if local == "orders"@ {
        3
    } else {
        0
    }
}

fn mailbox_score_exec(local: &Vec<char>) -> (res: i32)
    ensures
        res == mailbox_score(local@),
{
    if eq_str(local, "info") || eq_str(local, "contact") {
        8
    } else if eq_str(local, "hello") || eq_str(local, "support") {
        7
    } else if eq_str(local, "service") || eq_str(local, "customerservice") || eq_str(
        local,
        "customer.service",
    ) {
        6
    } else if eq_str(local, "sales") || eq_str(local, "office") || eq_str(local, "enquiries")
        || eq_str(local, "inquiries") {
        4
    } else if eq_str(local, "orders") {
        3
    } else {
        0
    }
}

pub open spec fn penalty_words() -> Seq<Seq<char>> {
    seq!["privacy"@, "dpo"@, "legal"@, "newsletter"@, "marketing"@, "career"@, "job"@]
}

fn penalty_word_list() -> (res: Vec<&'static str>)
    ensures
        res@.map_values(|s: &str| s@) == penalty_words(),
{
    let v = vec!["privacy", "dpo", "legal", "newsletter", "marketing", "career", "job"];
    assert(v@.map_values(|s: &str| s@) =~= penalty_words());
    v
}

/// The part of an address before its first `@`.
pub open spec fn first_local(e: Seq<char>) -> Seq<char> {
    e.take(find_char(e, '@'))
}

/// The part of an address after its first `@`.
pub open spec fn first_domain(e: Seq<char>) -> Seq<char> {
    e.skip(find_char(e, '@') + 1)
}

/// The lower-cased text of a row that tokens are looked up in.
pub open spec fn row_context(name: Seq<char>, address: Seq<char>, category: Seq<char>) -> Seq<char> {
    lower(name + " "@ + address + " "@ + category)
}

/// An address may belong to a row when its domain is a free mail
/// provider, is the website's host, shares its letters and digits with the
/// host, or contains a word of at least four characters from the host or
/// from the row's name, address and category.
pub open spec fn is_candidate(e: Seq<char>, host: Seq<char>, context: Seq<char>) -> bool {
    let domain = first_domain(e);
    let dc = compact_spec(domain);
    let sc = compact_spec(host);
    let tokens = long_tokens(host + " "@ + context);
    &&& e.contains('@')
    &&& {
        ||| free_email_domains().contains(domain)
        ||| domain == host
        ||| (sc.len() > 0 && (contains(dc, sc) || contains(sc, dc)))
        ||| exists|k: int| 0 <= k < tokens.len() && contains(dc, #[trigger] tokens[k])
    }
}

/// How well an address fits a row: its generic mailbox worth, 4 more when
/// its domain is the website's host, 2 more when its name shares a word of
/// at least four characters with the row, 4 less for privacy, legal,
/// marketing and job mailboxes.
pub open spec fn email_score(e: Seq<char>, host: Seq<char>, context: Seq<char>) -> int {
    let local = first_local(e);
    let domain = first_domain(e);
    let tokens = long_tokens(local);
    mailbox_score(local) + (if domain == host || strip_www(domain) == host {
        4int
    } else {
        0int
    }) + (if exists|k: int| 0 <= k < tokens.len() && contains(context, #[trigger] tokens[k]) {
        2int
    } else {
        0int
    }) - (if crate::pages::mentions_any(local, penalty_words()) {
        4int
    } else {
        0int
    })
}

/// `a` ranks above `b`: a higher score, or an equal score and a later place
/// in the string order.
pub open spec fn ranks_above(a: Seq<char>, b: Seq<char>, host: Seq<char>, context: Seq<char>) -> bool {
    email_score(a, host, context) > email_score(b, host, context) || (email_score(a, host, context)
        == email_score(b, host, context) && lex_lt(b, a))
}

/// None of the words of at least four characters in `local` occurs in the
/// row's text.
pub open spec fn shares_no_word(local: Seq<char>, context: Seq<char>) -> bool {
    forall|k: int| 0 <= k < long_tokens(local).len() ==> !contains(context, #[trigger] long_tokens(local)[k])
}

/// Privacy, data-protection, legal, newsletter, marketing and job mailboxes
/// are worth four points less than an otherwise equal address: of two
/// addresses at one domain, with equally generic mailbox names and no word
/// shared with the row, the one whose name holds such a word scores four
/// less, ranks below the other and is never chosen while the other is a
/// candidate.
pub proof fn lemma_penalty_mailboxes_rank_lower(
    emails: Seq<Seq<char>>,
    e1: Seq<char>,
    e2: Seq<char>,
    host: Seq<char>,
    context: Seq<char>,
)
    requires
        first_domain(e1) == first_domain(e2),
        mailbox_score(first_local(e1)) == mailbox_score(first_local(e2)),
        shares_no_word(first_local(e1), context),
        shares_no_word(first_local(e2), context),
        crate::pages::mentions_any(first_local(e1), penalty_words()),
        !crate::pages::mentions_any(first_local(e2), penalty_words()),
    ensures
        email_score(e1, host, context) + 4 == email_score(e2, host, context),
        ranks_above(e2, e1, host, context),
        emails.contains(e2) && is_candidate(e2, host, context) ==> !is_best(emails, e1, host, context),
{
    if emails.contains(e2) && is_candidate(e2, host, context) {
        let i = choose|i: int| 0 <= i < emails.len() && emails[i] == e2;
        assert(is_candidate(emails[i], host, context) && ranks_above(emails[i], e1, host, context));
    }
}

/// An address at the website's own domain (or that domain with `www.`) is
/// worth four points more than the same mailbox at another domain.
pub proof fn lemma_own_domain_ranks_higher(e1: Seq<char>, e2: Seq<char>, host: Seq<char>, context: Seq<char>)
    requires
        first_local(e1) == first_local(e2),
        first_domain(e1) == host || strip_www(first_domain(e1)) == host,
        first_domain(e2) != host,
        strip_www(first_domain(e2)) != host,
    ensures
        email_score(e1, host, context) == email_score(e2, host, context) + 4,
        ranks_above(e1, e2, host, context),
{
}

/// An address whose mailbox name shares a word of at least four characters
/// with the row's name, address or category is worth two points more than
/// an otherwise equal one that shares none.
pub proof fn lemma_shared_word_ranks_higher(e1: Seq<char>, e2: Seq<char>, host: Seq<char>, context: Seq<char>)
    requires
        first_domain(e1) == first_domain(e2),
        mailbox_score(first_local(e1)) == mailbox_score(first_local(e2)),
        crate::pages::mentions_any(first_local(e1), penalty_words()) == crate::pages::mentions_any(
            first_local(e2),
            penalty_words(),
        ),
        !shares_no_word(first_local(e1), context),
        shares_no_word(first_local(e2), context),
    ensures
        email_score(e1, host, context) == email_score(e2, host, context) + 2,
        ranks_above(e1, e2, host, context),
{
}

/// `e` is one of `emails`, may belong to the row, and no other candidate
/// ranks above it.
pub open spec fn is_best(emails: Seq<Seq<char>>, e: Seq<char>, host: Seq<char>, context: Seq<char>) -> bool {
    &&& emails.contains(e)
    &&& is_candidate(e, host, context)
    &&& forall|i: int|
        0 <= i < emails.len() && is_candidate(#[trigger] emails[i], host, context) ==> !ranks_above(
            emails[i],
            e,
            host,
            context,
        )
}

/// The address that belongs in a row, if any address may.
pub open spec fn best_email(emails: Seq<Seq<char>>, host: Seq<char>, context: Seq<char>) -> Option<
    Seq<char>,
> {
    if exists|e: Seq<char>| is_best(emails, e, host, context) {
        Some(choose|e: Seq<char>| is_best(emails, e, host, context))
    } else {
        None
    }
}

/// At most one address is best: the ranking is a strict total order.
pub proof fn lemma_best_unique(emails: Seq<Seq<char>>, a: Seq<char>, b: Seq<char>, host: Seq<char>, context: Seq<char>)
    requires
        is_best(emails, a, host, context),
        is_best(emails, b, host, context),
    ensures
        a == b,
{
    let ia = choose|i: int| 0 <= i < emails.len() && emails[i] == a;
    let ib = choose|i: int| 0 <= i < emails.len() && emails[i] == b;
    assert(!ranks_above(emails[ia], b, host, context));
    assert(!ranks_above(emails[ib], a, host, context));
    crate::order::lemma_lex_total(a, b);
}

fn any_contained_in(text: &Vec<char>, tokens: &Vec<Vec<char>>) -> (res: bool)
    ensures
        res == exists|k: int| 0 <= k < tokens.len() && contains(text@, #[trigger] views(tokens@)[k]),
{
    let mut i: usize = 0;
    while i < tokens.len()
        invariant
            i <= tokens.len(),
            forall|k: int| 0 <= k < i ==> !contains(text@, #[trigger] views(tokens@)[k]),
        decreases tokens.len() - i,
    {
        if contains_sub(text, &tokens[i]) {
            assert(views(tokens@)[i as int] == tokens@[i as int]@);
            return true;
        }
        assert(views(tokens@)[i as int] == tokens@[i as int]@);
        i = i + 1;
    }
    false
}

fn candidate_exec(e: &Vec<char>, host: &Vec<char>, tokens: &Vec<Vec<char>>, context: &Vec<char>) -> (res:
    bool)
    requires
        views(tokens@) == long_tokens(host@ + " "@ + context@),
    ensures
        res == is_candidate(e@, host@, context@),
{
    let at = find_char_exec(e, '@');
    proof {
        lemma_find_char_bounds(e@, '@');
    }
    if at >= e.len() {
        return false;
    }
    let domain = sub_chars(e, at + 1, e.len());
    assert(domain@ == first_domain(e@));
    let free = free_email_domain_list();
    if in_list(&domain, &free) {
        return true;
    }
    if crate::text::seq_eq(&domain, host) {
        return true;
    }
    let dc = compact(&domain);
    let sc = compact(host);
    if sc.len() > 0 && (contains_sub(&dc, &sc) || contains_sub(&sc, &dc)) {
        return true;
    }
    any_contained_in(&dc, tokens)
}

fn score_exec(e: &Vec<char>, host: &Vec<char>, context: &Vec<char>) -> (res: i32)
    requires
        e@.contains('@'),
    ensures
        res == email_score(e@, host@, context@),
{
    let at = find_char_exec(e, '@');
    proof {
        lemma_find_char_bounds(e@, '@');
    }
    assert(at < e.len());
    let local = sub_chars(e, 0, at);
    let domain = sub_chars(e, at + 1, e.len());
    assert(local@ == first_local(e@));
    assert(domain@ == first_domain(e@));
    let mut score = mailbox_score_exec(&local);
    let stripped = strip_www_exec(&domain);
    if crate::text::seq_eq(&domain, host) || crate::text::seq_eq(&stripped, host) {
        score = score + 4;
    }
    let tokens = long_tokens_exec(&local);
    if any_contained_in(context, &tokens) {
        score = score + 2;
    }
    let penalties = penalty_word_list();
    if crate::pages::mentions_any_exec(&local, &penalties) {
        score = score - 4;
    }
    score
}

/// The address of a row: among the candidates (see `is_candidate`), the one
/// that ranks highest (see `ranks_above`); none without candidates.
pub fn choose_email(
    emails: &Vec<String>,
    website: &str,
    name: &str,
    address: &str,
    category: &str,
) -> (res: Option<String>)
    ensures
        ({
            let host = site_host(website@);
            let context = row_context(name@, address@, category@);
            match res {
                None => forall|i: int|
                    0 <= i < emails.len() ==> !is_candidate(#[trigger] emails@[i]@, host, context),
                Some(r) => {
                    &&& strs(emails@).contains(r@)
                    &&& is_candidate(r@, host, context)
                    &&& forall|i: int|
                        0 <= i < emails.len() && is_candidate(#[trigger] emails@[i]@, host, context)
                            ==> !ranks_above(emails@[i]@, r@, host, context)
                }
            }
        }),
        opt_str(res) == best_email(strs(emails@), site_host(website@), row_context(name@, address@, category@)),
{
    let ghost host_s = site_host(website@);
    let ghost context_s = row_context(name@, address@, category@);
    let host = normalized_host(website);
    let mut ctx_raw = chars_of(name);
    append_str(&mut ctx_raw, " ");
    append_str(&mut ctx_raw, address);
    append_str(&mut ctx_raw, " ");
    append_str(&mut ctx_raw, category);
    let context = lower_chars(&ctx_raw);
    let mut both = host.clone();
    both.push(' ');
    append_chars(&mut both, &context);
    proof {
        reveal_strlit(" ");
        assert(both@ =~= host@ + " "@ + context@);
    }
    let tokens = long_tokens_exec(&both);
    let mut best: Option<(i32, usize)> = None;
    let mut i: usize = 0;
    while i < emails.len()
        invariant
            i <= emails.len(),
            host@ == host_s,
            context@ == context_s,
            views(tokens@) == long_tokens(host@ + " "@ + context@),
            match best {
                None => forall|j: int| 0 <= j < i ==> !is_candidate(#[trigger] emails@[j]@, host_s, context_s),
                Some((s, b)) => {
                    &&& b < i
                    &&& is_candidate(emails@[b as int]@, host_s, context_s)
                    &&& s == email_score(emails@[b as int]@, host_s, context_s)
                    &&& forall|j: int|
                        0 <= j < i && is_candidate(#[trigger] emails@[j]@, host_s, context_s)
                            ==> !ranks_above(emails@[j]@, emails@[b as int]@, host_s, context_s)
                },
            },
        decreases emails.len() - i,
    {
        let e = chars_of(emails[i].as_str());
        if candidate_exec(&e, &host, &tokens, &context) {
            let s = score_exec(&e, &host, &context);
            let replace = match best {
                None => true,
                Some((bs, b)) => {
                    let be = &emails[b];
                    s > bs || (s == bs && !crate::order::string_less(&emails[i], be))
                },
            };
            if replace {
                proof {
                    if let Some((bs, b)) = best {
                        assert forall|j: int|
                            0 <= j < i + 1 && is_candidate(#[trigger] emails@[j]@, host_s, context_s)
                                implies !ranks_above(emails@[j]@, emails@[i as int]@, host_s, context_s) by {
                            if j < i {
                                assert(!ranks_above(emails@[j]@, emails@[b as int]@, host_s, context_s));
                                crate::order::lemma_lex_total(emails@[j]@, emails@[b as int]@);
                                crate::order::lemma_lex_total(emails@[b as int]@, emails@[i as int]@);
                                if lex_lt(emails@[i as int]@, emails@[j]@) && lex_lt(emails@[b as int]@, emails@[i as int]@) {
                                    crate::order::lemma_lex_transitive(emails@[b as int]@, emails@[i as int]@, emails@[j]@);
                                }
                                if email_score(emails@[j]@, host_s, context_s) == s && lex_lt(emails@[i as int]@, emails@[j]@) {
                                    if emails@[b as int]@ == emails@[i as int]@ {
                                    } else {
                                        crate::order::lemma_lex_asymmetric(emails@[b as int]@, emails@[i as int]@);
                                    }
                                }
                            } else {
                                crate::order::lemma_lex_irreflexive(emails@[i as int]@);
                            }
                        }
                    } else {
                        assert forall|j: int|
                            0 <= j < i + 1 && is_candidate(#[trigger] emails@[j]@, host_s, context_s)
                                implies !ranks_above(emails@[j]@, emails@[i as int]@, host_s, context_s) by {
                            crate::order::lemma_lex_irreflexive(emails@[i as int]@);
                        }
                    }
                }
                best = Some((s, i));
            } else {
                proof {
                    let (bs, b) = best->0;
                    assert forall|j: int|
                        0 <= j < i + 1 && is_candidate(#[trigger] emails@[j]@, host_s, context_s)
                            implies !ranks_above(emails@[j]@, emails@[b as int]@, host_s, context_s) by {
                        if j == i {
                            crate::order::lemma_lex_asymmetric(emails@[i as int]@, emails@[b as int]@);
                        }
                    }
                }
            }
        }
        i = i + 1;
    }
    let ghost es = strs(emails@);
    match best {
        None => {
            assert forall|e: Seq<char>| !is_best(es, e, host_s, context_s) by {
                if is_best(es, e, host_s, context_s) {
                    let k = choose|k: int| 0 <= k < es.len() && es[k] == e;
                    assert(es[k] == emails@[k]@);
                }
            }
            None
        },
        Some((_, b)) => {
            assert(es[b as int] == emails@[b as int]@);
            let r = emails[b].clone();
            assert forall|k: int|
                0 <= k < es.len() && is_candidate(#[trigger] es[k], host_s, context_s) implies !ranks_above(
                es[k],
                r@,
                host_s,
                context_s,
            ) by {
                assert(es[k] == emails@[k]@);
            }
            assert(is_best(es, r@, host_s, context_s));
            proof {
                let c = choose|e: Seq<char>| is_best(es, e, host_s, context_s);
                lemma_best_unique(es, c, r@, host_s, context_s);
            }
            Some(r)
        },
    }
}


// ---------------------------------------------------------------------------
// Reading an exported CSV file and planning the crawls
// ---------------------------------------------------------------------------

/// The largest CSV text accepted, in bytes (10 MB).
pub const MAX_CSV_BYTES: usize = 10485760;

/// The columns that a file written by the export always has.
pub open spec fn required_columns() -> Seq<Seq<char>> {
    seq![
        "来源任务"@, "名称"@, "官网"@, "邮箱"@, "邮箱来源"@, "状态"@, "错误"@,
        "Google Maps 链接"@, "主营分类"@, "地址"@,
    ]
}

fn required_column_list() -> (res: Vec<&'static str>)
    ensures
        res@.map_values(|s: &str| s@) == required_columns(),
{
    let v = vec![
        "来源任务", "名称", "官网", "邮箱", "邮箱来源", "状态", "错误", "Google Maps 链接",
        "主营分类", "地址",
    ];
    assert(v@.map_values(|s: &str| s@) =~= required_columns());
    v
}

/// The text without the byte order marks that it starts with.
pub open spec fn strip_bom(s: Seq<char>) -> Seq<char>
    decreases s.len(),
{
    if s.len() > 0 && s[0] == '\u{feff}' {
        strip_bom(s.drop_first())
    } else {
        s
    }
}

/// `j` is the first header that reads `name` once trimmed.
pub open spec fn is_first_column(headers: Seq<Seq<char>>, name: Seq<char>, j: int) -> bool {
    &&& 0 <= j < headers.len()
    &&& trim(headers[j]) == name
    &&& forall|k: int| 0 <= k < j ==> trim(#[trigger] headers[k]) != name
}

/// The column of `name`: the first header that reads `name` once trimmed.
pub open spec fn column_of(headers: Seq<Seq<char>>, name: Seq<char>) -> Option<int> {
    if exists|j: int| is_first_column(headers, name, j) {
        Some(choose|j: int| is_first_column(headers, name, j))
    } else {
        None
    }
}

proof fn lemma_first_column_unique(headers: Seq<Seq<char>>, name: Seq<char>, a: int, b: int)
    requires
        is_first_column(headers, name, a),
        is_first_column(headers, name, b),
    ensures
        a == b,
{
    if a < b {
        assert(trim(headers[a]) != name);
    } else if b < a {
        assert(trim(headers[b]) != name);
    }
}

fn find_column(headers: &Vec<String>, name: &str) -> (res: Option<usize>)
    ensures
        match res {
            Some(j) => column_of(strs(headers@), name@) == Some(j as int),
            None => column_of(strs(headers@), name@) is None,
        },
{
    let ghost h = strs(headers@);
    let mut i: usize = 0;
    while i < headers.len()
        invariant
            i <= headers.len(),
            h == strs(headers@),
            forall|k: int| 0 <= k < i ==> trim(#[trigger] h[k]) != name@,
        decreases headers.len() - i,
    {
        let cs = chars_of(headers[i].as_str());
        let t = trim_chars(&cs);
        if eq_str(&t, name) {
            assert(is_first_column(h, name@, i as int));
            proof {
                let c = choose|j: int| is_first_column(h, name@, j);
                lemma_first_column_unique(h, name@, c, i as int);
            }
            return Some(i);
        }
        i = i + 1;
    }
    assert forall|j: int| !is_first_column(h, name@, j) by {
        if is_first_column(h, name@, j) {
            assert(trim(h[j]) != name@);
        }
    }
    None
}

/// The first of `names` that has no column.
pub open spec fn first_missing(headers: Seq<Seq<char>>, names: Seq<Seq<char>>) -> Option<Seq<char>>
    decreases names.len(),
{
    if names.len() == 0 {
        None
    } else if column_of(headers, names[0]) is None {
        Some(names[0])
    } else {
        first_missing(headers, names.drop_first())
    }
}

/// The message for a file that lacks a column of the export.
pub open spec fn missing_column_message(name: Seq<char>) -> Seq<char> {
    "文件不是工具导出的 CSV，缺少“"@ + name + "”列"@
}

/// Where the columns that filling in reads and writes stand.
#[derive(Clone, Copy, Debug)]
pub struct ScrapeColumns {
    pub website: usize,
    pub email: usize,
    pub source: usize,
    pub status: usize,
    pub error: usize,
    pub name: usize,
    pub address: usize,
    pub category: usize,
    pub summary: Option<usize>,
}

/// Each column is the one its header names.
pub open spec fn locates_columns(headers: Seq<Seq<char>>, c: ScrapeColumns) -> bool {
    &&& column_of(headers, "官网"@) == Some(c.website as int)
    &&& column_of(headers, "邮箱"@) == Some(c.email as int)
    &&& column_of(headers, "邮箱来源"@) == Some(c.source as int)
    &&& column_of(headers, "状态"@) == Some(c.status as int)
    &&& column_of(headers, "错误"@) == Some(c.error as int)
    &&& column_of(headers, "名称"@) == Some(c.name as int)
    &&& column_of(headers, "地址"@) == Some(c.address as int)
    &&& column_of(headers, "主营分类"@) == Some(c.category as int)
    &&& match c.summary {
        Some(k) => column_of(headers, "业务摘要"@) == Some(k as int),
        None => column_of(headers, "业务摘要"@) is None,
    }
}

/// Every column lies within a row of `width` fields.
pub open spec fn columns_within(c: ScrapeColumns, width: nat) -> bool {
    &&& c.website < width
    &&& c.email < width
    &&& c.source < width
    &&& c.status < width
    &&& c.error < width
    &&& c.name < width
    &&& c.address < width
    &&& c.category < width
    &&& (c.summary matches Some(k) ==> k < width)
}

/// A record cut or padded with empty fields to `width` fields.
pub open spec fn resized(record: Seq<Seq<char>>, width: nat) -> Seq<Seq<char>> {
    Seq::new(width, |i: int| if i < record.len() { record[i] } else { Seq::empty() })
}

pub open spec fn resized_all(records: Seq<Seq<Seq<char>>>, width: nat) -> Seq<Seq<Seq<char>>> {
    records.map_values(|r: Seq<Seq<char>>| resized(r, width))
}

/// A row is filled in when its address field is blank and its website
/// field is not.
pub open spec fn wants_email(row: Seq<Seq<char>>, c: ScrapeColumns) -> bool {
    is_blank(row[c.email as int]) && trim(row[c.website as int]).len() > 0
}

/// Rows whose websites agree once trimmed and lower-cased share a crawl.
pub open spec fn site_key(row: Seq<Seq<char>>, c: ScrapeColumns) -> Seq<char> {
    lower(trim(row[c.website as int]))
}

/// A website to crawl: the key of its rows and the address to start from.
pub struct ScrapeGroup {
    pub key: String,
    pub url: String,
}

pub open spec fn group_views(g: Seq<ScrapeGroup>) -> Seq<(Seq<char>, Seq<char>)> {
    g.map_values(|x: ScrapeGroup| (x.key@, x.url@))
}

/// A CSV file read for filling in: its headers, its rows, its columns, the
/// websites to crawl and, for each row, the website whose crawl fills it.
pub struct ScrapePlan {
    headers: Vec<String>,
    rows: Vec<Vec<String>>,
    columns: ScrapeColumns,
    groups: Vec<ScrapeGroup>,
    assignment: Vec<Option<usize>>,
}

pub ghost struct ScrapePlanView {
    pub headers: Seq<Seq<char>>,
    pub rows: Seq<Seq<Seq<char>>>,
    pub columns: ScrapeColumns,
    pub groups: Seq<(Seq<char>, Seq<char>)>,
    pub assignment: Seq<Option<usize>>,
}

impl View for ScrapePlan {
    type V = ScrapePlanView;

    closed spec fn view(&self) -> ScrapePlanView {
        ScrapePlanView {
            headers: strs(self.headers@),
            rows: rows_view(self.rows@),
            columns: self.columns,
            groups: group_views(self.groups@),
            assignment: self.assignment@,
        }
    }
}

/// Rows as wide as the headers, columns within them, and every row's
/// website among the groups.
pub open spec fn plan_shape(v: ScrapePlanView) -> bool {
    &&& v.assignment.len() == v.rows.len()
    &&& forall|i: int| 0 <= i < v.rows.len() ==> (#[trigger] v.rows[i]).len() == v.headers.len()
    &&& columns_within(v.columns, v.headers.len())
    &&& forall|i: int|
        0 <= i < v.assignment.len() && (#[trigger] v.assignment[i]) is Some ==> v.assignment[i]->0
            < v.groups.len()
}

/// The row goes to group `g`.
pub open spec fn assigned_to(a: Option<usize>, g: int) -> bool {
    a matches Some(x) && x == g
}

/// `i` is the first row that group `g` fills.
pub open spec fn first_of_group(assignment: Seq<Option<usize>>, g: int, i: int) -> bool {
    &&& 0 <= i < assignment.len()
    &&& assigned_to(assignment[i], g)
    &&& forall|j: int| 0 <= j < i ==> !assigned_to(#[trigger] assignment[j], g)
}

/// Some row goes to group `g`.
pub open spec fn group_has_rows(assignment: Seq<Option<usize>>, g: int) -> bool {
    exists|i: int| #[trigger] first_of_group(assignment, g, i)
}

/// The groups are the distinct website keys of the rows to fill in, in the
/// order of their first rows, each starting from its first row's trimmed
/// website; each row to fill in belongs to the group of its key.
pub open spec fn rows_grouped(
    rows: Seq<Seq<Seq<char>>>,
    c: ScrapeColumns,
    groups: Seq<(Seq<char>, Seq<char>)>,
    assignment: Seq<Option<usize>>,
) -> bool {
    &&& assignment.len() == rows.len()
    &&& forall|i: int|
        0 <= i < rows.len() ==> ((#[trigger] assignment[i]) is Some <==> wants_email(rows[i], c))
    &&& forall|i: int|
        0 <= i < rows.len() && (#[trigger] assignment[i]) is Some ==> assignment[i]->0 < groups.len()
            && groups[assignment[i]->0 as int].0 == site_key(rows[i], c)
    &&& forall|a: int, b: int|
        0 <= a < b < groups.len() ==> (#[trigger] groups[a]).0 != (#[trigger] groups[b]).0
    &&& forall|g: int| 0 <= g < groups.len() ==> #[trigger] group_has_rows(assignment, g)
    &&& forall|g: int, i: int|
        #[trigger] first_of_group(assignment, g, i) ==> 0 <= g < groups.len() && groups[g].1 == trim(
            rows[i][c.website as int],
        )
    &&& forall|a: int, b: int, i: int, j: int|
        0 <= a < b && #[trigger] first_of_group(assignment, a, i) && #[trigger] first_of_group(
            assignment,
            b,
            j,
        ) ==> i < j
}

pub open spec fn grouping_ok(v: ScrapePlanView) -> bool {
    rows_grouped(v.rows, v.columns, v.groups, v.assignment)
}

impl ScrapePlan {
    #[verifier::type_invariant]
    spec fn shape_ok(&self) -> bool {
        plan_shape(self@)
    }

    /// The start addresses of the websites to crawl, in order.
    pub fn group_urls(&self) -> (res: Vec<String>)
        ensures
            strs(res@) == self@.groups.map_values(|g: (Seq<char>, Seq<char>)| g.1),
    {
        let mut out: Vec<String> = Vec::new();
        let mut i: usize = 0;
        while i < self.groups.len()
            invariant
                i <= self.groups.len(),
                strs(out@) == self@.groups.map_values(|g: (Seq<char>, Seq<char>)| g.1).take(i as int),
            decreases self.groups.len() - i,
        {
            let ghost prev = strs(out@);
            let ghost all = self@.groups.map_values(|g: (Seq<char>, Seq<char>)| g.1);
            let u = self.groups[i].url.clone();
            assert(all[i as int] == u@);
            out.push(u);
            assert(strs(out@) =~= prev.push(u@));
            assert(all.take(i + 1) =~= all.take(i as int).push(all[i as int]));
            i = i + 1;
        }
        assert(self@.groups.map_values(|g: (Seq<char>, Seq<char>)| g.1).take(i as int) =~= self@.groups.map_values(
            |g: (Seq<char>, Seq<char>)| g.1,
        ));
        out
    }
}

fn find_group(groups: &Vec<ScrapeGroup>, key: &Vec<char>) -> (res: Option<usize>)
    ensures
        match res {
            Some(g) => g < groups.len() && groups@[g as int].key@ == key@,
            None => forall|h: int| 0 <= h < groups.len() ==> (#[trigger] groups@[h]).key@ != key@,
        },
{
    let mut g: usize = 0;
    while g < groups.len()
        invariant
            g <= groups.len(),
            forall|h: int| 0 <= h < g ==> (#[trigger] groups@[h]).key@ != key@,
        decreases groups.len() - g,
    {
        if eq_str(key, groups[g].key.as_str()) {
            return Some(g);
        }
        g = g + 1;
    }
    None
}

fn resize_record(record: &Vec<String>, width: usize) -> (res: Vec<String>)
    ensures
        strs(res@) == resized(strs(record@), width as nat),
{
    let mut out: Vec<String> = Vec::new();
    let mut i: usize = 0;
    while i < width
        invariant
            i <= width,
            strs(out@) == resized(strs(record@), width as nat).take(i as int),
        decreases width - i,
    {
        let ghost prev = strs(out@);
        let ghost all = resized(strs(record@), width as nat);
        let f = if i < record.len() {
            record[i].clone()
        } else {
            empty_string()
        };
        assert(all[i as int] == f@);
        out.push(f);
        assert(strs(out@) =~= prev.push(f@));
        assert(all.take(i + 1) =~= all.take(i as int).push(all[i as int]));
        i = i + 1;
    }
    assert(resized(strs(record@), width as nat).take(i as int) =~= resized(strs(record@), width as nat));
    out
}


/// The message for the first column of the export that `headers` lack.
fn missing_required_column(headers: &Vec<String>) -> (res: Option<String>)
    ensures
        match first_missing(strs(headers@), required_columns()) {
            Some(n) => res matches Some(m) && m@ == missing_column_message(n),
            None => res is None && forall|q: int|
                0 <= q < required_columns().len() ==> column_of(
                    strs(headers@),
                    #[trigger] required_columns()[q],
                ) is Some,
        },
{
    let ghost h = strs(headers@);
    let required = required_column_list();
    let mut r: usize = 0;
    assert(required_columns().skip(0) =~= required_columns());
    while r < required.len()
        invariant
            r <= required.len(),
            h == strs(headers@),
            required@.map_values(|s: &str| s@) == required_columns(),
            first_missing(h, required_columns()) == first_missing(h, required_columns().skip(r as int)),
            forall|q: int| 0 <= q < r ==> column_of(h, #[trigger] required_columns()[q]) is Some,
        decreases required.len() - r,
    {
        let name = required[r];
        assert(required_columns()[r as int] == name@);
        assert(required_columns().skip(r as int)[0] == name@);
        assert(required_columns().skip(r as int).drop_first() =~= required_columns().skip(r + 1));
        if find_column(&headers, name).is_none() {
            let m1 = concat_strs("文件不是工具导出的 CSV，缺少“", name);
            return Some(concat_strs(m1.as_str(), "”列"));
        }
        r = r + 1;
    }
    assert(required_columns().skip(r as int) =~= Seq::<Seq<char>>::empty());
    None
}

fn column_or_error(headers: &Vec<String>, name: &str) -> (res: Result<usize, String>)
    ensures
        match res {
            Ok(j) => column_of(strs(headers@), name@) == Some(j as int),
            Err(e) => column_of(strs(headers@), name@) is None && e@ == "CSV 缺少“"@ + name@ + "”列"@,
        },
{
    match find_column(headers, name) {
        Some(j) => Ok(j),
        None => {
            let m = concat_strs("CSV 缺少“", name);
            Err(concat_strs(m.as_str(), "”列"))
        },
    }
}

/// What reading a table gives for filling in: the header error; or the
/// first export column the headers lack; or the record error; or the plan:
/// the headers, every record cut or padded to the headers' width, the
/// columns, and the rows to fill in grouped by website.
pub open spec fn plan_outcome(rv: CsvReadView, res: Result<ScrapePlan, String>) -> bool {
    match rv {
        CsvReadView::HeaderError(m) => (res matches Err(e) && e@ == "无法读取 CSV 表头："@ + m),
        CsvReadView::RecordError { headers, message } => (res matches Err(e) && e@ == match first_missing(
            headers,
            required_columns(),
        ) {
            Some(n) => missing_column_message(n),
            None => "CSV 数据格式错误："@ + message,
        }),
        CsvReadView::Table { headers, records } => match first_missing(headers, required_columns()) {
            Some(n) => (res matches Err(e) && e@ == missing_column_message(n)),
            None => (res matches Ok(plan) && plan@.headers == headers && plan@.rows == resized_all(
                records,
                headers.len(),
            ) && locates_columns(headers, plan@.columns) && grouping_ok(plan@)),
        },
    }
}

/// Reads an exported CSV file for filling in: refuses a text over 10 MB,
/// drops the byte order marks it starts with, reads the table (see
/// `plan_from_read`).
pub fn prepare_scrape(csv_content: &str) -> (res: Result<ScrapePlan, String>)
    ensures
        byte_len(csv_content@) > MAX_CSV_BYTES ==> (res matches Err(e) && e@
            == "CSV 文件超过 10 MB 限制"@),
        byte_len(csv_content@) <= MAX_CSV_BYTES ==> plan_outcome(csv_read(strip_bom(csv_content@)), res),
{
    let cs = chars_of(csv_content);
    if byte_len_above(&cs, MAX_CSV_BYTES) {
        return Err(owned("CSV 文件超过 10 MB 限制"));
    }
    let mut k: usize = 0;
    assert(cs@.skip(0) =~= cs@);
    while k < cs.len() && cs[k] == '\u{feff}'
        invariant
            k <= cs.len(),
            strip_bom(cs@) == strip_bom(cs@.skip(k as int)),
        decreases cs.len() - k,
    {
        assert(cs@.skip(k as int).drop_first() =~= cs@.skip(k + 1));
        k = k + 1;
    }
    let rest = sub_chars(&cs, k, cs.len());
    assert(rest@ =~= cs@.skip(k as int));
    assert(strip_bom(csv_content@) == rest@);
    let text = string_from_chars(&rest);
    let read = read_csv_table(text.as_str());
    plan_from_read(read)
}

/// Plans filling in from a table read from the file: checks the export's
/// columns in their order, cuts or pads every record to the headers' width
/// and groups the rows to fill in by website.
pub fn plan_from_read(read: CsvRead) -> (res: Result<ScrapePlan, String>)
    ensures
        plan_outcome(csv_read_view(read), res),
{
    let (headers, records, record_error) = match read {
        CsvRead::HeaderError(m) => {
            return Err(concat_strs("无法读取 CSV 表头：", m.as_str()));
        },
        CsvRead::Table { headers, records } => (headers, records, None),
        CsvRead::RecordError { headers, message } => (headers, Vec::new(), Some(message)),
    };
    let ghost h = strs(headers@);
    if let Some(m) = missing_required_column(&headers) {
        return Err(m);
    }
    if let Some(message) = record_error {
        return Err(concat_strs("CSV 数据格式错误：", message.as_str()));
    }
    assert(column_of(h, required_columns()[2]) is Some);
    assert(column_of(h, required_columns()[3]) is Some);
    assert(column_of(h, required_columns()[4]) is Some);
    assert(column_of(h, required_columns()[5]) is Some);
    assert(column_of(h, required_columns()[6]) is Some);
    assert(column_of(h, required_columns()[1]) is Some);
    assert(column_of(h, required_columns()[9]) is Some);
    assert(column_of(h, required_columns()[8]) is Some);
    let website = match column_or_error(&headers, "官网") {
        Ok(j) => j,
        Err(e) => return Err(e),
    };
    let email = match column_or_error(&headers, "邮箱") {
        Ok(j) => j,
        Err(e) => return Err(e),
    };
    let source = match column_or_error(&headers, "邮箱来源") {
        Ok(j) => j,
        Err(e) => return Err(e),
    };
    let status = match column_or_error(&headers, "状态") {
        Ok(j) => j,
        Err(e) => return Err(e),
    };
    let error = match column_or_error(&headers, "错误") {
        Ok(j) => j,
        Err(e) => return Err(e),
    };
    let name = match column_or_error(&headers, "名称") {
        Ok(j) => j,
        Err(e) => return Err(e),
    };
    let address = match column_or_error(&headers, "地址") {
        Ok(j) => j,
        Err(e) => return Err(e),
    };
    let category = match column_or_error(&headers, "主营分类") {
        Ok(j) => j,
        Err(e) => return Err(e),
    };
    let summary = find_column(&headers, "业务摘要");
    let columns = ScrapeColumns { website, email, source, status, error, name, address, category, summary };
    let width = headers.len();
    assert(columns_within(columns, width as nat));
    let ghost recs = rows_view(records@);
    let mut rows: Vec<Vec<String>> = Vec::new();
    let mut i: usize = 0;
    while i < records.len()
        invariant
            i <= records.len(),
            recs == rows_view(records@),
            rows_view(rows@) == resized_all(recs, width as nat).take(i as int),
        decreases records.len() - i,
    {
        let ghost prev = rows_view(rows@);
        let row = resize_record(&records[i], width);
        assert(recs[i as int] == strs(records@[i as int]@));
        rows.push(row);
        assert(rows_view(rows@) =~= prev.push(strs(row@)));
        assert(resized_all(recs, width as nat).take(i + 1) =~= resized_all(recs, width as nat).take(
            i as int,
        ).push(resized_all(recs, width as nat)[i as int]));
        i = i + 1;
    }
    assert(resized_all(recs, width as nat).take(i as int) =~= resized_all(recs, width as nat));
    let ghost rv = rows_view(rows@);
    assert forall|q: int| 0 <= q < rv.len() implies (#[trigger] rv[q]).len() == width by {
        assert(rv[q] == resized(recs[q], width as nat));
    }
    let (groups, assignment) = group_rows(&rows, columns, width);
    proof {
        assert(rows_view(rows@) == rv);
    }
    let plan = ScrapePlan { headers, rows, columns, groups, assignment };
    assert(plan@.headers == h);
    Ok(plan)
}


proof fn lemma_first_of_group_push(old: Seq<Option<usize>>, x: Option<usize>, g: int, p: int)
    ensures
        p < old.len() ==> (first_of_group(old.push(x), g, p) <==> first_of_group(old, g, p)),
{
    if p < old.len() {
        assert forall|j: int| 0 <= j < p implies old.push(x)[j] == old[j] by {}
    }
}

fn group_rows(rows: &Vec<Vec<String>>, columns: ScrapeColumns, width: usize) -> (res: (
    Vec<ScrapeGroup>,
    Vec<Option<usize>>,
))
    requires
        forall|q: int| 0 <= q < rows.len() ==> (#[trigger] rows_view(rows@)[q]).len() == width,
        columns_within(columns, width as nat),
    ensures
        rows_grouped(rows_view(rows@), columns, group_views(res.0@), res.1@),
{
    let ghost rv = rows_view(rows@);
    let ghost web = columns.website as int;
    let mut groups: Vec<ScrapeGroup> = Vec::new();
    let mut assignment: Vec<Option<usize>> = Vec::new();
    let mut i: usize = 0;
    while i < rows.len()
        invariant
            i <= rows.len(),
            rv == rows_view(rows@),
            web == columns.website as int,
            forall|q: int| 0 <= q < rv.len() ==> (#[trigger] rv[q]).len() == width,
            columns_within(columns, width as nat),
            assignment.len() == i,
            forall|q: int|
                0 <= q < i ==> ((#[trigger] assignment@[q]) is Some <==> wants_email(rv[q], columns)),
            forall|q: int|
                0 <= q < i && (#[trigger] assignment@[q]) is Some ==> assignment@[q]->0 < groups.len()
                    && group_views(groups@)[assignment@[q]->0 as int].0 == site_key(rv[q], columns),
            forall|a: int, b: int|
                0 <= a < b < groups.len() ==> (#[trigger] group_views(groups@)[a]).0 != (
                #[trigger] group_views(groups@)[b]).0,
            forall|g: int| 0 <= g < groups.len() ==> #[trigger] group_has_rows(assignment@, g),
            forall|g: int, q: int|
                #[trigger] first_of_group(assignment@, g, q) ==> 0 <= g < groups.len() && group_views(
                    groups@,
                )[g].1 == trim(rv[q][web]),
            forall|a: int, b: int, p: int, q: int|
                0 <= a < b && #[trigger] first_of_group(assignment@, a, p) && #[trigger] first_of_group(
                    assignment@,
                    b,
                    q,
                ) ==> p < q,
        decreases rows.len() - i,
    {
        let ghost old_asg = assignment@;
        let ghost old_groups = group_views(groups@);
        assert(rv[i as int] == strs(rows@[i as int]@));
        assert(rv[i as int].len() == width);
        assert(rv[i as int][columns.email as int] == rows@[i as int]@[columns.email as int]@);
        assert(rv[i as int][web] == rows@[i as int]@[columns.website as int]@);
        let email_blank = blank(rows[i][columns.email].as_str());
        let web_text = trim_str(rows[i][columns.website].as_str());
        let mut pushed: Option<usize> = None;
        if email_blank && !web_text.as_str().is_empty() {
            let web_chars = chars_of(web_text.as_str());
            let key = lower_chars(&web_chars);
            match find_group(&groups, &key) {
                Some(g) => {
                    pushed = Some(g);
                },
                None => {
                    let ng = groups.len();
                    groups.push(ScrapeGroup { key: string_from_chars(&key), url: web_text });
                    proof {
                        assert(group_views(groups@) =~= old_groups.push((key@, trim(rv[i as int][web]))));
                    }
                    pushed = Some(ng);
                },
            }
        }
        assignment.push(pushed);
        proof {
            let ghost new_groups = group_views(groups@);
            assert(assignment@ == old_asg.push(pushed));
            assert forall|g: int, p: int| #[trigger] first_of_group(assignment@, g, p) && p < i implies first_of_group(
                old_asg,
                g,
                p,
            ) by {
                lemma_first_of_group_push(old_asg, pushed, g, p);
            }
            assert forall|g: int, p: int| #[trigger] first_of_group(old_asg, g, p) implies first_of_group(
                assignment@,
                g,
                p,
            ) by {
                lemma_first_of_group_push(old_asg, pushed, g, p);
            }
            assert forall|g: int| 0 <= g < old_groups.len() implies new_groups[g] == old_groups[g] by {}
            if pushed is Some && pushed->0 < old_groups.len() {
                let g = pushed->0 as int;
                assert(group_has_rows(old_asg, g));
                let w = choose|w: int| #[trigger] first_of_group(old_asg, g, w);
                assert(first_of_group(assignment@, g, w));
                assert(!first_of_group(assignment@, g, i as int));
            }
            assert forall|g: int| 0 <= g < new_groups.len() implies #[trigger] group_has_rows(assignment@, g) by {
                if g < old_groups.len() {
                    assert(group_has_rows(old_asg, g));
                    let w = choose|w: int| #[trigger] first_of_group(old_asg, g, w);
                    assert(first_of_group(assignment@, g, w));
                } else {
                    assert(first_of_group(assignment@, g, i as int));
                }
            }
        }
        i = i + 1;
    }
    (groups, assignment)
}


// ---------------------------------------------------------------------------
// Filling in the rows and writing the file
// ---------------------------------------------------------------------------

/// The page recorded first for address `e`.
pub open spec fn source_lookup(pairs: Seq<(Seq<char>, Seq<char>)>, e: Seq<char>) -> Option<Seq<char>>
    decreases pairs.len(),
{
    if pairs.len() == 0 {
        None
    } else if pairs[0].0 == e {
        Some(pairs[0].1)
    } else {
        source_lookup(pairs.drop_first(), e)
    }
}

/// Where an address of a crawl was found: the page recorded for it, else
/// the first page listed, else nothing.
pub open spec fn email_source(r: WebsiteResult, e: Seq<char>) -> Seq<char> {
    match source_lookup(pair_views(r.source_by_email@), e) {
        Some(u) => u,
        None => if r.source_urls.len() > 0 {
            r.source_urls@[0]@
        } else {
            Seq::empty()
        },
    }
}

/// The address that a crawl gives a row.
pub open spec fn selected_email(row: Seq<Seq<char>>, c: ScrapeColumns, r: WebsiteResult) -> Option<
    Seq<char>,
> {
    best_email(
        strs(r.emails@),
        site_host(row[c.website as int]),
        row_context(row[c.name as int], row[c.address as int], row[c.category as int]),
    )
}

pub open spec fn crawl_failed(r: WebsiteResult) -> bool {
    r.status@ == "failed"@
}

/// The note for a row whose website was read but gave it no address.
pub open spec fn no_email_note() -> Seq<char> {
    "已检查官网公开页面，未发现匹配的公开邮箱"@
}

/// A row filled in from a crawl: the summary when there is one and the row
/// has a summary column; the chosen address with its source page and
/// status `completed`; or, without an address, empty address and source,
/// the status `failed` with the crawl's error or `no_email` with a note.
pub open spec fn scraped_row(row: Seq<Seq<char>>, c: ScrapeColumns, r: WebsiteResult) -> Seq<Seq<char>> {
    let with_summary = match c.summary {
        Some(k) => if r.summary@.len() > 0 {
            row.update(k as int, r.summary@)
        } else {
            row
        },
        None => row,
    };
    match selected_email(row, c, r) {
        Some(e) => with_summary.update(c.email as int, e).update(c.source as int, email_source(r, e)).update(
            c.status as int,
            "completed"@,
        ).update(c.error as int, Seq::empty()),
        None => with_summary.update(c.email as int, Seq::empty()).update(
            c.source as int,
            Seq::empty(),
        ).update(c.status as int, if crawl_failed(r) {
            "failed"@
        } else {
            "no_email"@
        }).update(c.error as int, if crawl_failed(r) {
            r.error@
        } else {
            no_email_note()
        }),
    }
}

/// Row `i` of the filled-in file: filled in from its website's crawl, or
/// as it was.
pub open spec fn output_row(v: ScrapePlanView, results: Seq<WebsiteResult>, i: int) -> Seq<Seq<char>> {
    match v.assignment[i] {
        Some(g) => scraped_row(v.rows[i], v.columns, results[g as int]),
        None => v.rows[i],
    }
}

pub open spec fn output_rows(v: ScrapePlanView, results: Seq<WebsiteResult>) -> Seq<Seq<Seq<char>>> {
    Seq::new(v.rows.len(), |i: int| output_row(v, results, i))
}

/// What filling in did to a row.
#[derive(Clone, Copy, Debug, PartialEq, Eq, Structural)]
pub enum RowOutcome {
    Kept,
    WithEmail,
    Failed,
    NoEmail,
}

/// What a crawl does to a row it covers.
pub open spec fn scrape_outcome(row: Seq<Seq<char>>, c: ScrapeColumns, r: WebsiteResult) -> RowOutcome {
    match selected_email(row, c, r) {
        Some(_) => RowOutcome::WithEmail,
        None => if crawl_failed(r) {
            RowOutcome::Failed
        } else {
            RowOutcome::NoEmail
        },
    }
}

pub open spec fn row_outcome(v: ScrapePlanView, results: Seq<WebsiteResult>, i: int) -> RowOutcome {
    match v.assignment[i] {
        None => RowOutcome::Kept,
        Some(g) => scrape_outcome(v.rows[i], v.columns, results[g as int]),
    }
}

/// How many of the first `n` rows had outcome `o`.
pub open spec fn count_outcome(v: ScrapePlanView, results: Seq<WebsiteResult>, n: int, o: RowOutcome) -> nat
    decreases n,
{
    if n <= 0 {
        0
    } else {
        count_outcome(v, results, n - 1, o) + if row_outcome(v, results, n - 1) == o {
            1nat
        } else {
            0nat
        }
    }
}

/// The message for a failed write of record `k` (the headers are record 0,
/// the rows follow, a later index is the final flush).
pub open spec fn write_error_message(k: nat, rows: nat, m: Seq<char>) -> Seq<char> {
    if k == 0 {
        "写出 CSV 表头失败："@ + m
    } else if k <= rows {
        "写出 CSV 数据失败："@ + m
    } else {
        "写出 CSV 失败："@ + m
    }
}

/// A row that already has an address, or has no website, is written back
/// as it was.
pub proof fn lemma_rows_kept(v: ScrapePlanView, results: Seq<WebsiteResult>, i: int)
    requires
        grouping_ok(v),
        0 <= i < v.rows.len(),
        !wants_email(v.rows[i], v.columns),
    ensures
        output_row(v, results, i) == v.rows[i],
        row_outcome(v, results, i) == RowOutcome::Kept,
{
    assert(v.assignment[i] is None);
}

/// A row to fill in is taken up: it ends with an address, failed, or read
/// without an address.
pub proof fn lemma_rows_taken_up(v: ScrapePlanView, results: Seq<WebsiteResult>, i: int)
    requires
        grouping_ok(v),
        0 <= i < v.rows.len(),
        wants_email(v.rows[i], v.columns),
    ensures
        row_outcome(v, results, i) != RowOutcome::Kept,
{
    assert(v.assignment[i] is Some);
}

/// Every row is kept, given an address, failed, or read without one, so
/// the rows taken up are those with an address, failed, or without one.
pub proof fn lemma_scrape_counts(v: ScrapePlanView, results: Seq<WebsiteResult>, n: int)
    requires
        0 <= n,
    ensures
        count_outcome(v, results, n, RowOutcome::Kept) + count_outcome(v, results, n, RowOutcome::WithEmail)
            + count_outcome(v, results, n, RowOutcome::Failed) + count_outcome(
            v,
            results,
            n,
            RowOutcome::NoEmail,
        ) == n,
    decreases n,
{
    if n > 0 {
        lemma_scrape_counts(v, results, n - 1);
    }
}

fn set_field(row: &mut Vec<String>, j: usize, value: String)
    requires
        j < old(row).len(),
    ensures
        strs(final(row)@) == strs(old(row)@).update(j as int, value@),
        final(row).len() == old(row).len(),
{
    let ghost before = row@;
    row[j] = value;
    assert(strs(row@) =~= strs(before).update(j as int, value@));
}

fn email_source_exec(r: &WebsiteResult, e: &String) -> (res: String)
    ensures
        res@ == email_source(*r, e@),
{
    let ghost pairs = pair_views(r.source_by_email@);
    let ec = chars_of(e.as_str());
    let mut k: usize = 0;
    assert(pairs.skip(0) =~= pairs);
    while k < r.source_by_email.len()
        invariant
            k <= r.source_by_email.len(),
            pairs == pair_views(r.source_by_email@),
            ec@ == e@,
            source_lookup(pairs, e@) == source_lookup(pairs.skip(k as int), e@),
        decreases r.source_by_email.len() - k,
    {
        assert(pairs.skip(k as int)[0] == pairs[k as int]);
        assert(pairs.skip(k as int).drop_first() =~= pairs.skip(k + 1));
        if eq_str(&ec, r.source_by_email[k].0.as_str()) {
            return r.source_by_email[k].1.clone();
        }
        k = k + 1;
    }
    if r.source_urls.len() > 0 {
        r.source_urls[0].clone()
    } else {
        empty_string()
    }
}

fn scrape_row(row: &Vec<String>, c: ScrapeColumns, r: &WebsiteResult) -> (res: (Vec<String>, RowOutcome))
    requires
        columns_within(c, row.len() as nat),
    ensures
        strs(res.0@) == scraped_row(strs(row@), c, *r),
        res.0.len() == row.len(),
        res.1 == scrape_outcome(strs(row@), c, *r),
{
    let ghost rv = strs(row@);
    assert(rv[c.website as int] == row@[c.website as int]@);
    assert(rv[c.name as int] == row@[c.name as int]@);
    assert(rv[c.address as int] == row@[c.address as int]@);
    assert(rv[c.category as int] == row@[c.category as int]@);
    let selected = choose_email(
        &r.emails,
        row[c.website].as_str(),
        row[c.name].as_str(),
        row[c.address].as_str(),
        row[c.category].as_str(),
    );
    let mut out = resize_record(row, row.len());
    assert(resized(rv, row.len() as nat) =~= rv);
    match c.summary {
        Some(k) => {
            if !r.summary.as_str().is_empty() {
                set_field(&mut out, k, r.summary.clone());
            }
        },
        None => {},
    }
    match selected {
        Some(e) => {
            let source = email_source_exec(r, &e);
            set_field(&mut out, c.email, e);
            set_field(&mut out, c.source, source);
            set_field(&mut out, c.status, owned("completed"));
            set_field(&mut out, c.error, empty_string());
            (out, RowOutcome::WithEmail)
        },
        None => {
            let status = chars_of(r.status.as_str());
            let failed = eq_str(&status, "failed");
            set_field(&mut out, c.email, empty_string());
            set_field(&mut out, c.source, empty_string());
            if failed {
                set_field(&mut out, c.status, owned("failed"));
                set_field(&mut out, c.error, r.error.clone());
                (out, RowOutcome::Failed)
            } else {
                set_field(&mut out, c.status, owned("no_email"));
                set_field(&mut out, c.error, owned("已检查官网公开页面，未发现匹配的公开邮箱"));
                (out, RowOutcome::NoEmail)
            }
        },
    }
}

/// Fills in every row of `plan` that its website's crawl covers
/// (`results[g]` is the crawl of group `g`), writes the file (byte order
/// mark, headers, rows) and counts the rows: taken up, given an address,
/// failed, read without an address.
pub fn finish_scrape(plan: ScrapePlan, results: &Vec<WebsiteResult>) -> (res: Result<EmailCsvResult, String>)
    requires
        results.len() == plan@.groups.len(),
    ensures
        ({
            let v = plan@;
            let n = v.rows.len();
            match csv_written(seq![v.headers] + output_rows(v, results@)) {
                Err((k, m)) => (res matches Err(e) && e@ == write_error_message(k, n, m)),
                Ok(bytes) => if vstd::utf8::valid_utf8(bom() + bytes) {
                    (res matches Ok(out) && out.csv@ == vstd::utf8::decode_utf8(bom() + bytes)
                        && out.processed_records == n - count_outcome(v, results@, n as int, RowOutcome::Kept)
                        && out.records_with_email == count_outcome(v, results@, n as int, RowOutcome::WithEmail)
                        && out.emails_found == count_outcome(v, results@, n as int, RowOutcome::WithEmail)
                        && out.no_email == count_outcome(v, results@, n as int, RowOutcome::NoEmail)
                        && out.failed == count_outcome(v, results@, n as int, RowOutcome::Failed))
                } else {
                    (res matches Err(e) && e@ == "生成的 CSV 编码异常"@)
                },
            }
        }),
{
    proof {
        use_type_invariant(&plan);
    }
    let ghost v = plan@;
    let ghost n = v.rows.len();
    let ScrapePlan { headers, rows, columns, groups: _, assignment } = plan;
    let mut rows = rows;
    let mut processed: usize = 0;
    let mut with_email: usize = 0;
    let mut no_email: usize = 0;
    let mut failed: usize = 0;
    let mut i: usize = 0;
    while i < rows.len()
        invariant
            i <= rows.len(),
            rows.len() == n,
            n == v.rows.len(),
            plan_shape(v),
            results.len() == v.groups.len(),
            v.headers == strs(headers@),
            v.columns == columns,
            v.assignment == assignment@,
            forall|k: int| 0 <= k < i ==> (#[trigger] rows_view(rows@)[k]) == output_row(v, results@, k),
            forall|k: int| i <= k < n ==> (#[trigger] rows_view(rows@)[k]) == v.rows[k],
            processed == i - count_outcome(v, results@, i as int, RowOutcome::Kept),
            with_email == count_outcome(v, results@, i as int, RowOutcome::WithEmail),
            no_email == count_outcome(v, results@, i as int, RowOutcome::NoEmail),
            failed == count_outcome(v, results@, i as int, RowOutcome::Failed),
            count_outcome(v, results@, i as int, RowOutcome::Kept) <= i,
            with_email + no_email + failed <= i,
        decreases rows.len() - i,
    {
        let ghost before = rows_view(rows@);
        assert(before[i as int] == v.rows[i as int]);
        assert(before[i as int] == strs(rows@[i as int]@));
        assert(v.rows[i as int].len() == v.headers.len());
        match assignment[i] {
            None => {},
            Some(g) => {
                let (new_row, outcome) = scrape_row(&rows[i], columns, &results[g]);
                rows[i] = new_row;
                assert(rows_view(rows@) =~= before.update(
                    i as int,
                    scraped_row(v.rows[i as int], columns, results@[g as int]),
                ));
                processed = processed + 1;
                match outcome {
                    RowOutcome::WithEmail => with_email = with_email + 1,
                    RowOutcome::Failed => failed = failed + 1,
                    RowOutcome::NoEmail => no_email = no_email + 1,
                    RowOutcome::Kept => {},
                }
            },
        }
        i = i + 1;
    }
    assert(rows_view(rows@) =~= output_rows(v, results@));
    let ghost body = rows_view(rows@);
    rows.insert(0, headers);
    assert(rows_view(rows@) =~= seq![v.headers] + body);
    match write_csv_records(&rows) {
        Ok(bytes) => {
            let out = prefix_bom(&bytes);
            match string_from_utf8(out) {
                Some(csv) => Ok(EmailCsvResult {
                    csv,
                    processed_records: processed,
                    records_with_email: with_email,
                    emails_found: with_email,
                    no_email,
                    failed,
                }),
                None => Err(owned("生成的 CSV 编码异常")),
            }
        },
        Err((k, m)) => {
            if k == 0 {
                Err(concat_strs("写出 CSV 表头失败：", m.as_str()))
            } else if k < rows.len() {
                Err(concat_strs("写出 CSV 数据失败：", m.as_str()))
            } else {
                Err(concat_strs("写出 CSV 失败：", m.as_str()))
            }
        },
    }
}

} // verus!
