//! Exporting tasks: which tasks are exported, how the same business found
//! by several tasks is recognised and merged, and the rows of the CSV file.
use vstd::prelude::*;

use crate::emails::{collected_emails, filter_email_list};
use crate::models::{strs, Business, ExportResult, SearchJob};
use crate::order::{insert_sorted, lemma_sorted_list, lex_lt, sorted_list, string_less, strictly_sorted};
use crate::text::{
    append_chars, append_str, ascii_digit, byte_len_above, char_is_alphanumeric,
    char_to_lowercase, chars_of, dedup_seq, decimal, decimal_string, empty_string, find_char,
    find_char_exec, find_sub_pos, find_sub_spec, is_ascii_digit, is_blank, lemma_find_char_bounds,
    lower, lower_chars, owned, signed_decimal, signed_decimal_string, string_from_chars, sub_chars,
    trim, trim_chars, trim_end_slashes, trim_end_slashes_exec, unicode_alphanumeric,
    unicode_lowercase, is_ascii_alnum, is_ascii_char, is_ascii_lower, lower_char,
};
use crate::urls::{parse_url, strip_www, strip_www_exec, url_parsed, ParsedUrl, UrlView};

verus! {

// ---------------------------------------------------------------------------
// Which tasks
// ---------------------------------------------------------------------------

/// The task identifiers without blank ones and without repeats, in order of
/// first appearance.
pub open spec fn export_job_ids(ids: Seq<Seq<char>>) -> Seq<Seq<char>>
    decreases ids.len(),
{
    if ids.len() == 0 {
        Seq::empty()
    } else {
        let prefix = export_job_ids(ids.drop_last());
        if is_blank(ids.last()) || prefix.contains(ids.last()) {
            prefix
        } else {
            prefix.push(ids.last())
        }
    }
}

/// The tasks to export: refused when none is left.
pub fn unique_job_ids(job_ids: Vec<String>) -> (res: Result<Vec<String>, String>)
    ensures
        match res {
            Ok(v) => strs(v@) == export_job_ids(strs(job_ids@)) && v.len() > 0,
            Err(m) => export_job_ids(strs(job_ids@)).len() == 0 && m@ == "请至少选择一个任务"@,
        },
{
    let ghost ids = strs(job_ids@);
    let mut out: Vec<String> = Vec::new();
    let mut i: usize = 0;
    assert(strs(out@) =~= export_job_ids(ids.take(0)));
    while i < job_ids.len()
        invariant
            i <= job_ids.len(),
            ids == strs(job_ids@),
            strs(out@) == export_job_ids(ids.take(i as int)),
        decreases job_ids.len() - i,
    {
        assert(ids.take(i + 1).drop_last() =~= ids.take(i as int));
        let id = &job_ids[i];
        if !crate::text::blank(id.as_str()) && !crate::pages::contains_string(&out, id) {
            out.push(id.clone());
            assert(strs(out@) =~= export_job_ids(ids.take(i as int)).push(ids[i as int]));
        }
        i = i + 1;
    }
    assert(ids.take(i as int) =~= ids);
    if out.len() == 0 {
        return Err(owned("请至少选择一个任务"));
    }
    Ok(out)
}

/// Exporting the same selection twice exports the same tasks: the
/// selection is already free of blanks and repeats.
pub proof fn lemma_export_job_ids_idempotent(ids: Seq<Seq<char>>)
    ensures
        export_job_ids(export_job_ids(ids)) == export_job_ids(ids),
        export_job_ids(ids).no_duplicates(),
        forall|j: int| 0 <= j < export_job_ids(ids).len() ==> !is_blank(#[trigger] export_job_ids(ids)[j]),
    decreases ids.len(),
{
    if ids.len() > 0 {
        lemma_export_job_ids_idempotent(ids.drop_last());
        let prefix = export_job_ids(ids.drop_last());
        if !(is_blank(ids.last()) || prefix.contains(ids.last())) {
            let r = prefix.push(ids.last());
            assert(r.drop_last() =~= prefix);
            assert forall|a: int, b: int| 0 <= a < b < r.len() implies r[a] != r[b] by {
                if b == r.len() - 1 {
                    assert(prefix[a] == r[a]);
                }
            }
        }
    }
}

// ---------------------------------------------------------------------------
// Recognising a business
// ---------------------------------------------------------------------------

/// The letters and digits of a text, in lower case (Unicode).
pub open spec fn identity_text(s: Seq<char>) -> Seq<char>
    decreases s.len(),
{
    if s.len() == 0 {
        Seq::empty()
    } else {
        identity_text(s.drop_last()) + (if unicode_alphanumeric(s.last()) {
            unicode_lowercase(s.last())
        } else {
            Seq::empty()
        })
    }
}

/// The letters and digits of a text, in order (Unicode).
pub open spec fn alnum_chars(s: Seq<char>) -> Seq<char>
    decreases s.len(),
{
    if s.len() == 0 {
        Seq::empty()
    } else {
        alnum_chars(s.drop_last()) + (if unicode_alphanumeric(s.last()) {
            seq![s.last()]
        } else {
            Seq::empty()
        })
    }
}

/// Each character of `t` in lower case (Unicode), one after another.
pub open spec fn lowered_chars(t: Seq<char>) -> Seq<char>
    decreases t.len(),
{
    if t.len() == 0 {
        Seq::empty()
    } else {
        lowered_chars(t.drop_last()) + unicode_lowercase(t.last())
    }
}

proof fn lemma_identity_text_lowered(s: Seq<char>)
    ensures
        identity_text(s) == lowered_chars(alnum_chars(s)),
    decreases s.len(),
{
    if s.len() > 0 {
        lemma_identity_text_lowered(s.drop_last());
        let a = alnum_chars(s.drop_last());
        if unicode_alphanumeric(s.last()) {
            assert((a + seq![s.last()]).drop_last() =~= a);
        } else {
            assert(alnum_chars(s) =~= a);
            assert(identity_text(s) =~= identity_text(s.drop_last()));
        }
    }
}

proof fn lemma_lowered_same(t1: Seq<char>, t2: Seq<char>)
    requires
        t1.len() == t2.len(),
        forall|i: int| 0 <= i < t1.len() ==> unicode_lowercase(#[trigger] t1[i]) == unicode_lowercase(t2[i]),
    ensures
        lowered_chars(t1) == lowered_chars(t2),
    decreases t1.len(),
{
    if t1.len() > 0 {
        assert forall|i: int| 0 <= i < t1.drop_last().len() implies unicode_lowercase(
            #[trigger] t1.drop_last()[i],
        ) == unicode_lowercase(t2.drop_last()[i]) by {
            assert(t1.drop_last()[i] == t1[i]);
            assert(t2.drop_last()[i] == t2[i]);
        }
        lemma_lowered_same(t1.drop_last(), t2.drop_last());
        assert(unicode_lowercase(t1[t1.len() - 1]) == unicode_lowercase(t2[t2.len() - 1]));
    }
}

/// Two texts with the same letters and digits in the same order, each pair
/// equal once lower-cased, normalise to the same text: case, spacing and
/// punctuation do not tell two businesses apart.
pub proof fn lemma_identity_ignores_case_and_punctuation(a: Seq<char>, b: Seq<char>)
    requires
        alnum_chars(a).len() == alnum_chars(b).len(),
        forall|i: int|
            0 <= i < alnum_chars(a).len() ==> unicode_lowercase(#[trigger] alnum_chars(a)[i])
                == unicode_lowercase(alnum_chars(b)[i]),
    ensures
        identity_text(a) == identity_text(b),
{
    lemma_identity_text_lowered(a);
    lemma_identity_text_lowered(b);
    lemma_lowered_same(alnum_chars(a), alnum_chars(b));
}

/// Whether a text is all ASCII.
pub open spec fn all_ascii(s: Seq<char>) -> bool {
    forall|i: int| 0 <= i < s.len() ==> is_ascii_char(#[trigger] s[i])
}

/// The ASCII letters and digits of a text, in ASCII lower case.
pub open spec fn ascii_identity(s: Seq<char>) -> Seq<char>
    decreases s.len(),
{
    if s.len() == 0 {
        Seq::empty()
    } else {
        ascii_identity(s.drop_last()) + (if is_ascii_alnum(s.last()) {
            seq![lower_char(s.last())]
        } else {
            Seq::empty()
        })
    }
}

/// What an ASCII text normalises to holds lower-case letters and digits
/// only: no white space, no punctuation and no capital letter.
pub proof fn lemma_ascii_identity_letters_digits(s: Seq<char>)
    ensures
        forall|i: int|
            0 <= i < ascii_identity(s).len() ==> is_ascii_lower(#[trigger] ascii_identity(s)[i])
                || is_ascii_digit(ascii_identity(s)[i]),
    decreases s.len(),
{
    if s.len() > 0 {
        lemma_ascii_identity_letters_digits(s.drop_last());
        let a = ascii_identity(s.drop_last());
        let c = s.last();
        if is_ascii_alnum(c) && crate::text::is_ascii_upper(c) {
            vstd::utf8::char_u32_cast(lower_char(c), ((c as u32) + 32) as u32);
        }
        assert forall|i: int| 0 <= i < ascii_identity(s).len() implies is_ascii_lower(
            #[trigger] ascii_identity(s)[i],
        ) || is_ascii_digit(ascii_identity(s)[i]) by {
            if i < a.len() {
                assert(ascii_identity(s)[i] == a[i]);
            }
        }
    }
}

/// The letters and digits of `value`, in lower case (see `identity_text`);
/// for an ASCII text, its ASCII letters and digits in ASCII lower case.
pub fn normalize_identity_text(value: &str) -> (res: String)
    ensures
        res@ == identity_text(value@),
        all_ascii(value@) ==> res@ == ascii_identity(value@),
{
    let cs = chars_of(value);
    let mut out: Vec<char> = Vec::new();
    let mut i: usize = 0;
    while i < cs.len()
        invariant
            i <= cs.len(),
            cs@ == value@,
            out@ == identity_text(cs@.take(i as int)),
            all_ascii(cs@.take(i as int)) ==> out@ == ascii_identity(cs@.take(i as int)),
        decreases cs.len() - i,
    {
        let ghost prev = out@;
        let ghost t = cs@.take(i + 1);
        assert(t.drop_last() =~= cs@.take(i as int));
        assert(t.last() == cs@[i as int]);
        proof {
            if all_ascii(t) {
                assert forall|j: int| 0 <= j < i implies is_ascii_char(
                    #[trigger] cs@.take(i as int)[j],
                ) by {
                    assert(cs@.take(i as int)[j] == t[j]);
                }
                assert(is_ascii_char(t[i as int]));
            }
        }
        if char_is_alphanumeric(cs[i]) {
            let l = char_to_lowercase(cs[i]);
            append_chars(&mut out, &l);
        } else {
            assert(out@ =~= out@ + Seq::<char>::empty());
        }
        proof {
            if all_ascii(t) {
                assert(out@ =~= ascii_identity(t));
            }
        }
        i = i + 1;
    }
    assert(cs@.take(i as int) =~= cs@);
    string_from_chars(&out)
}

/// The place identifier in a Google Maps link: the text after the first
/// `!1s` up to the next `!`, trimmed and lower-cased; none when empty.
pub open spec fn maps_id_of(url: Seq<char>) -> Option<Seq<char>> {
    let i = find_sub_spec(url, "!1s"@);
    if i < 0 {
        None
    } else {
        let tail = url.skip(i + 3);
        let v = trim(tail.take(find_char(tail, '!')));
        if v.len() == 0 {
            None
        } else {
            Some(lower(v))
        }
    }
}

pub fn maps_business_id(url: &str) -> (res: Option<String>)
    ensures
        match res {
            Some(s) => maps_id_of(url@) == Some(s@),
            None => maps_id_of(url@) is None,
        },
{
    proof {
        reveal_strlit("!1s");
    }
    let cs = chars_of(url);
    let marker = chars_of("!1s");
    let i = match find_sub_pos(&cs, &marker) {
        Some(i) => i,
        None => return None,
    };
    assert(marker@.len() == 3);
    assert(i + 3 <= cs.len());
    let tail = sub_chars(&cs, i + 3, cs.len());
    assert(tail@ =~= url@.skip(i + 3));
    let end = find_char_exec(&tail, '!');
    proof {
        lemma_find_char_bounds(tail@, '!');
    }
    let head = sub_chars(&tail, 0, end);
    assert(head@ == tail@.take(end as int));
    let v = trim_chars(&head);
    if v.len() == 0 {
        return None;
    }
    let l = lower_chars(&v);
    Some(string_from_chars(&l))
}

/// The value of the first `cid` or `ftid` query parameter.
pub open spec fn map_query_id(pairs: Seq<(Seq<char>, Seq<char>)>) -> Option<Seq<char>>
    decreases pairs.len(),
{
    if pairs.len() == 0 {
        None
    } else if pairs[0].0 == "cid"@ || pairs[0].0 == "ftid"@ {
        Some(pairs[0].1)
    } else {
        map_query_id(pairs.drop_first())
    }
}

pub open spec fn host_or_empty(u: UrlView) -> Seq<char> {
    match u.host {
        Some(h) => h,
        None => Seq::empty(),
    }
}

/// The ASCII digits of a phone number.
pub open spec fn phone_digits(s: Seq<char>) -> Seq<char> {
    s.filter(|c: char| is_ascii_digit(c))
}

/// The key under which a business is merged with others, from the most to
/// the least reliable: the Maps place identifier; a `cid`/`ftid` parameter
/// of the Maps link; the Maps link's host and path; name and address; name
/// and a phone number of at least 7 digits; name and website domain; and
/// otherwise the record itself.
pub open spec fn business_key(b: Business) -> Seq<char> {
    let name = identity_text(b.name@);
    let address = identity_text(b.address@);
    let phone = phone_digits(b.phone@);
    let by_person = if name.len() > 0 && address.len() > 0 {
        Some("name-address:"@ + name + ":"@ + address)
    } else if name.len() > 0 && phone.len() >= 7 {
        Some("name-phone:"@ + name + ":"@ + phone)
    } else {
        match url_parsed(b.website@) {
            Some(w) => {
                let domain = lower(strip_www(host_or_empty(w)));
                if domain.len() > 0 && name.len() > 0 {
                    Some("name-domain:"@ + name + ":"@ + domain)
                } else {
                    None
                }
            },
            None => None,
        }
    };
    let fallback = match by_person {
        Some(k) => k,
        None => "record:"@ + b.job_id@ + ":"@ + signed_decimal(b.id as int),
    };
    match maps_id_of(b.maps_url@) {
        Some(id) => "maps:"@ + id,
        None => match url_parsed(b.maps_url@) {
            Some(u) => match map_query_id(u.query_pairs) {
                Some(v) => "maps-query:"@ + lower(v),
                None => {
                    let host = lower(host_or_empty(u));
                    let path = lower(trim_end_slashes(u.path));
                    if host.len() > 0 && path.len() > 0 {
                        "maps-url:"@ + host + path
                    } else {
                        fallback
                    }
                },
            },
            None => fallback,
        },
    }
}

fn map_query_id_exec(pairs: &Vec<(String, String)>) -> (res: Option<String>)
    ensures
        match res {
            Some(v) => map_query_id(pairs@.map_values(|p: (String, String)| (p.0@, p.1@)))
                == Some(v@),
            None => map_query_id(pairs@.map_values(|p: (String, String)| (p.0@, p.1@))) is None,
        },
{
    let ghost pv = pairs@.map_values(|p: (String, String)| (p.0@, p.1@));
    let mut i: usize = 0;
    assert(pv.skip(0) =~= pv);
    while i < pairs.len()
        invariant
            i <= pairs.len(),
            pv == pairs@.map_values(|p: (String, String)| (p.0@, p.1@)),
            map_query_id(pv) == map_query_id(pv.skip(i as int)),
        decreases pairs.len() - i,
    {
        assert(pv.skip(i as int).drop_first() =~= pv.skip(i + 1));
        assert(pv.skip(i as int)[0] == pv[i as int]);
        let k = chars_of(pairs[i].0.as_str());
        if crate::text::eq_str(&k, "cid") || crate::text::eq_str(&k, "ftid") {
            return Some(pairs[i].1.clone());
        }
        i = i + 1;
    }
    None
}

fn concat3(a: &str, b: &Vec<char>, c: &str, d: &Vec<char>) -> (res: String)
    ensures
        res@ == a@ + b@ + c@ + d@,
{
    let mut out = chars_of(a);
    append_chars(&mut out, b);
    append_str(&mut out, c);
    append_chars(&mut out, d);
    string_from_chars(&out)
}

fn person_key(b: &Business, name: &Vec<char>) -> (res: Option<String>)
    requires
        name@ == identity_text(b.name@),
    ensures
        ({
            let address = identity_text(b.address@);
            let phone = phone_digits(b.phone@);
            let expected = if name@.len() > 0 && address.len() > 0 {
                Some("name-address:"@ + name@ + ":"@ + address)
            } else if name@.len() > 0 && phone.len() >= 7 {
                Some("name-phone:"@ + name@ + ":"@ + phone)
            } else {
                match url_parsed(b.website@) {
                    Some(w) => {
                        let domain = lower(strip_www(host_or_empty(w)));
                        if domain.len() > 0 && name@.len() > 0 {
                            Some("name-domain:"@ + name@ + ":"@ + domain)
                        } else {
                            None
                        }
                    },
                    None => None,
                }
            };
            match res {
                Some(k) => expected == Some(k@),
                None => expected is None,
            }
        }),
{
    let address_s = normalize_identity_text(b.address.as_str());
    let address = chars_of(address_s.as_str());
    if name.len() > 0 && address.len() > 0 {
        return Some(concat3("name-address:", name, ":", &address));
    }
    let pc = chars_of(b.phone.as_str());
    let mut phone: Vec<char> = Vec::new();
    let mut i: usize = 0;
    while i < pc.len()
        invariant
            i <= pc.len(),
            pc@ == b.phone@,
            phone@ == pc@.take(i as int).filter(|c: char| is_ascii_digit(c)),
        decreases pc.len() - i,
    {
        proof {
            assert(pc@.take(i + 1).drop_last() =~= pc@.take(i as int));
            pc@.take(i + 1).filter_lemma(|c: char| is_ascii_digit(c));
            reveal(Seq::filter);
        }
        if ascii_digit(pc[i]) {
            phone.push(pc[i]);
        }
        i = i + 1;
    }
    assert(pc@.take(i as int) =~= pc@);
    if name.len() > 0 && phone.len() >= 7 {
        return Some(concat3("name-phone:", name, ":", &phone));
    }
    match parse_url(b.website.as_str()) {
        Some(w) => {
            let h = match &w.host {
                Some(h) => chars_of(h.as_str()),
                None => Vec::new(),
            };
            let stripped = strip_www_exec(&h);
            let domain = lower_chars(&stripped);
            if domain.len() > 0 && name.len() > 0 {
                Some(concat3("name-domain:", name, ":", &domain))
            } else {
                None
            }
        },
        None => None,
    }
}

/// The merge key of a business (see `business_key`).
pub fn business_identity(b: &Business) -> (res: String)
    ensures
        res@ == business_key(*b),
{
    let name_s = normalize_identity_text(b.name.as_str());
    let name = chars_of(name_s.as_str());
    let fallback = match person_key(b, &name) {
        Some(k) => k,
        None => {
            let job = chars_of(b.job_id.as_str());
            let id = signed_decimal_string(b.id);
            let idc = chars_of(id.as_str());
            concat3("record:", &job, ":", &idc)
        },
    };
    if let Some(id) = maps_business_id(b.maps_url.as_str()) {
        let mut out = chars_of("maps:");
        append_str(&mut out, id.as_str());
        return string_from_chars(&out);
    }
    match parse_url(b.maps_url.as_str()) {
        Some(u) => match map_query_id_exec(&u.query_pairs) {
            Some(v) => {
                let vc = chars_of(v.as_str());
                let lv = lower_chars(&vc);
                let mut out = chars_of("maps-query:");
                append_chars(&mut out, &lv);
                string_from_chars(&out)
            },
            None => {
                let h = match &u.host {
                    Some(h) => chars_of(h.as_str()),
                    None => Vec::new(),
                };
                let host = lower_chars(&h);
                let p = trim_end_slashes_exec(u.path.as_str());
                let pc = chars_of(p.as_str());
                let path = lower_chars(&pc);
                if host.len() > 0 && path.len() > 0 {
                    let mut out = chars_of("maps-url:");
                    append_chars(&mut out, &host);
                    append_chars(&mut out, &path);
                    string_from_chars(&out)
                } else {
                    fallback
                }
            },
        },
        None => fallback,
    }
}

} // verus!

verus! {

// ---------------------------------------------------------------------------
// Merging the records of one business
// ---------------------------------------------------------------------------

/// A business as exported: the merged record and the tasks it came from
/// (in ascending order, each once).
pub struct MergedBusiness {
    pub business: Business,
    pub source_job_ids: Vec<String>,
}

/// A merged business as the contracts see it: the record's fields, its
/// lists, and the tasks it came from.
pub ghost struct MergedView {
    pub id: i64,
    pub job_id: Seq<char>,
    pub name: Seq<char>,
    pub category: Seq<char>,
    pub address: Seq<char>,
    pub phone: Seq<char>,
    pub website: Seq<char>,
    pub maps_url: Seq<char>,
    pub rating_bits: Option<u64>,
    pub review_count: Option<u32>,
    pub business_summary: Seq<char>,
    pub emails: Seq<Seq<char>>,
    pub email_source_urls: Seq<Seq<char>>,
    pub facebook_urls: Seq<Seq<char>>,
    pub status: Seq<char>,
    pub error: Seq<char>,
    pub created_at: Seq<char>,
    pub updated_at: Seq<char>,
    pub exported_at: Option<Seq<char>>,
    pub source_job_ids: Seq<Seq<char>>,
}

pub open spec fn opt_text(o: Option<String>) -> Option<Seq<char>> {
    match o {
        Some(s) => Some(s@),
        None => None,
    }
}

/// The view of a record that starts a merged business: its own fields and
/// lists, from its own task.
pub open spec fn fresh_view(b: Business) -> MergedView {
    MergedView {
        id: b.id,
        job_id: b.job_id@,
        name: b.name@,
        category: b.category@,
        address: b.address@,
        phone: b.phone@,
        website: b.website@,
        maps_url: b.maps_url@,
        rating_bits: b.rating_bits,
        review_count: b.review_count,
        business_summary: b.business_summary@,
        emails: strs(b.emails@),
        email_source_urls: strs(b.email_source_urls@),
        facebook_urls: strs(b.facebook_urls@),
        status: b.status@,
        error: b.error@,
        created_at: b.created_at@,
        updated_at: b.updated_at@,
        exported_at: opt_text(b.exported_at),
        source_job_ids: seq![b.job_id@],
    }
}

pub open spec fn merged_view(m: MergedBusiness) -> MergedView {
    MergedView { source_job_ids: strs(m.source_job_ids@), ..fresh_view(m.business) }
}

/// The public addresses found in any of `values`.
pub open spec fn addresses_of_list(values: Seq<Seq<char>>) -> Set<Seq<char>> {
    Set::new(
        |x: Seq<char>|
            exists|i: int| 0 <= i < values.len() && #[trigger] collected_emails(values[i]).contains(x),
    )
}

/// Record `s` merged into `t`: the task joins the sources; blank fields, a
/// missing rating and review count are taken from `s`; the longer summary
/// wins; addresses (cleaned), address sources and Facebook pages are
/// united and sorted; a completed status wins and clears the error; the
/// later update time wins; identity and creation stay with `t`.
pub open spec fn merge_view(t: MergedView, s: Business) -> MergedView {
    MergedView {
        name: filled(t.name, s.name@),
        category: filled(t.category, s.category@),
        address: filled(t.address, s.address@),
        phone: filled(t.phone, s.phone@),
        website: filled(t.website, s.website@),
        maps_url: filled(t.maps_url, s.maps_url@),
        rating_bits: if t.rating_bits is None {
            s.rating_bits
        } else {
            t.rating_bits
        },
        review_count: if t.review_count is None {
            s.review_count
        } else {
            t.review_count
        },
        business_summary: if s.business_summary@.len() > t.business_summary.len() {
            s.business_summary@
        } else {
            t.business_summary
        },
        emails: sorted_list(addresses_of_list(t.emails + strs(s.emails@))),
        email_source_urls: sorted_list(
            t.email_source_urls.to_set().union(strs(s.email_source_urls@).to_set()),
        ),
        facebook_urls: sorted_list(t.facebook_urls.to_set().union(strs(s.facebook_urls@).to_set())),
        status: if takes_completed(t.status, s.status@) {
            s.status@
        } else {
            t.status
        },
        error: if takes_completed(t.status, s.status@) {
            Seq::empty()
        } else {
            t.error
        },
        updated_at: if lex_lt(t.updated_at, s.updated_at@) {
            s.updated_at@
        } else {
            t.updated_at
        },
        source_job_ids: sorted_list(t.source_job_ids.to_set().insert(s.job_id@)),
        ..t
    }
}

/// A blank field takes a non-blank value from another record.
pub open spec fn filled(target: Seq<char>, source: Seq<char>) -> Seq<char> {
    if is_blank(target) && !is_blank(source) {
        source
    } else {
        target
    }
}

pub fn fill_if_empty(target: &mut String, source: &str)
    ensures
        final(target)@ == filled(old(target)@, source@),
{
    if crate::text::blank(target.as_str()) && !crate::text::blank(source) {
        *target = owned(source);
    }
}

/// Puts every string of `items` into the strictly sorted `list`.
fn insert_all_sorted(list: &mut Vec<String>, items: &Vec<String>)
    requires
        strictly_sorted(strs(old(list)@)),
    ensures
        strictly_sorted(strs(final(list)@)),
        forall|x: Seq<char>| #[trigger] strs(final(list)@).contains(x) <==> (strs(
            old(list)@,
        ).contains(x) || strs(items@).contains(x)),
{
    let ghost start = strs(list@);
    let mut i: usize = 0;
    while i < items.len()
        invariant
            i <= items.len(),
            strictly_sorted(strs(list@)),
            forall|x: Seq<char>| #[trigger] strs(list@).contains(x) <==> (start.contains(x) || strs(
                items@,
            ).take(i as int).contains(x)),
        decreases items.len() - i,
    {
        let item = items[i].clone();
        assert(strs(items@)[i as int] == item@);
        insert_sorted(list, item);
        proof {
            crate::crawl::lemma_push_contains(strs(items@).take(i as int), item@);
            assert(strs(items@).take(i + 1) =~= strs(items@).take(i as int).push(item@));
        }
        i = i + 1;
    }
    assert(strs(items@).take(i as int) =~= strs(items@));
}

/// The status a merged record takes: a completed record wins over one that
/// is not, and then its (empty) error is taken too.
pub open spec fn takes_completed(target_status: Seq<char>, source_status: Seq<char>) -> bool {
    target_status != "completed"@ && source_status == "completed"@
}

/// Merges `source` into `target`: the task joins the sources; blank fields,
/// a missing rating and review count are taken from the source; the longer
/// summary wins; addresses, address sources and Facebook pages are united
/// (addresses cleaned and sorted, the others sorted); a completed status
/// wins and clears the error; the later update time wins.
pub fn merge_business(target: &mut MergedBusiness, source: Business)
    requires
        strictly_sorted(strs(old(target).source_job_ids@)),
    ensures
        ({
            let t = old(target).business;
            let n = final(target).business;
            &&& strictly_sorted(strs(final(target).source_job_ids@))
            &&& forall|x: Seq<char>| #[trigger] strs(final(target).source_job_ids@).contains(x) <==> (
            strs(old(target).source_job_ids@).contains(x) || x == source.job_id@)
            &&& n.id == t.id
            &&& n.job_id == t.job_id
            &&& n.created_at == t.created_at
            &&& n.exported_at == t.exported_at
            &&& n.name@ == filled(t.name@, source.name@)
            &&& n.category@ == filled(t.category@, source.category@)
            &&& n.address@ == filled(t.address@, source.address@)
            &&& n.phone@ == filled(t.phone@, source.phone@)
            &&& n.website@ == filled(t.website@, source.website@)
            &&& n.maps_url@ == filled(t.maps_url@, source.maps_url@)
            &&& n.rating_bits == (if t.rating_bits is None {
                source.rating_bits
            } else {
                t.rating_bits
            })
            &&& n.review_count == (if t.review_count is None {
                source.review_count
            } else {
                t.review_count
            })
            &&& n.business_summary@ == (if source.business_summary@.len()
                > t.business_summary@.len() {
                source.business_summary@
            } else {
                t.business_summary@
            })
            &&& strictly_sorted(strs(n.emails@))
            &&& forall|x: Seq<char>| #[trigger] strs(n.emails@).contains(x) <==> exists|i: int|
                0 <= i < t.emails.len() + source.emails.len() && #[trigger] collected_emails(
                    (t.emails@ + source.emails@)[i]@,
                ).contains(x)
            &&& strictly_sorted(strs(n.email_source_urls@))
            &&& forall|x: Seq<char>| #[trigger] strs(n.email_source_urls@).contains(x) <==> (strs(
                t.email_source_urls@,
            ).contains(x) || strs(source.email_source_urls@).contains(x))
            &&& strictly_sorted(strs(n.facebook_urls@))
            &&& forall|x: Seq<char>| #[trigger] strs(n.facebook_urls@).contains(x) <==> (strs(
                t.facebook_urls@,
            ).contains(x) || strs(source.facebook_urls@).contains(x))
            &&& n.status@ == (if takes_completed(t.status@, source.status@) {
                source.status@
            } else {
                t.status@
            })
            &&& n.error@ == (if takes_completed(t.status@, source.status@) {
                Seq::<char>::empty()
            } else {
                t.error@
            })
            &&& n.updated_at@ == (if lex_lt(t.updated_at@, source.updated_at@) {
                source.updated_at@
            } else {
                t.updated_at@
            })
        }),
        merged_view(*final(target)) == merge_view(merged_view(*old(target)), source),
{
    let ghost t0 = *target;
    let ghost s0 = source;
    let ghost t = target.business;
    insert_sorted(&mut target.source_job_ids, source.job_id.clone());
    fill_if_empty(&mut target.business.name, source.name.as_str());
    fill_if_empty(&mut target.business.category, source.category.as_str());
    fill_if_empty(&mut target.business.address, source.address.as_str());
    fill_if_empty(&mut target.business.phone, source.phone.as_str());
    fill_if_empty(&mut target.business.website, source.website.as_str());
    fill_if_empty(&mut target.business.maps_url, source.maps_url.as_str());
    if target.business.rating_bits.is_none() {
        target.business.rating_bits = source.rating_bits;
    }
    if target.business.review_count.is_none() {
        target.business.review_count = source.review_count;
    }
    let source_summary_len = chars_of(source.business_summary.as_str()).len();
    let target_summary_len = chars_of(target.business.business_summary.as_str()).len();
    if source_summary_len > target_summary_len {
        target.business.business_summary = source.business_summary;
    }
    let mut all_emails: Vec<String> = Vec::new();
    let mut i: usize = 0;
    while i < target.business.emails.len()
        invariant
            i <= target.business.emails.len(),
            target.business.emails@ == t.emails@,
            all_emails@ == t.emails@.take(i as int),
        decreases target.business.emails.len() - i,
    {
        all_emails.push(target.business.emails[i].clone());
        assert(all_emails@ =~= t.emails@.take(i + 1));
        i = i + 1;
    }
    let mut k: usize = 0;
    while k < source.emails.len()
        invariant
            k <= source.emails.len(),
            i == t.emails@.len(),
            all_emails@ == t.emails@ + source.emails@.take(k as int),
        decreases source.emails.len() - k,
    {
        all_emails.push(source.emails[k].clone());
        assert(all_emails@ =~= t.emails@ + source.emails@.take(k + 1));
        k = k + 1;
    }
    assert(t.emails@.take(i as int) =~= t.emails@);
    assert(source.emails@.take(k as int) =~= source.emails@);
    let ghost combined = all_emails@;
    target.business.emails = filter_email_list(all_emails);
    assert(combined == t.emails@ + source.emails@);
    let mut urls: Vec<String> = Vec::new();
    assert(strs(urls@) =~= Seq::<Seq<char>>::empty());
    insert_all_sorted(&mut urls, &target.business.email_source_urls);
    insert_all_sorted(&mut urls, &source.email_source_urls);
    target.business.email_source_urls = urls;
    let mut fb: Vec<String> = Vec::new();
    assert(strs(fb@) =~= Seq::<Seq<char>>::empty());
    insert_all_sorted(&mut fb, &target.business.facebook_urls);
    insert_all_sorted(&mut fb, &source.facebook_urls);
    target.business.facebook_urls = fb;
    let target_status = chars_of(target.business.status.as_str());
    let source_status = chars_of(source.status.as_str());
    if !crate::text::eq_str(&target_status, "completed") && crate::text::eq_str(
        &source_status,
        "completed",
    ) {
        target.business.status = source.status;
        target.business.error = empty_string();
    }
    if string_less(&target.business.updated_at, &source.updated_at) {
        target.business.updated_at = source.updated_at;
    }
    proof {
        let tv = merged_view(t0);
        let nb = target.business;
        assert(tv.emails + strs(s0.emails@) =~= strs(t.emails@ + s0.emails@));
        assert forall|x: Seq<char>| #[trigger] strs(nb.emails@).contains(x) <==> addresses_of_list(
            tv.emails + strs(s0.emails@),
        ).contains(x) by {
            let l = tv.emails + strs(s0.emails@);
            if strs(nb.emails@).contains(x) {
                let i = choose|i: int|
                    0 <= i < t.emails.len() + s0.emails.len() && #[trigger] collected_emails(
                        (t.emails@ + s0.emails@)[i]@,
                    ).contains(x);
                assert(l[i] == (t.emails@ + s0.emails@)[i]@);
            }
            if addresses_of_list(l).contains(x) {
                let i = choose|i: int| 0 <= i < l.len() && #[trigger] collected_emails(l[i]).contains(x);
                assert(l[i] == (t.emails@ + s0.emails@)[i]@);
            }
        }
        lemma_sorted_list(strs(nb.emails@), addresses_of_list(tv.emails + strs(s0.emails@)));
        lemma_sorted_list(
            strs(nb.email_source_urls@),
            tv.email_source_urls.to_set().union(strs(s0.email_source_urls@).to_set()),
        );
        lemma_sorted_list(
            strs(nb.facebook_urls@),
            tv.facebook_urls.to_set().union(strs(s0.facebook_urls@).to_set()),
        );
        lemma_sorted_list(strs(target.source_job_ids@), tv.source_job_ids.to_set().insert(s0.job_id@));
        assert(merged_view(*target) =~= merge_view(tv, s0));
    }
}

pub open spec fn fold_keys(v: Seq<(Seq<char>, MergedView)>) -> Seq<Seq<char>> {
    v.map_values(|p: (Seq<char>, MergedView)| p.0)
}

/// Merging records in order, each merged business with its key: a record
/// whose key is new starts a business at the end; any other record is
/// merged into the business of its key.
pub open spec fn dedup_fold(input: Seq<Business>) -> Seq<(Seq<char>, MergedView)>
    decreases input.len(),
{
    if input.len() == 0 {
        Seq::empty()
    } else {
        let prev = dedup_fold(input.drop_last());
        let b = input.last();
        let key = business_key(b);
        let ks = fold_keys(prev);
        if ks.contains(key) {
            let k = ks.index_of(key);
            prev.update(k, (key, merge_view(prev[k].1, b)))
        } else {
            prev.push((key, fresh_view(b)))
        }
    }
}

/// The merged businesses carry the merge keys of the records, each once, in
/// order of first appearance.
pub proof fn lemma_fold_keys(input: Seq<Business>)
    ensures
        fold_keys(dedup_fold(input)) == dedup_seq(input.map_values(|b: Business| business_key(b))),
    decreases input.len(),
{
    if input.len() > 0 {
        lemma_fold_keys(input.drop_last());
        assert(input.drop_last().map_values(|b: Business| business_key(b)) =~= input.map_values(
            |b: Business| business_key(b),
        ).drop_last());
        let prev = dedup_fold(input.drop_last());
        let key = business_key(input.last());
        let ks = fold_keys(prev);
        if ks.contains(key) {
            let k = ks.index_of(key);
            assert(fold_keys(prev.update(k, (key, merge_view(prev[k].1, input.last())))) =~= ks);
        } else {
            assert(fold_keys(prev.push((key, fresh_view(input.last())))) =~= ks.push(key));
        }
    }
}

/// Merging never yields more businesses than records, so the duplicates an
/// export reports are exactly the records read less the businesses
/// written.
pub proof fn lemma_merge_counts(input: Seq<Business>)
    ensures
        dedup_fold(input).len() <= input.len(),
{
    lemma_fold_keys(input);
    lemma_dedup_not_longer(input.map_values(|b: Business| business_key(b)));
}

/// The lists that merging unites.
pub ghost enum UnitedList {
    Sources,
    Facebook,
    Tasks,
}

/// Some record of `input` with merge key `key` has `u` in `list` (its task
/// for `Tasks`).
pub open spec fn record_lists(input: Seq<Business>, key: Seq<char>, list: UnitedList, u: Seq<char>) -> bool {
    exists|i: int|
        0 <= i < input.len() && business_key(#[trigger] input[i]) == key && listed_in(input[i], list, u)
}

pub open spec fn listed_in(b: Business, list: UnitedList, u: Seq<char>) -> bool {
    match list {
        UnitedList::Sources => strs(b.email_source_urls@).contains(u),
        UnitedList::Facebook => strs(b.facebook_urls@).contains(u),
        UnitedList::Tasks => b.job_id@ == u,
    }
}

pub open spec fn view_lists(m: MergedView, list: UnitedList, u: Seq<char>) -> bool {
    match list {
        UnitedList::Sources => m.email_source_urls.contains(u),
        UnitedList::Facebook => m.facebook_urls.contains(u),
        UnitedList::Tasks => m.source_job_ids.contains(u),
    }
}

proof fn lemma_concat_set(a: Seq<Seq<char>>, b: Seq<Seq<char>>)
    ensures
        a.to_set().union(b.to_set()) == (a + b).to_set(),
        b.len() == 1 ==> a.to_set().insert(b[0]) == (a + b).to_set(),
{
    assert forall|x: Seq<char>| a.to_set().union(b.to_set()).contains(x) <==> (a + b).contains(x) by {
        if a.contains(x) {
            let p = choose|p: int| 0 <= p < a.len() && a[p] == x;
            assert((a + b)[p] == x);
        }
        if b.contains(x) {
            let p = choose|p: int| 0 <= p < b.len() && b[p] == x;
            assert((a + b)[a.len() + p] == x);
        }
        if (a + b).contains(x) {
            let p = choose|p: int| 0 <= p < (a + b).len() && (a + b)[p] == x;
            if p < a.len() {
                assert(a[p] == x);
            } else {
                assert(b[p - a.len()] == x);
            }
        }
    }
    assert(a.to_set().union(b.to_set()) =~= (a + b).to_set());
    if b.len() == 1 {
        assert forall|x: Seq<char>| b.to_set().contains(x) <==> x == b[0] by {
            if b.contains(x) {
                let p = choose|p: int| 0 <= p < b.len() && b[p] == x;
            }
        }
        assert(a.to_set().insert(b[0]) =~= a.to_set().union(b.to_set()));
    }
}

/// A merged business lists exactly the address sources, the Facebook pages
/// and the tasks of all the records that were merged into it.
pub proof fn lemma_merge_unites(input: Seq<Business>, k: int, list: UnitedList, u: Seq<char>)
    requires
        0 <= k < dedup_fold(input).len(),
    ensures
        view_lists(dedup_fold(input)[k].1, list, u) <==> record_lists(input, dedup_fold(input)[k].0, list, u),
    decreases input.len(),
{
    let prev = dedup_fold(input.drop_last());
    let b = input.last();
    let key = business_key(b);
    let ks = fold_keys(prev);
    let n = input.len();
    let before = input.drop_last();
    lemma_fold_keys(before);
    assert(before.map_values(|x: Business| business_key(x)) =~= input.map_values(|x: Business| business_key(x)).drop_last());
    lemma_dedup_no_duplicates(before.map_values(|x: Business| business_key(x)));
    let kk = dedup_fold(input)[k].0;
    // the records of `input` are those of `before` and `b`
    assert(record_lists(input, kk, list, u) <==> (record_lists(before, kk, list, u) || (key == kk && listed_in(
        b,
        list,
        u,
    )))) by {
        if record_lists(input, kk, list, u) {
            let i = choose|i: int| 0 <= i < input.len() && business_key(#[trigger] input[i]) == kk && listed_in(input[i], list, u);
            if i < n - 1 {
                assert(before[i] == input[i]);
            }
        }
        if record_lists(before, kk, list, u) {
            let i = choose|i: int| 0 <= i < before.len() && business_key(#[trigger] before[i]) == kk && listed_in(before[i], list, u);
            assert(input[i] == before[i]);
        }
        if key == kk && listed_in(b, list, u) {
            assert(input[n - 1] == b);
        }
    }
    if ks.contains(key) {
        let j = ks.index_of(key);
        if k != j {
            lemma_merge_unites(before, k, list, u);
            assert(ks[k] != ks[j]);
        } else {
            lemma_merge_unites(before, k, list, u);
            let t = prev[j].1;
            if list is Sources {
                lemma_concat_set(t.email_source_urls, strs(b.email_source_urls@));
                crate::order::lemma_sorted_exists(t.email_source_urls + strs(b.email_source_urls@));
                if (t.email_source_urls + strs(b.email_source_urls@)).contains(u) {
                    let p = choose|p: int| 0 <= p < (t.email_source_urls + strs(b.email_source_urls@)).len()
                        && (t.email_source_urls + strs(b.email_source_urls@))[p] == u;
                    if p >= t.email_source_urls.len() {
                        assert(strs(b.email_source_urls@)[p - t.email_source_urls.len()] == u);
                    }
                }
                if t.email_source_urls.contains(u) {
                    let p = choose|p: int| 0 <= p < t.email_source_urls.len() && t.email_source_urls[p] == u;
                    assert((t.email_source_urls + strs(b.email_source_urls@))[p] == u);
                }
                if strs(b.email_source_urls@).contains(u) {
                    let p = choose|p: int| 0 <= p < strs(b.email_source_urls@).len() && strs(b.email_source_urls@)[p] == u;
                    assert((t.email_source_urls + strs(b.email_source_urls@))[t.email_source_urls.len() + p] == u);
                }
            } else if list is Facebook {
                lemma_concat_set(t.facebook_urls, strs(b.facebook_urls@));
                crate::order::lemma_sorted_exists(t.facebook_urls + strs(b.facebook_urls@));
                if (t.facebook_urls + strs(b.facebook_urls@)).contains(u) {
                    let p = choose|p: int| 0 <= p < (t.facebook_urls + strs(b.facebook_urls@)).len()
                        && (t.facebook_urls + strs(b.facebook_urls@))[p] == u;
                    if p >= t.facebook_urls.len() {
                        assert(strs(b.facebook_urls@)[p - t.facebook_urls.len()] == u);
                    }
                }
                if t.facebook_urls.contains(u) {
                    let p = choose|p: int| 0 <= p < t.facebook_urls.len() && t.facebook_urls[p] == u;
                    assert((t.facebook_urls + strs(b.facebook_urls@))[p] == u);
                }
                if strs(b.facebook_urls@).contains(u) {
                    let p = choose|p: int| 0 <= p < strs(b.facebook_urls@).len() && strs(b.facebook_urls@)[p] == u;
                    assert((t.facebook_urls + strs(b.facebook_urls@))[t.facebook_urls.len() + p] == u);
                }
            } else {
                lemma_concat_set(t.source_job_ids, seq![b.job_id@]);
                crate::order::lemma_sorted_exists(t.source_job_ids + seq![b.job_id@]);
                if (t.source_job_ids + seq![b.job_id@]).contains(u) {
                    let p = choose|p: int| 0 <= p < (t.source_job_ids + seq![b.job_id@]).len()
                        && (t.source_job_ids + seq![b.job_id@])[p] == u;
                    if p >= t.source_job_ids.len() {
                        assert(u == b.job_id@);
                    }
                }
                if t.source_job_ids.contains(u) {
                    let p = choose|p: int| 0 <= p < t.source_job_ids.len() && t.source_job_ids[p] == u;
                    assert((t.source_job_ids + seq![b.job_id@])[p] == u);
                }
                if u == b.job_id@ {
                    assert((t.source_job_ids + seq![b.job_id@])[t.source_job_ids.len() as int] == u);
                }
            }
        }
    } else {
        if k < prev.len() {
            lemma_merge_unites(before, k, list, u);
            assert(ks[k] != key);
        } else {
            assert(k == prev.len());
            assert(kk == key);
            assert(!record_lists(before, kk, list, u)) by {
                if record_lists(before, kk, list, u) {
                    let i = choose|i: int| 0 <= i < before.len() && business_key(#[trigger] before[i]) == kk && listed_in(before[i], list, u);
                    lemma_dedup_contains(before.map_values(|x: Business| business_key(x)), i);
                }
            }
            if list is Tasks {
                if seq![b.job_id@].contains(u) {
                    let p = choose|p: int| 0 <= p < 1 && seq![b.job_id@][p] == u;
                }
                if u == b.job_id@ {
                    assert(seq![b.job_id@][0] == u);
                }
            }
        }
    }
}

/// Merges the records that share a merge key, keeping the first record of
/// each key (in input order) as the base and recording every task each
/// business came from.
#[verifier::rlimit(80)]
pub fn deduplicate_businesses(businesses: Vec<Business>) -> (res: Vec<MergedBusiness>)
    ensures
        res.len() == dedup_fold(businesses@).len(),
        forall|k: int| 0 <= k < res.len() ==> merged_view(#[trigger] res@[k]) == dedup_fold(businesses@)[k].1,
        ({
            let keys = businesses@.map_values(|b: Business| business_key(b));
            &&& res.len() == dedup_seq(keys).len()
            &&& forall|k: int|
                0 <= k < res.len() ==> {
                    &&& strictly_sorted(strs((#[trigger] res@[k]).source_job_ids@))
                    &&& forall|x: Seq<char>| #[trigger] strs(res@[k].source_job_ids@).contains(x)
                        <==> exists|i: int|
                        0 <= i < businesses.len() && keys[i] == dedup_seq(keys)[k]
                            && businesses@[i].job_id@ == x
                }
        }),
{
    let ghost input = businesses@;
    let ghost keys = input.map_values(|b: Business| business_key(b));
    let mut merged: Vec<MergedBusiness> = Vec::new();
    let mut merged_keys: Vec<String> = Vec::new();
    let mut rest = businesses;
    let mut i: usize = 0;
    let n = rest.len();
    assert(strs(merged_keys@) =~= dedup_seq(keys.take(0)));
    while rest.len() > 0
        invariant
            i + rest.len() == n,
            n == input.len(),
            rest@ == input.skip(i as int),
            keys == input.map_values(|b: Business| business_key(b)),
            strs(merged_keys@) == dedup_seq(keys.take(i as int)),
            merged.len() == merged_keys.len(),
            merged.len() == dedup_fold(input.take(i as int)).len(),
            forall|k: int|
                0 <= k < merged.len() ==> merged_view(#[trigger] merged@[k]) == dedup_fold(
                    input.take(i as int),
                )[k].1,
            forall|k: int|
                0 <= k < merged.len() ==> {
                    &&& strictly_sorted(strs((#[trigger] merged@[k]).source_job_ids@))
                    &&& forall|x: Seq<char>| #[trigger] strs(merged@[k].source_job_ids@).contains(x)
                        <==> exists|j: int|
                        0 <= j < i && keys[j] == strs(merged_keys@)[k] && input[j].job_id@ == x
                },
        decreases rest.len(),
    {
        let ghost before_rest = rest@;
        let business = rest.remove(0);
        assert(rest@ =~= input.skip(i + 1));
        assert(business == input[i as int]);
        let key = business_identity(&business);
        assert(key@ == keys[i as int]);
        assert(keys.take(i + 1).drop_last() =~= keys.take(i as int));
        let ghost prev = merged@;
        let ghost prev_keys = strs(merged_keys@);
        let ghost fold_prev = dedup_fold(input.take(i as int));
        proof {
            lemma_fold_keys(input.take(i as int));
            assert(input.take(i as int).map_values(|b: Business| business_key(b)) =~= keys.take(
                i as int,
            ));
            assert(input.take(i + 1).drop_last() =~= input.take(i as int));
            assert(input.take(i + 1).last() == business);
            lemma_dedup_no_duplicates(keys.take(i as int));
        }
        let mut index: usize = 0;
        while index < merged_keys.len() && merged_keys[index] != key
            invariant
                index <= merged_keys.len(),
                forall|j: int| 0 <= j < index ==> strs(merged_keys@)[j] != key@,
            decreases merged_keys.len() - index,
        {
            index = index + 1;
        }
        if index < merged_keys.len() {
            assert(strs(merged_keys@)[index as int] == key@);
            assert(prev_keys.contains(key@));
            let job = business.job_id.clone();
            let mut target = merged.remove(index);
            let ghost b0 = business;
            let ghost old_target = target;
            merge_business(&mut target, business);
            let ghost new_target = target;
            merged.insert(index, target);
            proof {
                assert(merged@ =~= prev.update(index as int, new_target));
                assert(old_target == prev[index as int]);
                let ks = fold_keys(fold_prev);
                assert(ks == prev_keys);
                assert(ks.contains(key@));
                let j = ks.index_of(key@);
                assert(ks[j] == key@);
                assert(j == index);
                assert(dedup_fold(input.take(i + 1)) == fold_prev.update(
                    index as int,
                    (key@, merge_view(fold_prev[index as int].1, b0)),
                ));
                assert forall|k: int| 0 <= k < merged.len() implies merged_view(#[trigger] merged@[k])
                    == dedup_fold(input.take(i + 1))[k].1 by {
                    if k != index {
                        assert(merged@[k] == prev[k]);
                    }
                }
            }
            assert forall|k: int| 0 <= k < merged.len() implies {
                &&& strictly_sorted(strs((#[trigger] merged@[k]).source_job_ids@))
                &&& forall|x: Seq<char>| #[trigger] strs(merged@[k].source_job_ids@).contains(x)
                    <==> exists|j: int|
                    0 <= j < i + 1 && keys[j] == strs(merged_keys@)[k] && input[j].job_id@ == x
            } by {
                if k != index {
                    assert(merged@[k] == prev[k]);
                    assert forall|x: Seq<char>| #[trigger] strs(merged@[k].source_job_ids@).contains(x)
                        <==> exists|j: int|
                        0 <= j < i + 1 && keys[j] == strs(merged_keys@)[k] && input[j].job_id@ == x by {
                        if exists|j: int|
                            0 <= j < i + 1 && keys[j] == strs(merged_keys@)[k] && input[j].job_id@ == x {
                            let j = choose|j: int|
                                0 <= j < i + 1 && keys[j] == strs(merged_keys@)[k] && input[j].job_id@
                                    == x;
                            if j == i {
                                assert(prev_keys[k] == prev_keys[index as int]);
                                assert(false) by {
                                    lemma_dedup_no_duplicates(keys.take(i as int));
                                }
                            }
                        }
                    }
                } else {
                    assert forall|x: Seq<char>| #[trigger] strs(merged@[k].source_job_ids@).contains(x)
                        <==> exists|j: int|
                        0 <= j < i + 1 && keys[j] == strs(merged_keys@)[k] && input[j].job_id@ == x by {
                        if exists|j: int|
                            0 <= j < i + 1 && keys[j] == strs(merged_keys@)[k] && input[j].job_id@ == x {
                            let j = choose|j: int|
                                0 <= j < i + 1 && keys[j] == strs(merged_keys@)[k] && input[j].job_id@
                                    == x;
                            if j < i {
                                assert(strs(prev[k].source_job_ids@).contains(x));
                            } else {
                                assert(x == job@);
                            }
                        }
                        if strs(merged@[k].source_job_ids@).contains(x) {
                            if x != job@ {
                                assert(strs(prev[k].source_job_ids@).contains(x));
                            } else {
                                assert(0 <= i < i + 1 && keys[i as int] == strs(merged_keys@)[k]
                                    && input[i as int].job_id@ == x);
                            }
                        }
                    }
                }
            }
        } else {
            assert(!prev_keys.contains(key@));
            let mut ids: Vec<String> = Vec::new();
            let job = business.job_id.clone();
            ids.push(business.job_id.clone());
            assert(strs(ids@) =~= seq![job@]);
            let ghost b0 = business;
            merged.push(MergedBusiness { business, source_job_ids: ids });
            merged_keys.push(key);
            assert(strs(merged_keys@) =~= prev_keys.push(keys[i as int]));
            proof {
                let ks = fold_keys(fold_prev);
                assert(ks == prev_keys);
                assert(dedup_fold(input.take(i + 1)) == fold_prev.push((key@, fresh_view(b0))));
                assert(merged_view(merged@[prev.len() as int]) =~= fresh_view(b0));
                assert forall|k: int| 0 <= k < merged.len() implies merged_view(#[trigger] merged@[k])
                    == dedup_fold(input.take(i + 1))[k].1 by {
                    if k < prev.len() {
                        assert(merged@[k] == prev[k]);
                    }
                }
            }
            assert forall|k: int| 0 <= k < merged.len() implies {
                &&& strictly_sorted(strs((#[trigger] merged@[k]).source_job_ids@))
                &&& forall|x: Seq<char>| #[trigger] strs(merged@[k].source_job_ids@).contains(x)
                    <==> exists|j: int|
                    0 <= j < i + 1 && keys[j] == strs(merged_keys@)[k] && input[j].job_id@ == x
            } by {
                if k < prev.len() {
                    assert(merged@[k] == prev[k]);
                    assert(strs(merged_keys@)[k] == prev_keys[k]);
                    assert forall|x: Seq<char>| #[trigger] strs(merged@[k].source_job_ids@).contains(x)
                        <==> exists|j: int|
                        0 <= j < i + 1 && keys[j] == strs(merged_keys@)[k] && input[j].job_id@ == x by {
                        if exists|j: int|
                            0 <= j < i + 1 && keys[j] == strs(merged_keys@)[k] && input[j].job_id@ == x {
                            let j = choose|j: int|
                                0 <= j < i + 1 && keys[j] == strs(merged_keys@)[k] && input[j].job_id@
                                    == x;
                            if j == i {
                                assert(prev_keys[k] == key@);
                                assert(prev_keys.contains(key@));
                            } else {
                                assert(0 <= j < i && keys[j] == prev_keys[k] && input[j].job_id@ == x);
                            }
                        }
                        if strs(merged@[k].source_job_ids@).contains(x) {
                            assert(strs(prev[k].source_job_ids@).contains(x));
                            let j = choose|j: int|
                                0 <= j < i && keys[j] == prev_keys[k] && input[j].job_id@ == x;
                            assert(0 <= j < i + 1 && keys[j] == strs(merged_keys@)[k]
                                && input[j].job_id@ == x);
                        }
                    }
                } else {
                    assert(strs(merged@[k].source_job_ids@) == seq![job@]);
                    assert forall|x: Seq<char>| #[trigger] strs(merged@[k].source_job_ids@).contains(x)
                        <==> exists|j: int|
                        0 <= j < i + 1 && keys[j] == strs(merged_keys@)[k] && input[j].job_id@ == x by {
                        if exists|j: int|
                            0 <= j < i + 1 && keys[j] == strs(merged_keys@)[k] && input[j].job_id@ == x {
                            let j = choose|j: int|
                                0 <= j < i + 1 && keys[j] == strs(merged_keys@)[k] && input[j].job_id@
                                    == x;
                            if j < i {
                                lemma_dedup_contains(keys.take(i as int), j);
                                assert(keys.take(i as int)[j] == keys[j]);
                                assert(strs(merged_keys@)[k] == key@);
                                assert(prev_keys.contains(key@));
                            }
                            assert(j == i);
                            assert(x == job@);
                            assert(strs(merged@[k].source_job_ids@)[0] == x);
                        }
                        if strs(merged@[k].source_job_ids@).contains(x) {
                            assert(seq![job@][0] == x);
                            assert(0 <= i < i + 1 && keys[i as int] == strs(merged_keys@)[k]
                                && input[i as int].job_id@ == x);
                        }
                    }
                }
            }
        }
        i = i + 1;
    }
    assert(keys.take(i as int) =~= keys);
    assert(input.take(i as int) =~= input);
    merged
}

/// Every entry of the list is kept once.
pub proof fn lemma_dedup_no_duplicates(s: Seq<Seq<char>>)
    ensures
        dedup_seq(s).no_duplicates(),
    decreases s.len(),
{
    if s.len() > 0 {
        lemma_dedup_no_duplicates(s.drop_last());
        let p = dedup_seq(s.drop_last());
        if !p.contains(s.last()) {
            assert forall|a: int, b: int| 0 <= a < b < p.push(s.last()).len() implies p.push(
                s.last(),
            )[a] != p.push(s.last())[b] by {
                if b == p.len() {
                    assert(p[a] == p.push(s.last())[a]);
                }
            }
        }
    }
}

/// Merging never adds records: at most as many merged businesses as
/// records.
pub proof fn lemma_dedup_not_longer(s: Seq<Seq<char>>)
    ensures
        dedup_seq(s).len() <= s.len(),
    decreases s.len(),
{
    if s.len() > 0 {
        lemma_dedup_not_longer(s.drop_last());
    }
}

/// Every entry of the list is kept.
pub proof fn lemma_dedup_contains(s: Seq<Seq<char>>, j: int)
    requires
        0 <= j < s.len(),
    ensures
        dedup_seq(s).contains(s[j]),
    decreases s.len(),
{
    let p = dedup_seq(s.drop_last());
    if j < s.len() - 1 {
        lemma_dedup_contains(s.drop_last(), j);
        assert(s.drop_last()[j] == s[j]);
        if !p.contains(s.last()) {
            let m = choose|m: int| 0 <= m < p.len() && p[m] == s[j];
            assert(p.push(s.last())[m] == s[j]);
        }
    } else {
        if !p.contains(s.last()) {
            assert(p.push(s.last())[p.len() as int] == s[j]);
        }
    }
}

} // verus!

verus! {

// ---------------------------------------------------------------------------
// The exported file
// ---------------------------------------------------------------------------

/// The records still to export: those never exported before.
pub fn unexported_businesses(list: Vec<Business>) -> (res: Vec<Business>)
    ensures
        res@ == list@.filter(|b: Business| b.exported_at is None),
{
    let ghost input = list@;
    let mut out: Vec<Business> = Vec::new();
    let mut rest = list;
    let mut i: usize = 0;
    let n = rest.len();
    while rest.len() > 0
        invariant
            i + rest.len() == n,
            n == input.len(),
            rest@ == input.skip(i as int),
            out@ == input.take(i as int).filter(|b: Business| b.exported_at is None),
        decreases rest.len(),
    {
        let b = rest.remove(0);
        assert(rest@ =~= input.skip(i + 1));
        assert(b == input[i as int]);
        proof {
            assert(input.take(i + 1).drop_last() =~= input.take(i as int));
            reveal(Seq::filter);
        }
        if b.exported_at.is_none() {
            out.push(b);
        }
        i = i + 1;
    }
    assert(input.take(i as int) =~= input);
    out
}

/// What an export works on: the records merged, and what was read.
pub struct ExportPlan {
    pub exported_business_ids: Vec<i64>,
    pub input_records: usize,
    pub merged: Vec<MergedBusiness>,
}

/// Refuses an export without records; otherwise remembers every record
/// read (to mark it exported) and merges them.
pub fn plan_export(businesses: Vec<Business>) -> (res: Result<ExportPlan, String>)
    ensures
        match res {
            Ok(p) => {
                &&& businesses.len() > 0
                &&& p.input_records == businesses.len()
                &&& p.exported_business_ids@ == businesses@.map_values(|b: Business| b.id)
                &&& p.merged.len() == dedup_seq(
                    businesses@.map_values(|b: Business| business_key(b)),
                ).len()
                &&& p.merged.len() == dedup_fold(businesses@).len()
                &&& forall|k: int|
                    0 <= k < p.merged.len() ==> merged_view(#[trigger] p.merged@[k]) == dedup_fold(
                        businesses@,
                    )[k].1
            },
            Err(m) => businesses.len() == 0 && m@ == "所选任务没有未导出的商家"@,
        },
{
    if businesses.len() == 0 {
        return Err(owned("所选任务没有未导出的商家"));
    }
    let mut ids: Vec<i64> = Vec::new();
    let mut i: usize = 0;
    while i < businesses.len()
        invariant
            i <= businesses.len(),
            ids@ == businesses@.take(i as int).map_values(|b: Business| b.id),
        decreases businesses.len() - i,
    {
        ids.push(businesses[i].id);
        assert(ids@ =~= businesses@.take(i + 1).map_values(|b: Business| b.id));
        i = i + 1;
    }
    assert(businesses@.take(i as int) =~= businesses@);
    let input_records = businesses.len();
    let merged = deduplicate_businesses(businesses);
    Ok(ExportPlan { exported_business_ids: ids, input_records, merged })
}

/// The counts an export reports.
pub fn export_result(path: String, source_jobs: usize, input_records: usize, exported_records: usize) -> (res:
    ExportResult)
    ensures
        res.path@ == path@,
        res.source_jobs == source_jobs,
        res.input_records == input_records,
        res.exported_records == exported_records,
        res.duplicates_removed == (if input_records >= exported_records {
            input_records - exported_records
        } else {
            0
        }),
{
    ExportResult {
        path,
        source_jobs,
        input_records,
        exported_records,
        duplicates_removed: input_records.saturating_sub(exported_records),
    }
}

/// The name of an export file for `job_count` tasks written at `stamp`
/// (the local time as `YYYYMMDD-HHMMSS`).
pub fn export_file_name(job_count: usize, stamp: &str) -> (res: String)
    ensures
        res@ == "businesses-"@ + decimal(job_count as nat) + "-tasks-"@ + stamp@ + ".csv"@,
{
    let mut out = chars_of("businesses-");
    let count = decimal_string(job_count as u64);
    append_str(&mut out, count.as_str());
    append_str(&mut out, "-tasks-");
    append_str(&mut out, stamp);
    append_str(&mut out, ".csv");
    string_from_chars(&out)
}

/// The label of a task in the export: `keyword | location`.
pub fn job_label(job: &SearchJob) -> (res: String)
    ensures
        res@ == job.keyword@ + " | "@ + job.location@,
{
    let mut out = chars_of(job.keyword.as_str());
    append_str(&mut out, " | ");
    append_str(&mut out, job.location.as_str());
    string_from_chars(&out)
}

pub open spec fn export_header() -> Seq<Seq<char>> {
    seq![
        "来源任务"@, "名称"@, "主营分类"@, "电话"@, "地址"@, "官网"@, "Facebook 链接"@, "邮箱"@,
        "业务摘要"@, "评分"@, "评价数"@, "Google Maps 链接"@, "邮箱来源"@, "状态"@, "错误"@,
    ]
}

pub fn export_header_row() -> (res: Vec<String>)
    ensures
        strs(res@) == export_header(),
{
    let names = vec![
        "来源任务", "名称", "主营分类", "电话", "地址", "官网", "Facebook 链接", "邮箱", "业务摘要",
        "评分", "评价数", "Google Maps 链接", "邮箱来源", "状态", "错误",
    ];
    assert(names@.map_values(|s: &str| s@) =~= export_header());
    let mut out: Vec<String> = Vec::new();
    let mut i: usize = 0;
    while i < names.len()
        invariant
            i <= names.len(),
            names@.map_values(|s: &str| s@) == export_header(),
            strs(out@) == export_header().take(i as int),
        decreases names.len() - i,
    {
        let name = owned(names[i]);
        assert(names@.map_values(|s: &str| s@)[i as int] == names@[i as int]@);
        assert(name@ == export_header()[i as int]);
        let ghost before = strs(out@);
        out.push(name);
        assert(strs(out@) =~= before.push(name@));
        assert(strs(out@) =~= export_header().take(i + 1));
        i = i + 1;
    }
    assert(export_header().take(i as int) =~= export_header());
    out
}

/// The label recorded for a task.
pub open spec fn label_of(labels: Seq<(Seq<char>, Seq<char>)>, id: Seq<char>) -> Option<Seq<char>>
    decreases labels.len(),
{
    if labels.len() == 0 {
        None
    } else if labels[0].0 == id {
        Some(labels[0].1)
    } else {
        label_of(labels.drop_first(), id)
    }
}

/// The labels of the tasks a business came from (tasks without a label left out).
pub open spec fn source_labels(ids: Seq<Seq<char>>, labels: Seq<(Seq<char>, Seq<char>)>) -> Seq<
    Seq<char>,
>
    decreases ids.len(),
{
    if ids.len() == 0 {
        Seq::empty()
    } else {
        source_labels(ids.drop_last(), labels) + match label_of(labels, ids.last()) {
            Some(l) => seq![l],
            None => Seq::empty(),
        }
    }
}

fn label_of_exec(labels: &Vec<(String, String)>, id: &String) -> (res: Option<String>)
    ensures
        match res {
            Some(l) => label_of(crate::crawl::pair_views(labels@), id@) == Some(l@),
            None => label_of(crate::crawl::pair_views(labels@), id@) is None,
        },
{
    let ghost lv = crate::crawl::pair_views(labels@);
    let mut i: usize = 0;
    assert(lv.skip(0) =~= lv);
    while i < labels.len()
        invariant
            i <= labels.len(),
            lv == crate::crawl::pair_views(labels@),
            label_of(lv, id@) == label_of(lv.skip(i as int), id@),
        decreases labels.len() - i,
    {
        assert(lv.skip(i as int).drop_first() =~= lv.skip(i + 1));
        assert(lv.skip(i as int)[0] == lv[i as int]);
        if labels[i].0 == *id {
            return Some(labels[i].1.clone());
        }
        i = i + 1;
    }
    None
}

/// The strings joined with `sep` between each two.
pub fn join_strings(parts: &Vec<String>, sep: &str) -> (res: String)
    ensures
        res@ == crate::text::join(strs(parts@), sep@),
{
    let mut out: Vec<char> = Vec::new();
    let mut i: usize = 0;
    while i < parts.len()
        invariant
            i <= parts.len(),
            out@ == crate::text::join(strs(parts@).take(i as int), sep@),
        decreases parts.len() - i,
    {
        let ghost before = strs(parts@).take(i as int);
        assert(strs(parts@).take(i + 1) =~= before.push(parts@[i as int]@));
        proof {
            crate::text::lemma_join_push(before, sep@, parts@[i as int]@);
        }
        if i > 0 {
            append_str(&mut out, sep);
        }
        append_str(&mut out, parts[i].as_str());
        i = i + 1;
    }
    assert(strs(parts@).take(i as int) =~= strs(parts@));
    string_from_chars(&out)
}

pub open spec fn review_count_text(n: Option<u32>) -> Seq<char> {
    match n {
        Some(v) => decimal(v as nat),
        None => Seq::empty(),
    }
}

/// The row of one business: its task labels, name, category, phone,
/// address, website, Facebook pages, addresses, summary, rating (as the
/// caller formats it), review count, Maps link, address sources, status and
/// error; lists joined by `; `.
pub open spec fn export_row_spec(
    item: MergedBusiness,
    labels: Seq<(Seq<char>, Seq<char>)>,
    rating_text: Seq<char>,
) -> Seq<Seq<char>> {
    let b = item.business;
    seq![
        crate::text::join(source_labels(strs(item.source_job_ids@), labels), "; "@),
        b.name@,
        b.category@,
        b.phone@,
        b.address@,
        b.website@,
        crate::text::join(strs(b.facebook_urls@), "; "@),
        crate::text::join(strs(b.emails@), "; "@),
        b.business_summary@,
        rating_text,
        review_count_text(b.review_count),
        b.maps_url@,
        crate::text::join(strs(b.email_source_urls@), "; "@),
        b.status@,
        b.error@,
    ]
}

/// What the export writes under the column named `column` for a business:
/// the labels of its tasks, its name, category, phone, address, website,
/// Facebook pages, addresses, summary, rating, review count, Maps link,
/// address sources, status or error.
pub open spec fn export_field(
    item: MergedBusiness,
    labels: Seq<(Seq<char>, Seq<char>)>,
    rating_text: Seq<char>,
    column: Seq<char>,
) -> Seq<char> {
    let b = item.business;
    if column == "来源任务"@ {
        crate::text::join(source_labels(strs(item.source_job_ids@), labels), "; "@)
    } else if column == "名称"@ {
        b.name@
    } else if column == "主营分类"@ {
        b.category@
    } else if column == "电话"@ {
        b.phone@
    } else if column == "地址"@ {
        b.address@
    } else if column == "官网"@ {
        b.website@
    } else if column == "Facebook 链接"@ {
        crate::text::join(strs(b.facebook_urls@), "; "@)
    } else if column == "邮箱"@ {
        crate::text::join(strs(b.emails@), "; "@)
    } else if column == "业务摘要"@ {
        b.business_summary@
    } else if column == "评分"@ {
        rating_text
    } else if column == "评价数"@ {
        review_count_text(b.review_count)
    } else if column == "Google Maps 链接"@ {
        b.maps_url@
    } else if column == "邮箱来源"@ {
        crate::text::join(strs(b.email_source_urls@), "; "@)
    } else if column == "状态"@ {
        b.status@
    } else if column == "错误"@ {
        b.error@
    } else {
        Seq::empty()
    }
}

/// Each cell of an export row holds what the header cell above it names:
/// the row is as long as the header, and its `j`-th cell is the field that
/// the `j`-th header names (the phone under 电话, the address under 地址).
pub proof fn lemma_export_row_follows_header(
    item: MergedBusiness,
    labels: Seq<(Seq<char>, Seq<char>)>,
    rating_text: Seq<char>,
)
    ensures
        export_row_spec(item, labels, rating_text).len() == export_header().len(),
        forall|j: int|
            0 <= j < export_header().len() ==> #[trigger] export_row_spec(item, labels, rating_text)[j]
                == export_field(item, labels, rating_text, export_header()[j]),
{
    reveal_strlit("来源任务");
    reveal_strlit("名称");
    reveal_strlit("主营分类");
    reveal_strlit("电话");
    reveal_strlit("地址");
    reveal_strlit("官网");
    reveal_strlit("Facebook 链接");
    reveal_strlit("邮箱");
    reveal_strlit("业务摘要");
    reveal_strlit("评分");
    reveal_strlit("评价数");
    reveal_strlit("Google Maps 链接");
    reveal_strlit("邮箱来源");
    reveal_strlit("状态");
    reveal_strlit("错误");
    let row = export_row_spec(item, labels, rating_text);
    let h = export_header();
    assert forall|j: int| 0 <= j < h.len() implies #[trigger] row[j] == export_field(
        item,
        labels,
        rating_text,
        h[j],
    ) by {
        // Each header name differs from those tested before it in `export_field`.
        if j == 0 {
            assert(h[0] == "来源任务"@);
        } else if j == 1 {
            assert("名称"@.len() != "来源任务"@.len());
            assert(h[1] == "名称"@);
        } else if j == 2 {
            assert("主营分类"@[0] != "来源任务"@[0]);
            assert("主营分类"@.len() != "名称"@.len());
            assert(h[2] == "主营分类"@);
        } else if j == 3 {
            assert("电话"@.len() != "来源任务"@.len());
            assert("电话"@[0] != "名称"@[0]);
            assert("电话"@.len() != "主营分类"@.len());
            assert(h[3] == "电话"@);
        } else if j == 4 {
            assert("地址"@.len() != "来源任务"@.len());
            assert("地址"@[0] != "名称"@[0]);
            assert("地址"@.len() != "主营分类"@.len());
            assert("地址"@[0] != "电话"@[0]);
            assert(h[4] == "地址"@);
        } else if j == 5 {
            assert("官网"@.len() != "来源任务"@.len());
            assert("官网"@[0] != "名称"@[0]);
            assert("官网"@.len() != "主营分类"@.len());
            assert("官网"@[0] != "电话"@[0]);
            assert("官网"@[0] != "地址"@[0]);
            assert(h[5] == "官网"@);
        } else if j == 6 {
            assert("Facebook 链接"@.len() != "来源任务"@.len());
            assert("Facebook 链接"@.len() != "名称"@.len());
            assert("Facebook 链接"@.len() != "主营分类"@.len());
            assert("Facebook 链接"@.len() != "电话"@.len());
            assert("Facebook 链接"@.len() != "地址"@.len());
            assert("Facebook 链接"@.len() != "官网"@.len());
            assert(h[6] == "Facebook 链接"@);
        } else if j == 7 {
            assert("邮箱"@.len() != "来源任务"@.len());
            assert("邮箱"@[0] != "名称"@[0]);
            assert("邮箱"@.len() != "主营分类"@.len());
            assert("邮箱"@[0] != "电话"@[0]);
            assert("邮箱"@[0] != "地址"@[0]);
            assert("邮箱"@[0] != "官网"@[0]);
            assert("邮箱"@.len() != "Facebook 链接"@.len());
            assert(h[7] == "邮箱"@);
        } else if j == 8 {
            assert("业务摘要"@[0] != "来源任务"@[0]);
            assert("业务摘要"@.len() != "名称"@.len());
            assert("业务摘要"@[0] != "主营分类"@[0]);
            assert("业务摘要"@.len() != "电话"@.len());
            assert("业务摘要"@.len() != "地址"@.len());
            assert("业务摘要"@.len() != "官网"@.len());
            assert("业务摘要"@.len() != "Facebook 链接"@.len());
            assert("业务摘要"@.len() != "邮箱"@.len());
            assert(h[8] == "业务摘要"@);
        } else if j == 9 {
            assert("评分"@.len() != "来源任务"@.len());
            assert("评分"@[0] != "名称"@[0]);
            assert("评分"@.len() != "主营分类"@.len());
            assert("评分"@[0] != "电话"@[0]);
            assert("评分"@[0] != "地址"@[0]);
            assert("评分"@[0] != "官网"@[0]);
            assert("评分"@.len() != "Facebook 链接"@.len());
            assert("评分"@[0] != "邮箱"@[0]);
            assert("评分"@.len() != "业务摘要"@.len());
            assert(h[9] == "评分"@);
        } else if j == 10 {
            assert("评价数"@.len() != "来源任务"@.len());
            assert("评价数"@.len() != "名称"@.len());
            assert("评价数"@.len() != "主营分类"@.len());
            assert("评价数"@.len() != "电话"@.len());
            assert("评价数"@.len() != "地址"@.len());
            assert("评价数"@.len() != "官网"@.len());
            assert("评价数"@.len() != "Facebook 链接"@.len());
            assert("评价数"@.len() != "邮箱"@.len());
            assert("评价数"@.len() != "业务摘要"@.len());
            assert("评价数"@.len() != "评分"@.len());
            assert(h[10] == "评价数"@);
        } else if j == 11 {
            assert("Google Maps 链接"@.len() != "来源任务"@.len());
            assert("Google Maps 链接"@.len() != "名称"@.len());
            assert("Google Maps 链接"@.len() != "主营分类"@.len());
            assert("Google Maps 链接"@.len() != "电话"@.len());
            assert("Google Maps 链接"@.len() != "地址"@.len());
            assert("Google Maps 链接"@.len() != "官网"@.len());
            assert("Google Maps 链接"@.len() != "Facebook 链接"@.len());
            assert("Google Maps 链接"@.len() != "邮箱"@.len());
            assert("Google Maps 链接"@.len() != "业务摘要"@.len());
            assert("Google Maps 链接"@.len() != "评分"@.len());
            assert("Google Maps 链接"@.len() != "评价数"@.len());
            assert(h[11] == "Google Maps 链接"@);
        } else if j == 12 {
            assert("邮箱来源"@[0] != "来源任务"@[0]);
            assert("邮箱来源"@.len() != "名称"@.len());
            assert("邮箱来源"@[0] != "主营分类"@[0]);
            assert("邮箱来源"@.len() != "电话"@.len());
            assert("邮箱来源"@.len() != "地址"@.len());
            assert("邮箱来源"@.len() != "官网"@.len());
            assert("邮箱来源"@.len() != "Facebook 链接"@.len());
            assert("邮箱来源"@.len() != "邮箱"@.len());
            assert("邮箱来源"@[0] != "业务摘要"@[0]);
            assert("邮箱来源"@.len() != "评分"@.len());
            assert("邮箱来源"@.len() != "评价数"@.len());
            assert("邮箱来源"@.len() != "Google Maps 链接"@.len());
            assert(h[12] == "邮箱来源"@);
        } else if j == 13 {
            assert("状态"@.len() != "来源任务"@.len());
            assert("状态"@[0] != "名称"@[0]);
            assert("状态"@.len() != "主营分类"@.len());
            assert("状态"@[0] != "电话"@[0]);
            assert("状态"@[0] != "地址"@[0]);
            assert("状态"@[0] != "官网"@[0]);
            assert("状态"@.len() != "Facebook 链接"@.len());
            assert("状态"@[0] != "邮箱"@[0]);
            assert("状态"@.len() != "业务摘要"@.len());
            assert("状态"@[0] != "评分"@[0]);
            assert("状态"@.len() != "评价数"@.len());
            assert("状态"@.len() != "Google Maps 链接"@.len());
            assert("状态"@.len() != "邮箱来源"@.len());
            assert(h[13] == "状态"@);
        } else {
            assert("错误"@.len() != "来源任务"@.len());
            assert("错误"@[0] != "名称"@[0]);
            assert("错误"@.len() != "主营分类"@.len());
            assert("错误"@[0] != "电话"@[0]);
            assert("错误"@[0] != "地址"@[0]);
            assert("错误"@[0] != "官网"@[0]);
            assert("错误"@.len() != "Facebook 链接"@.len());
            assert("错误"@[0] != "邮箱"@[0]);
            assert("错误"@.len() != "业务摘要"@.len());
            assert("错误"@[0] != "评分"@[0]);
            assert("错误"@.len() != "评价数"@.len());
            assert("错误"@.len() != "Google Maps 链接"@.len());
            assert("错误"@.len() != "邮箱来源"@.len());
            assert("错误"@[0] != "状态"@[0]);
            assert(h[14] == "错误"@);
        }
    }
}

pub fn export_row(item: &MergedBusiness, labels: &Vec<(String, String)>, rating_text: &str) -> (res:
    Vec<String>)
    ensures
        strs(res@) == export_row_spec(*item, crate::crawl::pair_views(labels@), rating_text@),
{
    let ghost lv = crate::crawl::pair_views(labels@);
    let ghost ids = strs(item.source_job_ids@);
    let mut found: Vec<String> = Vec::new();
    let mut i: usize = 0;
    while i < item.source_job_ids.len()
        invariant
            i <= item.source_job_ids.len(),
            lv == crate::crawl::pair_views(labels@),
            ids == strs(item.source_job_ids@),
            strs(found@) == source_labels(ids.take(i as int), lv),
        decreases item.source_job_ids.len() - i,
    {
        assert(ids.take(i + 1).drop_last() =~= ids.take(i as int));
        match label_of_exec(labels, &item.source_job_ids[i]) {
            Some(l) => {
                found.push(l);
                assert(strs(found@) =~= source_labels(ids.take(i + 1), lv));
            },
            None => {
                assert(strs(found@) =~= source_labels(ids.take(i + 1), lv));
            },
        }
        i = i + 1;
    }
    assert(ids.take(i as int) =~= ids);
    let b = &item.business;
    let review = match b.review_count {
        Some(v) => decimal_string(v as u64),
        None => empty_string(),
    };
    let row = vec![
        join_strings(&found, "; "),
        b.name.clone(),
        b.category.clone(),
        b.phone.clone(),
        b.address.clone(),
        b.website.clone(),
        join_strings(&b.facebook_urls, "; "),
        join_strings(&b.emails, "; "),
        b.business_summary.clone(),
        owned(rating_text),
        review,
        b.maps_url.clone(),
        join_strings(&b.email_source_urls, "; "),
        b.status.clone(),
        b.error.clone(),
    ];
    assert(strs(row@) =~= export_row_spec(*item, lv, rating_text@));
    row
}

/// The bytes of an export file: the UTF-8 byte order mark, then the CSV
/// text of `rows`; or the message of the CSV writer's error.
pub fn export_file_bytes(rows: &Vec<Vec<String>>) -> (res: Result<Vec<u8>, String>)
    ensures
        match res {
            Ok(b) => crate::csvfile::csv_written(crate::csvfile::rows_view(rows@)) matches Ok(w)
                && b@ == crate::csvfile::bom() + w,
            Err(m) => crate::csvfile::csv_written(crate::csvfile::rows_view(rows@)) matches Err(e)
                && m@ == e.1,
        },
{
    match crate::csvfile::write_csv_records(rows) {
        Ok(bytes) => Ok(crate::csvfile::prefix_bom(&bytes)),
        Err((_, m)) => Err(m),
    }
}

} // verus!
