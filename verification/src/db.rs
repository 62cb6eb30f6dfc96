//! What the store keeps besides plain columns: lists saved as JSON text,
//! the checks on an edited address list, and the statement that marks
//! businesses as exported.
use vstd::prelude::*;

use crate::emails::{collected_emails, filter_email_list};
use crate::models::{strs, WebsiteResult};
use crate::order::strictly_sorted;
use crate::text::{append_str, blank, is_blank, join, owned, string_from_chars};

verus! {

/// What `serde_json::from_str::<Vec<String>>` gives for a text: the
/// strings of a JSON array of strings, or nothing for any other text.
pub uninterp spec fn json_string_list(text: Seq<char>) -> Option<Seq<Seq<char>>>;

/// What `serde_json::to_string` gives for a list of strings: the JSON
/// text, or the message of its error.
pub uninterp spec fn json_list_text(list: Seq<Seq<char>>) -> Result<Seq<char>, Seq<char>>;

/// `serde_json::from_str::<Vec<String>>`; the contract names the result.
#[verifier::external_body]
fn parse_string_list(text: &str) -> (res: Option<Vec<String>>)
    ensures
        match res {
            Some(v) => json_string_list(text@) == Some(strs(v@)),
            None => json_string_list(text@) is None,
        },
{
    serde_json::from_str::<Vec<String>>(text).ok()
}

/// `serde_json::to_string` on a list of strings, the error taken by its
/// message; the contract names the result.
#[verifier::external_body]
pub(crate) fn encode_string_list(list: &Vec<String>) -> (res: Result<String, String>)
    ensures
        match res {
            Ok(t) => json_list_text(strs(list@)) == Ok::<Seq<char>, Seq<char>>(t@),
            Err(e) => json_list_text(strs(list@)) == Err::<Seq<char>, Seq<char>>(e@),
        },
{
    serde_json::to_string(list).map_err(|error| error.to_string())
}

/// A saved list read back: the strings of its JSON text, or no strings
/// when the text is not a JSON array of strings.
pub fn stored_list(text: &str) -> (res: Vec<String>)
    ensures
        strs(res@) == match json_string_list(text@) {
            Some(l) => l,
            None => Seq::empty(),
        },
{
    match parse_string_list(text) {
        Some(v) => v,
        None => {
            let v: Vec<String> = Vec::new();
            assert(strs(v@) =~= Seq::<Seq<char>>::empty());
            v
        },
    }
}

/// `res` lists the public addresses found in `values`, each once, in
/// ascending order.
pub open spec fn lists_addresses_of(res: Seq<Seq<char>>, values: Seq<Seq<char>>) -> bool {
    &&& strictly_sorted(res)
    &&& forall|x: Seq<char>| #[trigger] res.contains(x) <==> exists|i: int|
        0 <= i < values.len() && #[trigger] collected_emails(values[i]).contains(x)
}

/// Saved addresses read back: the saved list, cleaned like any address
/// list.
pub fn stored_emails(text: &str) -> (res: Vec<String>)
    ensures
        lists_addresses_of(
            strs(res@),
            match json_string_list(text@) {
                Some(l) => l,
                None => Seq::empty(),
            },
        ),
{
    let values = stored_list(text);
    let ghost vs = strs(values@);
    let res = filter_email_list(values);
    assert forall|x: Seq<char>| #[trigger] strs(res@).contains(x) <==> exists|i: int|
        0 <= i < vs.len() && #[trigger] collected_emails(vs[i]).contains(x) by {
        if strs(res@).contains(x) {
            let i = choose|i: int| 0 <= i < values@.len() && #[trigger] collected_emails(values@[i]@).contains(x);
            assert(vs[i] == values@[i]@);
        }
        if exists|i: int| 0 <= i < vs.len() && #[trigger] collected_emails(vs[i]).contains(x) {
            let i = choose|i: int| 0 <= i < vs.len() && #[trigger] collected_emails(vs[i]).contains(x);
            assert(vs[i] == values@[i]@);
        }
    }
    res
}

/// Some value has text besides whitespace.
pub open spec fn has_value(values: Seq<Seq<char>>) -> bool {
    exists|i: int| 0 <= i < values.len() && !is_blank(#[trigger] values[i])
}

/// Some value holds a public address.
pub open spec fn has_address(values: Seq<Seq<char>>) -> bool {
    exists|i: int, x: Seq<char>| 0 <= i < values.len() && #[trigger] collected_emails(values[i]).contains(x)
}

/// An edited address list: the public addresses found in it, each once and
/// in order, with their JSON text; refused when something was entered but
/// no address was found in it.
pub fn email_update(values: Vec<String>) -> (res: Result<(Vec<String>, String), String>)
    ensures
        ({
            let vs = strs(values@);
            if has_value(vs) && !has_address(vs) {
                res matches Err(e) && e@ == "请输入有效的邮箱地址"@
            } else {
                match res {
                    Ok((emails, text)) => lists_addresses_of(strs(emails@), vs) && json_list_text(
                        strs(emails@),
                    ) == Ok::<Seq<char>, Seq<char>>(text@),
                    Err(e) => exists|l: Seq<Seq<char>>|
                        lists_addresses_of(l, vs) && json_list_text(l) == Err::<Seq<char>, Seq<char>>(
                            e@,
                        ),
                }
            }
        }),
{
    let ghost vs = strs(values@);
    let mut entered = false;
    let mut i: usize = 0;
    while i < values.len()
        invariant
            i <= values.len(),
            vs == strs(values@),
            entered == exists|k: int| 0 <= k < i && !is_blank(#[trigger] vs[k]),
        decreases values.len() - i,
    {
        assert(vs[i as int] == values@[i as int]@);
        if !blank(values[i].as_str()) {
            entered = true;
        }
        i = i + 1;
    }
    let emails = filter_email_list(values);
    proof {
        assert forall|x: Seq<char>| #[trigger] strs(emails@).contains(x) <==> exists|k: int|
            0 <= k < vs.len() && #[trigger] collected_emails(vs[k]).contains(x) by {
            if strs(emails@).contains(x) {
                let k = choose|k: int| 0 <= k < values@.len() && #[trigger] collected_emails(values@[k]@).contains(x);
                assert(vs[k] == values@[k]@);
            }
            if exists|k: int| 0 <= k < vs.len() && #[trigger] collected_emails(vs[k]).contains(x) {
                let k = choose|k: int| 0 <= k < vs.len() && #[trigger] collected_emails(vs[k]).contains(x);
                assert(vs[k] == values@[k]@);
            }
        }
        if has_address(vs) {
            let (k, x) = choose|k: int, x: Seq<char>| 0 <= k < vs.len() && #[trigger] collected_emails(vs[k]).contains(x);
            assert(strs(emails@).contains(x));
        }
        if emails.len() > 0 {
            assert(strs(emails@).contains(strs(emails@)[0]));
        }
    }
    if entered && emails.len() == 0 {
        return Err(owned("请输入有效的邮箱地址"));
    }
    match encode_string_list(&emails) {
        Ok(text) => Ok((emails, text)),
        Err(e) => Err(e),
    }
}

/// The JSON texts of the lists a website crawl stores: addresses, their
/// source pages and Facebook pages.
pub fn website_lists(result: &WebsiteResult) -> (res: Result<(String, String, String), String>)
    ensures
        match res {
            Ok((a, b, c)) => json_list_text(strs(result.emails@)) == Ok::<Seq<char>, Seq<char>>(a@)
                && json_list_text(strs(result.source_urls@)) == Ok::<Seq<char>, Seq<char>>(b@)
                && json_list_text(strs(result.facebook_urls@)) == Ok::<Seq<char>, Seq<char>>(c@),
            Err(e) => json_list_text(strs(result.emails@)) == Err::<Seq<char>, Seq<char>>(e@) || (
            json_list_text(strs(result.emails@)) is Ok && (json_list_text(strs(result.source_urls@))
                == Err::<Seq<char>, Seq<char>>(e@) || (json_list_text(strs(result.source_urls@)) is Ok
                && json_list_text(strs(result.facebook_urls@)) == Err::<Seq<char>, Seq<char>>(e@)))),
        },
{
    let a = match encode_string_list(&result.emails) {
        Ok(t) => t,
        Err(e) => return Err(e),
    };
    let b = match encode_string_list(&result.source_urls) {
        Ok(t) => t,
        Err(e) => return Err(e),
    };
    let c = match encode_string_list(&result.facebook_urls) {
        Ok(t) => t,
        Err(e) => return Err(e),
    };
    Ok((a, b, c))
}

/// `count` placeholders `?` separated by `, `.
pub open spec fn placeholders(count: nat) -> Seq<char> {
    join(Seq::new(count, |i: int| "?"@), ", "@)
}

/// The statement that marks `count` businesses as exported: the export
/// time and update time are its first two parameters, the ids follow; none
/// for no business.
pub fn mark_exported_sql(count: usize) -> (res: Option<String>)
    ensures
        count == 0 ==> res is None,
        count > 0 ==> (res matches Some(s) && s@
            == "UPDATE businesses SET exported_at = ?1, updated_at = ?2 WHERE id IN ("@ + placeholders(
            count as nat,
        ) + ")"@),
{
    if count == 0 {
        return None;
    }
    let mut out: Vec<char> = Vec::new();
    append_str(&mut out, "UPDATE businesses SET exported_at = ?1, updated_at = ?2 WHERE id IN (");
    let ghost head = out@;
    let mut i: usize = 0;
    assert(Seq::new(0, |k: int| "?"@) =~= Seq::<Seq<char>>::empty());
    while i < count
        invariant
            i <= count,
            out@ == head + placeholders(i as nat),
        decreases count - i,
    {
        proof {
            assert(Seq::new((i + 1) as nat, |k: int| "?"@) =~= Seq::new(i as nat, |k: int| "?"@).push("?"@));
            crate::text::lemma_join_push(Seq::new(i as nat, |k: int| "?"@), ", "@, "?"@);
        }
        if i > 0 {
            append_str(&mut out, ", ");
        }
        append_str(&mut out, "?");
        proof {
            if i == 0 {
                assert(out@ =~= head + placeholders((i + 1) as nat));
            } else {
                assert(out@ =~= head + placeholders((i + 1) as nat));
            }
        }
        i = i + 1;
    }
    append_str(&mut out, ")");
    Some(string_from_chars(&out))
}

} // verus!
