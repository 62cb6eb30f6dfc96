//! Public e-mail addresses: which texts count as one, how they are dug out of
//! page text (including simple obfuscations), and how saved lists are cleaned.
use vstd::prelude::*;

use crate::models::strs;
use crate::order::{insert_sorted, push_unique, strictly_sorted};
use crate::regexes::{find_all, is_match, regex_found, regex_matches, regex_replaced, replace_all};
use crate::text::{
    append_chars, byte_len, byte_len_above, chars_of, contains, contains_str, eq_str, has_char,
    in_list, is_ascii_alpha, lower, lower_char, lower_chars, rfind_char, rfind_char_exec,
    string_from_chars, sub_chars, ascii_alpha,
};

verus! {

// ---------------------------------------------------------------------------
// The lists and patterns that decide what a public address is
// ---------------------------------------------------------------------------

pub open spec fn asset_extensions() -> Seq<Seq<char>> {
    seq![
        "avif"@, "bmp"@, "css"@, "gif"@, "ico"@, "jpeg"@, "jpg"@, "js"@, "json"@, "map"@, "png"@,
        "svg"@, "tif"@, "tiff"@, "webp"@, "woff"@, "woff2"@,
    ]
}

pub fn asset_extension_list() -> (res: Vec<&'static str>)
    ensures
        res@.map_values(|s: &str| s@) == asset_extensions(),
{
    let v = vec![
        "avif", "bmp", "css", "gif", "ico", "jpeg", "jpg", "js", "json", "map", "png", "svg", "tif",
        "tiff", "webp", "woff", "woff2",
    ];
    assert(v@.map_values(|s: &str| s@) =~= asset_extensions());
    v
}

pub open spec fn blocked_email_domains() -> Seq<Seq<char>> {
    seq![
        "example.com"@, "example.org"@, "example.net"@, "sentry.io"@, "hugedomains.com"@,
        "sedo.com"@, "godaddy.com"@, "namecheap.com"@, "domain.com"@, "parkingcrew.net"@,
        "mystore.com"@, "yourdomain.com"@, "email.com"@, "myemail.com"@, "site.com"@,
        "maestra.io"@, "shopify.com"@, "wix.com"@, "wixsite.com"@, "squarespace.com"@,
        "klaviyo.com"@, "mailchimp.com"@, "zendesk.com"@, "intercom.io"@, "getresponse.com"@,
        "cloudflare.com"@, "google.com"@, "facebook.com"@, "instagram.com"@, "tiktok.com"@,
        "whatnot.com"@, "wolt.com"@, "doordash.com"@, "ubereats.com"@, "grubhub.com"@,
        "yelp.com"@, "tripadvisor.com"@, "ivof.com"@,
    ]
}

pub fn blocked_email_domain_list() -> (res: Vec<&'static str>)
    ensures
        res@.map_values(|s: &str| s@) == blocked_email_domains(),
{
    let v = vec![
        "example.com", "example.org", "example.net", "sentry.io", "hugedomains.com", "sedo.com",
        "godaddy.com", "namecheap.com", "domain.com", "parkingcrew.net", "mystore.com",
        "yourdomain.com", "email.com", "myemail.com", "site.com", "maestra.io", "shopify.com",
        "wix.com", "wixsite.com", "squarespace.com", "klaviyo.com", "mailchimp.com", "zendesk.com",
        "intercom.io", "getresponse.com", "cloudflare.com", "google.com", "facebook.com",
        "instagram.com", "tiktok.com", "whatnot.com", "wolt.com", "doordash.com", "ubereats.com",
        "grubhub.com", "yelp.com", "tripadvisor.com", "ivof.com",
    ];
    assert(v@.map_values(|s: &str| s@) =~= blocked_email_domains());
    v
}

pub open spec fn placeholder_email_locals() -> Seq<Seq<char>> {
    seq![
        "john.doe"@, "jane.doe"@, "johnsmith"@, "janesmith"@, "test"@, "test1"@, "example"@,
        "user"@, "username"@, "yourname"@, "jean.dupont"@, "firstname.lastname"@,
        "name.surname"@,
    ]
}

pub fn placeholder_email_local_list() -> (res: Vec<&'static str>)
    ensures
        res@.map_values(|s: &str| s@) == placeholder_email_locals(),
{
    let v = vec![
        "john.doe", "jane.doe", "johnsmith", "janesmith", "test", "test1", "example", "user",
        "username", "yourname", "jean.dupont", "firstname.lastname", "name.surname",
    ];
    assert(v@.map_values(|s: &str| s@) =~= placeholder_email_locals());
    v
}

/// Domains such as `myemail.xyz` or `fakemail.net` that stand in for no real mailbox.
pub const PLACEHOLDER_DOMAIN_PATTERN: &'static str = "(?i)(?:my|fake|test|sample|your|no)?(?:email|mail)";

/// Local parts that come from image or asset file names (`photo_1280x@2x`).
pub const ASSET_LOCAL_PATTERN: &'static str = "(?i)(?:@2x|\\d+x|placeholder|image|photo|asset)[._-]";

/// Links to images, styles, scripts and fonts, whose names often look like addresses.
pub const ASSET_URL_PATTERN: &'static str =
    "(?i)(?://|https?://)[^\\s\\\"'<>]*?\\.(?:avif|bmp|css|gif|ico|jpe?g|js|json|map|png|svg|tiff?|webp|woff2?)";

/// An address-shaped text.
pub const EMAIL_PATTERN: &'static str =
    "(?i)[a-z0-9][a-z0-9.!#$%&'*+/=?^_`{|}~-]{0,63}@[a-z0-9](?:[a-z0-9-]{0,61}[a-z0-9])?(?:\\.[a-z0-9](?:[a-z0-9-]{0,61}[a-z0-9])?)+";

/// ` [at] `, `(at)`, `{at}` or ` at ` written for `@`.
pub const AT_PATTERN: &'static str = "(?i)\\s*(?:\\[at\\]|\\(at\\)|\\{at\\}|\\s+at\\s+)\\s*";

/// ` [dot] `, `(dot)`, `{dot}`, ` dot ` or `·` written for `.`.
pub const DOT_PATTERN: &'static str = "(?i)\\s*(?:\\[dot\\]|\\(dot\\)|\\{dot\\}|\\s+dot\\s+|\\s*·\\s*)\\s*";

/// Hints that a text holds ROT13-encoded addresses (`vasb@`, `.pbz`).
pub const ROT13_HINT_PATTERN: &'static str =
    "(?i)(?:@[^\\s<>\"']+\\.pbz\\b|\\b(?:vasb|pbagnpg|fnyrf|fgnss)@)";

// ---------------------------------------------------------------------------
// Validity of one address
// ---------------------------------------------------------------------------

/// The part of an address before its last `@`.
pub open spec fn local_part(e: Seq<char>) -> Seq<char> {
    e.take(rfind_char(e, '@'))
}

/// The part of an address after its last `@`.
pub open spec fn domain_part(e: Seq<char>) -> Seq<char> {
    e.skip(rfind_char(e, '@') + 1)
}

/// The last dot-separated label of a domain.
pub open spec fn top_level_label(domain: Seq<char>) -> Seq<char> {
    domain.skip(rfind_char(domain, '.') + 1)
}

/// The rules a public contact address meets, given what the placeholder
/// mail-domain pattern says of its domain and the asset-name pattern of its
/// local part: at most 254 bytes, no `..`, `/` or `\`; a non-empty local
/// part of at most 64 bytes before the last `@`; a dotted domain whose last
/// label is no asset file extension, has at least 2 bytes and holds an ASCII
/// letter; neither a known placeholder or platform domain, nor a placeholder
/// local part, nor `email@`/`mail@` at a placeholder mail domain, nor a
/// local part taken from an asset file name.
pub open spec fn address_rules(
    e: Seq<char>,
    placeholder_domain_match: Option<bool>,
    asset_local_match: Option<bool>,
) -> bool {
    let at = rfind_char(e, '@');
    let local = local_part(e);
    let domain = domain_part(e);
    let tld = top_level_label(domain);
    &&& byte_len(e) <= 254
    &&& !contains(e, ".."@)
    &&& !e.contains('/')
    &&& !e.contains('\\')
    &&& at >= 0
    &&& local.len() > 0
    &&& byte_len(local) <= 64
    &&& domain.len() > 0
    &&& domain.contains('.')
    &&& !asset_extensions().contains(tld)
    &&& byte_len(tld) >= 2
    &&& exists|i: int| 0 <= i < tld.len() && is_ascii_alpha(#[trigger] tld[i])
    &&& !blocked_email_domains().contains(domain)
    &&& !placeholder_email_locals().contains(local)
    &&& !((local == "email"@ || local == "mail"@) && placeholder_domain_match == Some(true))
    &&& asset_local_match != Some(true)
}

/// Whether `e` is worth keeping as a public contact address (see
/// `address_rules`), with the two patterns applied to its domain and local
/// part.
pub open spec fn is_public_email(e: Seq<char>) -> bool {
    address_rules(
        e,
        regex_matches(PLACEHOLDER_DOMAIN_PATTERN@, domain_part(e)),
        regex_matches(ASSET_LOCAL_PATTERN@, local_part(e)),
    )
}

fn has_ascii_alpha(s: &Vec<char>) -> (res: bool)
    ensures
        res == exists|i: int| 0 <= i < s@.len() && is_ascii_alpha(#[trigger] s@[i]),
{
    let mut i: usize = 0;
    while i < s.len()
        invariant
            i <= s.len(),
            forall|j: int| 0 <= j < i ==> !is_ascii_alpha(#[trigger] s@[j]),
        decreases s.len() - i,
    {
        if ascii_alpha(s[i]) {
            return true;
        }
        i = i + 1;
    }
    false
}

/// Judges the address text `email` by `address_rules`, given what the
/// placeholder mail-domain pattern found in its domain and the asset-name
/// pattern in its local part.
pub fn judge_address(
    email: &Vec<char>,
    placeholder_domain_match: Option<bool>,
    asset_local_match: Option<bool>,
) -> (res: bool)
    ensures
        res == address_rules(email@, placeholder_domain_match, asset_local_match),
{
    if byte_len_above(email, 254) || contains_str(email, "..") || has_char(email, '/') || has_char(
        email,
        '\\',
    ) {
        return false;
    }
    let at = match rfind_char_exec(email, '@') {
        Some(at) => at,
        None => return false,
    };
    let local = sub_chars(email, 0, at);
    let domain = sub_chars(email, at + 1, email.len());
    assert(local@ == local_part(email@));
    assert(domain@ == domain_part(email@));
    if local.len() == 0 || byte_len_above(&local, 64) || domain.len() == 0 || !has_char(
        &domain,
        '.',
    ) {
        return false;
    }
    let dot = rfind_char_exec(&domain, '.');
    let start = match dot {
        Some(d) => d + 1,
        None => 0,
    };
    let tld = sub_chars(&domain, start, domain.len());
    assert(tld@ == top_level_label(domain@));
    let assets = asset_extension_list();
    if in_list(&tld, &assets) || !byte_len_above(&tld, 1) || !has_ascii_alpha(&tld) {
        return false;
    }
    let blocked = blocked_email_domain_list();
    let placeholders = placeholder_email_local_list();
    if in_list(&domain, &blocked) || in_list(&local, &placeholders) {
        return false;
    }
    if (eq_str(&local, "email") || eq_str(&local, "mail")) && placeholder_domain_match == Some(true) {
        return false;
    }
    asset_local_match != Some(true)
}

/// Whether the address text `email` is a public contact address.
pub fn is_valid_public_email(email: &Vec<char>) -> (res: bool)
    ensures
        res == is_public_email(email@),
{
    match rfind_char_exec(email, '@') {
        None => judge_address(email, None, None),
        Some(at) => {
            let local = sub_chars(email, 0, at);
            let domain = sub_chars(email, at + 1, email.len());
            assert(local@ == local_part(email@));
            assert(domain@ == domain_part(email@));
            let domain_text = string_from_chars(&domain);
            let local_text = string_from_chars(&local);
            let placeholder_domain = is_match(PLACEHOLDER_DOMAIN_PATTERN, domain_text.as_str());
            let asset_local = is_match(ASSET_LOCAL_PATTERN, local_text.as_str());
            judge_address(email, placeholder_domain, asset_local)
        },
    }
}

// ---------------------------------------------------------------------------
// ROT13
// ---------------------------------------------------------------------------

/// ROT13 of one character: ASCII letters move 13 places, the rest stay.
pub open spec fn rot13_char(c: char) -> char {
    let v = c as u32;
    if (0x61 <= v <= 0x6D) || (0x41 <= v <= 0x4D) {
        (v + 13) as char
    } else if (0x6E <= v <= 0x7A) || (0x4E <= v <= 0x5A) {
        (v - 13) as char
    } else {
        c
    }
}

pub open spec fn rot13_spec(s: Seq<char>) -> Seq<char> {
    s.map_values(|c: char| rot13_char(c))
}

fn rot13_char_exec(c: char) -> (res: char)
    ensures
        res == rot13_char(c),
{
    let v = c as u32;
    if (0x61 <= v && v <= 0x6D) || (0x41 <= v && v <= 0x4D) {
        let b: u8 = (v + 13) as u8;
        assert(b as u32 == v + 13);
        b as char
    } else if (0x6E <= v && v <= 0x7A) || (0x4E <= v && v <= 0x5A) {
        let b: u8 = (v - 13) as u8;
        assert(b as u32 == v - 13);
        b as char
    } else {
        c
    }
}

/// ROT13 of a text.
pub fn rot13(value: &str) -> (res: String)
    ensures
        res@ == rot13_spec(value@),
{
    let cs = chars_of(value);
    let mut out: Vec<char> = Vec::new();
    let mut i: usize = 0;
    while i < cs.len()
        invariant
            i <= cs.len(),
            out@ == rot13_spec(cs@.take(i as int)),
        decreases cs.len() - i,
    {
        out.push(rot13_char_exec(cs[i]));
        i = i + 1;
        assert(out@ =~= rot13_spec(cs@.take(i as int)));
    }
    assert(cs@.take(i as int) =~= cs@);
    string_from_chars(&out)
}

/// ROT13 undoes itself.
pub proof fn lemma_rot13_involution(s: Seq<char>)
    ensures
        rot13_spec(rot13_spec(s)) == s,
{
    assert forall|i: int| 0 <= i < s.len() implies rot13_char(rot13_char(s[i])) == s[i] by {
        let c = s[i];
        let v = c as u32;
        vstd::utf8::char_u32_cast(c, v);
        if (0x61 <= v <= 0x6D) || (0x41 <= v <= 0x4D) {
            let d = (v + 13) as char;
            assert(d as u32 == v + 13);
            assert(rot13_char(d) == ((v + 13 - 13) as u32) as char);
        } else if (0x6E <= v <= 0x7A) || (0x4E <= v <= 0x5A) {
            let d = (v - 13) as char;
            assert(d as u32 == v - 13);
            assert(rot13_char(d) == ((v - 13 + 13) as u32) as char);
        }
    }
    assert(rot13_spec(rot13_spec(s)) =~= s);
}

} // verus!

verus! {

// ---------------------------------------------------------------------------
// Finding addresses in text
// ---------------------------------------------------------------------------

/// Characters stripped from both ends of a found address.
pub open spec fn is_edge_char(c: char) -> bool {
    c == ' ' || c == '.' || c == ';' || c == ',' || c == '，' || c == '。' || c == ':' || c == '：' || c
        == '(' || c == ')' || c == '[' || c == ']' || c == '{' || c == '}' || c == '<' || c
        == '>' || c == '"' || c == '\''
}

fn edge_char(c: char) -> (res: bool)
    ensures
        res == is_edge_char(c),
{
    c == ' ' || c == '.' || c == ';' || c == ',' || c == '，' || c == '。' || c == ':' || c == '：' || c
        == '(' || c == ')' || c == '[' || c == ']' || c == '{' || c == '}' || c == '<' || c
        == '>' || c == '"' || c == '\''
}

pub open spec fn trim_edges_start(s: Seq<char>) -> Seq<char>
    decreases s.len(),
{
    if s.len() > 0 && is_edge_char(s[0]) {
        trim_edges_start(s.drop_first())
    } else {
        s
    }
}

pub open spec fn trim_edges_end(s: Seq<char>) -> Seq<char>
    decreases s.len(),
{
    if s.len() > 0 && is_edge_char(s.last()) {
        trim_edges_end(s.drop_last())
    } else {
        s
    }
}

/// `str::trim_matches` with the edge characters.
pub open spec fn trim_edges(s: Seq<char>) -> Seq<char> {
    trim_edges_end(trim_edges_start(s))
}

fn trim_edges_exec(s: &Vec<char>) -> (res: Vec<char>)
    ensures
        res@ == trim_edges(s@),
{
    let n = s.len();
    let mut i: usize = 0;
    assert(s@.skip(0) =~= s@);
    while i < n && edge_char(s[i])
        invariant
            i <= n == s.len(),
            trim_edges_start(s@) == trim_edges_start(s@.skip(i as int)),
        decreases n - i,
    {
        assert(s@.skip(i as int).drop_first() =~= s@.skip(i + 1));
        i = i + 1;
    }
    let mut j: usize = n;
    assert(s@.skip(i as int) =~= s@.subrange(i as int, n as int));
    while j > i && edge_char(s[j - 1])
        invariant
            i <= j <= n == s.len(),
            trim_edges_end(s@.skip(i as int)) == trim_edges_end(s@.subrange(i as int, j as int)),
        decreases j,
    {
        assert(s@.subrange(i as int, j as int).drop_last() =~= s@.subrange(i as int, j - 1));
        j = j - 1;
    }
    sub_chars(s, i, j)
}

/// The result of a replacement, or the text itself when the pattern could
/// not be used.
pub open spec fn or_text(r: Option<Seq<char>>, t: Seq<char>) -> Seq<char> {
    match r {
        Some(x) => x,
        None => t,
    }
}

/// The text with asset links blanked out and `[at]`/`[dot]` spellings turned
/// back into `@` and `.`.
pub open spec fn deobfuscated(value: Seq<char>) -> Seq<char> {
    let s1 = or_text(regex_replaced(ASSET_URL_PATTERN@, value, " "@), value);
    let s2 = or_text(regex_replaced(AT_PATTERN@, s1, "@"@), s1);
    or_text(regex_replaced(DOT_PATTERN@, s2, "."@), s2)
}

/// The texts searched for addresses: the deobfuscated text, and its ROT13
/// when it hints at ROT13-encoded addresses.
pub open spec fn email_candidates(value: Seq<char>) -> Seq<Seq<char>> {
    let d = deobfuscated(value);
    if regex_matches(ROT13_HINT_PATTERN@, d) == Some(true) {
        seq![d, rot13_spec(d)]
    } else {
        seq![d]
    }
}

/// The address-shaped matches in a text.
pub open spec fn address_matches(text: Seq<char>) -> Seq<Seq<char>> {
    match regex_found(EMAIL_PATTERN@, text) {
        Some(v) => v,
        None => Seq::empty(),
    }
}

/// A match cleaned of surrounding punctuation and lower-cased.
pub open spec fn cleaned_address(m: Seq<char>) -> Seq<char> {
    lower(trim_edges(m))
}

/// The public addresses that a text holds.
pub open spec fn addresses_in(text: Seq<char>) -> Set<Seq<char>> {
    Set::new(
        |e: Seq<char>|
            is_public_email(e) && exists|j: int|
                0 <= j < address_matches(text).len() && e == cleaned_address(
                    #[trigger] address_matches(text)[j],
                ),
    )
}

/// The public addresses found in `value`, through all its candidate texts.
pub open spec fn collected_emails(value: Seq<char>) -> Set<Seq<char>> {
    Set::new(
        |e: Seq<char>|
            exists|k: int|
                0 <= k < email_candidates(value).len() && #[trigger] addresses_in(
                    email_candidates(value)[k],
                ).contains(e),
    )
}

/// Every address found passes the public-address check and is already in
/// lower case.
pub proof fn lemma_found_addresses_public(value: Seq<char>, e: Seq<char>)
    requires
        collected_emails(value).contains(e),
    ensures
        is_public_email(e),
        lower(e) == e,
{
    let k = choose|k: int|
        0 <= k < email_candidates(value).len() && #[trigger] addresses_in(email_candidates(value)[k]).contains(e);
    let text = email_candidates(value)[k];
    let j = choose|j: int| 0 <= j < address_matches(text).len() && e == cleaned_address(#[trigger] address_matches(text)[j]);
    let m = trim_edges(address_matches(text)[j]);
    assert forall|i: int| 0 <= i < m.len() implies lower_char(lower_char(#[trigger] m[i])) == lower_char(m[i]) by {
        let c = m[i];
        if crate::text::is_ascii_upper(c) {
            vstd::utf8::char_u32_cast(lower_char(c), ((c as u32) + 32) as u32);
        }
    }
    assert(lower(lower(m)) =~= lower(m));
}

/// The public addresses among address-shaped matches: each match cleaned
/// of surrounding punctuation and lower-cased, kept when it passes the
/// public-address check.
pub open spec fn public_addresses(ms: Seq<Seq<char>>) -> Set<Seq<char>> {
    Set::new(
        |e: Seq<char>|
            is_public_email(e) && exists|j: int| 0 <= j < ms.len() && e == cleaned_address(#[trigger] ms[j]),
    )
}

/// Adds to `found` the public addresses among `matches` (the texts the
/// address pattern matched), each once.
pub fn add_public_addresses(matches: &Vec<String>, found: &mut Vec<String>)
    requires
        strs(old(found)@).no_duplicates(),
    ensures
        strs(final(found)@).no_duplicates(),
        forall|x: Seq<char>| #[trigger] strs(final(found)@).contains(x) <==> (strs(old(found)@).contains(x)
            || public_addresses(strs(matches@)).contains(x)),
{
    let ghost ms = strs(matches@);
    let ghost start = strs(found@);
    let mut j: usize = 0;
    while j < matches.len()
        invariant
            j <= matches.len(),
            ms == strs(matches@),
            strs(found@).no_duplicates(),
            forall|x: Seq<char>| #[trigger] strs(found@).contains(x) <==> (start.contains(x) || (
            is_public_email(x) && exists|jj: int| 0 <= jj < j && x == cleaned_address(
                #[trigger] ms[jj],
            ))),
        decreases matches.len() - j,
    {
        let m = chars_of(matches[j].as_str());
        let t = trim_edges_exec(&m);
        let e = lower_chars(&t);
        assert(e@ == cleaned_address(ms[j as int]));
        let valid = is_valid_public_email(&e);
        let ghost before = strs(found@);
        if valid {
            push_unique(found, string_from_chars(&e));
        }
        assert forall|x: Seq<char>| #[trigger] strs(found@).contains(x) <==> (start.contains(x) || (
        is_public_email(x) && exists|jj: int| 0 <= jj < j + 1 && x == cleaned_address(
            #[trigger] ms[jj],
        ))) by {
            if strs(found@).contains(x) {
                if before.contains(x) {
                    if !start.contains(x) {
                        let jj = choose|jj: int| 0 <= jj < j && x == cleaned_address(
                            #[trigger] ms[jj],
                        );
                        assert(0 <= jj < j + 1 && x == cleaned_address(ms[jj]));
                    }
                } else {
                    assert(valid && x == e@);
                    assert(0 <= j < j + 1 && x == cleaned_address(ms[j as int]));
                }
            }
            if start.contains(x) {
                assert(before.contains(x));
            } else if is_public_email(x) && exists|jj: int| 0 <= jj < j + 1 && x == cleaned_address(
                #[trigger] ms[jj],
            ) {
                let jj = choose|jj: int| 0 <= jj < j + 1 && x == cleaned_address(#[trigger] ms[jj]);
                if jj < j {
                    assert(0 <= jj < j && x == cleaned_address(ms[jj]));
                    assert(before.contains(x));
                } else {
                    assert(x == e@);
                }
            }
        }
        j = j + 1;
    }
    assert forall|x: Seq<char>| #[trigger] strs(found@).contains(x) <==> (start.contains(x)
        || public_addresses(ms).contains(x)) by {
        if public_addresses(ms).contains(x) {
            let jj = choose|jj: int| 0 <= jj < ms.len() && x == cleaned_address(#[trigger] ms[jj]);
            assert(0 <= jj < j && x == cleaned_address(ms[jj]));
        }
    }
}

/// Adds the public addresses of `text` to `found`.
fn collect_from_text(text: &str, found: &mut Vec<String>)
    requires
        strs(old(found)@).no_duplicates(),
    ensures
        strs(final(found)@).no_duplicates(),
        forall|x: Seq<char>| #[trigger] strs(final(found)@).contains(x) <==> (strs(old(found)@).contains(x)
            || addresses_in(text@).contains(x)),
{
    let matches = match find_all(EMAIL_PATTERN, text) {
        Some(m) => m,
        None => {
            assert forall|x: Seq<char>| !addresses_in(text@).contains(x) by {}
            return ;
        },
    };
    assert(address_matches(text@) == strs(matches@));
    assert(addresses_in(text@) =~= public_addresses(strs(matches@)));
    add_public_addresses(&matches, found);
}

fn or_text_exec(r: Option<String>, t: String) -> (res: String)
    ensures
        res@ == or_text(
            match r {
                Some(x) => Some(x@),
                None => None,
            },
            t@,
        ),
{
    match r {
        Some(x) => x,
        None => t,
    }
}

/// The deobfuscated text (see `deobfuscated`).
pub fn deobfuscate_email_text(value: &str) -> (res: String)
    ensures
        res@ == deobfuscated(value@),
{
    let s1 = or_text_exec(replace_all(ASSET_URL_PATTERN, value, " "), crate::text::owned(value));
    let s2 = or_text_exec(replace_all(AT_PATTERN, s1.as_str(), "@"), s1.clone());
    or_text_exec(replace_all(DOT_PATTERN, s2.as_str(), "."), s2.clone())
}

/// The public addresses found in `value`, each once.
pub fn collect_valid_emails(value: &str) -> (res: Vec<String>)
    ensures
        strs(res@).no_duplicates(),
        forall|x: Seq<char>| #[trigger] strs(res@).contains(x) <==> collected_emails(value@).contains(x),
{
    let d = deobfuscate_email_text(value);
    let mut found: Vec<String> = Vec::new();
    assert(strs(found@) =~= Seq::<Seq<char>>::empty());
    collect_from_text(d.as_str(), &mut found);
    let hint = is_match(ROT13_HINT_PATTERN, d.as_str());
    if hint == Some(true) {
        let r = rot13(d.as_str());
        collect_from_text(r.as_str(), &mut found);
        assert(email_candidates(value@) == seq![d@, r@]);
        assert forall|x: Seq<char>| #[trigger] strs(found@).contains(x) <==> collected_emails(
            value@,
        ).contains(x) by {
            if addresses_in(d@).contains(x) {
                assert(addresses_in(email_candidates(value@)[0]).contains(x));
            }
            if addresses_in(r@).contains(x) {
                assert(addresses_in(email_candidates(value@)[1]).contains(x));
            }
        }
    } else {
        assert(email_candidates(value@) == seq![d@]);
        assert forall|x: Seq<char>| #[trigger] strs(found@).contains(x) <==> collected_emails(
            value@,
        ).contains(x) by {
            if addresses_in(d@).contains(x) {
                assert(addresses_in(email_candidates(value@)[0]).contains(x));
            }
        }
    }
    found
}

/// The public addresses found in any of `values`, each once, in ascending
/// order. Saved address lists pass through here, so that values saved
/// before a filter existed are cleaned as well.
pub fn filter_email_list(values: Vec<String>) -> (res: Vec<String>)
    ensures
        strictly_sorted(strs(res@)),
        forall|x: Seq<char>| #[trigger] strs(res@).contains(x) <==> exists|i: int|
            0 <= i < values.len() && #[trigger] collected_emails(values@[i]@).contains(x),
{
    let mut out: Vec<String> = Vec::new();
    assert(strs(out@) =~= Seq::<Seq<char>>::empty());
    let mut i: usize = 0;
    while i < values.len()
        invariant
            i <= values.len(),
            strictly_sorted(strs(out@)),
            forall|x: Seq<char>| #[trigger] strs(out@).contains(x) <==> exists|k: int|
                0 <= k < i && #[trigger] collected_emails(values@[k]@).contains(x),
        decreases values.len() - i,
    {
        let found = collect_valid_emails(values[i].as_str());
        let ghost before = strs(out@);
        let mut j: usize = 0;
        while j < found.len()
            invariant
                j <= found.len(),
                i < values.len(),
                strictly_sorted(strs(out@)),
                forall|x: Seq<char>| #[trigger] strs(out@).contains(x) <==> (before.contains(x) || exists|
                    jj: int,
                | 0 <= jj < j && x == #[trigger] strs(found@)[jj]),
            decreases found.len() - j,
        {
            let e = found[j].clone();
            let ghost mid = strs(out@);
            insert_sorted(&mut out, e);
            assert forall|x: Seq<char>| #[trigger] strs(out@).contains(x) <==> (before.contains(x) || exists|
                jj: int,
            | 0 <= jj < j + 1 && x == #[trigger] strs(found@)[jj]) by {
                if strs(out@).contains(x) {
                    if mid.contains(x) {
                        if !before.contains(x) {
                            let jj = choose|jj: int| 0 <= jj < j && x == #[trigger] strs(found@)[jj];
                            assert(0 <= jj < j + 1 && x == strs(found@)[jj]);
                        }
                    } else {
                        assert(x == strs(found@)[j as int]);
                    }
                }
                if before.contains(x) {
                    assert(mid.contains(x));
                } else if exists|jj: int| 0 <= jj < j + 1 && x == #[trigger] strs(found@)[jj] {
                    let jj = choose|jj: int| 0 <= jj < j + 1 && x == #[trigger] strs(found@)[jj];
                    if jj < j {
                        assert(0 <= jj < j && x == strs(found@)[jj]);
                        assert(mid.contains(x));
                    } else {
                        assert(x == e@);
                    }
                }
            }
            j = j + 1;
        }
        assert forall|x: Seq<char>| #[trigger] strs(out@).contains(x) <==> exists|k: int|
            0 <= k < i + 1 && #[trigger] collected_emails(values@[k]@).contains(x) by {
            if before.contains(x) {
                let k = choose|k: int| 0 <= k < i && #[trigger] collected_emails(values@[k]@).contains(x);
                assert(0 <= k < i + 1 && collected_emails(values@[k]@).contains(x));
            }
            if exists|jj: int| 0 <= jj < j && x == #[trigger] strs(found@)[jj] {
                let jj = choose|jj: int| 0 <= jj < j && x == #[trigger] strs(found@)[jj];
                assert(strs(found@).contains(x));
                assert(collected_emails(values@[i as int]@).contains(x));
            }
            if collected_emails(values@[i as int]@).contains(x) {
                assert(strs(found@).contains(x));
                let jj = choose|jj: int| 0 <= jj < strs(found@).len() && strs(found@)[jj] == x;
                assert(0 <= jj < j && x == strs(found@)[jj]);
            }
            if exists|k: int| 0 <= k < i + 1 && #[trigger] collected_emails(values@[k]@).contains(x) {
                let k = choose|k: int| 0 <= k < i + 1 && #[trigger] collected_emails(values@[k]@).contains(x);
                if k < i {
                    assert(before.contains(x));
                }
            }
        }
        i = i + 1;
    }
    out
}

} // verus!

verus! {

// ---------------------------------------------------------------------------
// Addresses hidden by the Cloudflare e-mail protection
// ---------------------------------------------------------------------------

/// The value of an ASCII hexadecimal digit.
pub open spec fn hex_value(c: char) -> u8 {
    let v = c as u32;
    if 0x30 <= v <= 0x39 {
        (v - 0x30) as u8
    } else if 0x41 <= v <= 0x46 {
        (v - 0x41 + 10) as u8
    } else {
        (v - 0x61 + 10) as u8
    }
}

/// The byte written by the two hexadecimal digits at `i` and `i + 1`.
pub open spec fn hex_byte(s: Seq<char>, i: int) -> u8 {
    (16 * hex_value(s[i]) + hex_value(s[i + 1])) as u8
}

/// The bytes that a protected address hides: each byte after the first,
/// combined by XOR with the first, which is the key.
pub open spec fn protected_bytes(t: Seq<char>) -> Seq<u8> {
    Seq::new(((t.len() - 2) / 2) as nat, |k: int| hex_byte(t, 2 + 2 * k) ^ hex_byte(t, 0))
}

/// The address behind a `data-cfemail` value: the trimmed value must be an
/// even number (at least 4) of hexadecimal digits whose decoded bytes are
/// valid UTF-8.
pub open spec fn cloudflare_decoded(encoded: Seq<char>) -> Option<Seq<char>> {
    let t = crate::text::trim(encoded);
    if t.len() < 4 || t.len() % 2 != 0 || !(forall|i: int|
        0 <= i < t.len() ==> crate::text::is_ascii_hex(#[trigger] t[i])) {
        None
    } else if vstd::utf8::valid_utf8(protected_bytes(t)) {
        Some(vstd::utf8::decode_utf8(protected_bytes(t)))
    } else {
        None
    }
}

/// The lower-case hexadecimal digits.
pub open spec fn hex_digits() -> Seq<char> {
    seq!['0', '1', '2', '3', '4', '5', '6', '7', '8', '9', 'a', 'b', 'c', 'd', 'e', 'f']
}

/// A byte as two hexadecimal digits.
pub open spec fn hex_pair(b: u8) -> Seq<char> {
    seq![hex_digits()[(b / 16) as int], hex_digits()[(b % 16) as int]]
}

pub open spec fn hex_text(bytes: Seq<u8>) -> Seq<char>
    decreases bytes.len(),
{
    if bytes.len() == 0 {
        Seq::empty()
    } else {
        hex_text(bytes.drop_last()) + hex_pair(bytes.last())
    }
}

/// How a page protects the address with UTF-8 bytes `bytes`: a key byte,
/// then each byte combined with the key by XOR, all in hexadecimal.
pub open spec fn cloudflare_encoded(key: u8, bytes: Seq<u8>) -> Seq<char> {
    hex_pair(key) + hex_text(bytes.map_values(|b: u8| b ^ key))
}

proof fn lemma_hex_digit(d: int)
    requires
        0 <= d < 16,
    ensures
        crate::text::is_ascii_hex(hex_digits()[d]),
        !crate::text::is_ws(hex_digits()[d]),
        hex_value(hex_digits()[d]) == d,
{
}

proof fn lemma_hex_text(bs: Seq<u8>)
    ensures
        hex_text(bs).len() == 2 * bs.len(),
        forall|k: int|
            0 <= k < bs.len() ==> hex_text(bs)[2 * k] == hex_digits()[(bs[k] / 16) as int] && hex_text(
                bs,
            )[2 * k + 1] == hex_digits()[(bs[k] % 16) as int],
    decreases bs.len(),
{
    if bs.len() > 0 {
        lemma_hex_text(bs.drop_last());
        assert forall|k: int|
            0 <= k < bs.len() implies hex_text(bs)[2 * k] == hex_digits()[(bs[k] / 16) as int] && hex_text(
                bs,
            )[2 * k + 1] == hex_digits()[(bs[k] % 16) as int] by {
            if k < bs.len() - 1 {
                assert(bs.drop_last()[k] == bs[k]);
            }
        }
    }
}

/// Decoding a protected address gives the address back.
pub proof fn lemma_cloudflare_roundtrip(key: u8, bytes: Seq<u8>)
    requires
        bytes.len() > 0,
        vstd::utf8::valid_utf8(bytes),
    ensures
        cloudflare_decoded(cloudflare_encoded(key, bytes)) == Some(vstd::utf8::decode_utf8(bytes)),
{
    let t = cloudflare_encoded(key, bytes);
    let xs = bytes.map_values(|b: u8| b ^ key);
    lemma_hex_text(xs);
    let n = bytes.len();
    assert(t.len() == 2 + 2 * n);
    assert forall|i: int| 0 <= i < t.len() implies crate::text::is_ascii_hex(#[trigger] t[i]) && !crate::text::is_ws(
        t[i],
    ) by {
        if i == 0 {
            lemma_hex_digit((key / 16) as int);
        } else if i == 1 {
            lemma_hex_digit((key % 16) as int);
        } else {
            let k = (i - 2) / 2;
            assert(0 <= k < n);
            if i % 2 == 0 {
                assert(i - 2 == 2 * k);
                assert(t[i] == hex_text(xs)[2 * k]);
                lemma_hex_digit((xs[k] / 16) as int);
            } else {
                assert(i - 2 == 2 * k + 1);
                assert(t[i] == hex_text(xs)[2 * k + 1]);
                lemma_hex_digit((xs[k] % 16) as int);
            }
        }
    }
    crate::commands::lemma_no_ws_trim(t);
    assert(crate::text::trim(t) == t);
    lemma_hex_digit((key / 16) as int);
    lemma_hex_digit((key % 16) as int);
    assert(hex_byte(t, 0) == key);
    assert forall|k: int| 0 <= k < n implies #[trigger] protected_bytes(t)[k] == bytes[k] by {
        let x = xs[k];
        assert(t[2 + 2 * k] == hex_text(xs)[2 * k]);
        assert(t[2 + 2 * k + 1] == hex_text(xs)[2 * k + 1]);
        lemma_hex_digit((x / 16) as int);
        lemma_hex_digit((x % 16) as int);
        assert(hex_byte(t, 2 + 2 * k) == x);
        let b = bytes[k];
        assert(b ^ key ^ key == b) by (bit_vector);
    }
    assert(protected_bytes(t) =~= bytes);
}

fn hex_value_exec(c: char) -> (res: u8)
    requires
        crate::text::is_ascii_hex(c),
    ensures
        res == hex_value(c),
        res < 16,
{
    let v = c as u32;
    if 0x30 <= v && v <= 0x39 {
        (v - 0x30) as u8
    } else if 0x41 <= v && v <= 0x46 {
        (v - 0x41 + 10) as u8
    } else {
        (v - 0x61 + 10) as u8
    }
}

/// Decodes a Cloudflare-protected address (see `cloudflare_decoded`).
pub fn decode_cloudflare_email(encoded: &str) -> (res: Option<String>)
    ensures
        match res {
            Some(s) => cloudflare_decoded(encoded@) == Some(s@),
            None => cloudflare_decoded(encoded@) is None,
        },
{
    let cs = chars_of(encoded);
    let t = crate::text::trim_chars(&cs);
    if t.len() < 4 || t.len() % 2 != 0 {
        return None;
    }
    let mut i: usize = 0;
    while i < t.len()
        invariant
            i <= t.len(),
            t@ == crate::text::trim(encoded@),
            t.len() >= 4,
            t.len() % 2 == 0,
            forall|j: int| 0 <= j < i ==> crate::text::is_ascii_hex(#[trigger] t@[j]),
        decreases t.len() - i,
    {
        if !crate::text::ascii_hex(t[i]) {
            assert(!crate::text::is_ascii_hex(t@[i as int]));
            assert(!(forall|j: int|
                0 <= j < t@.len() ==> crate::text::is_ascii_hex(#[trigger] t@[j])));
            return None;
        }
        i = i + 1;
    }
    let key: u8 = 16 * hex_value_exec(t[0]) + hex_value_exec(t[1]);
    let mut bytes: Vec<u8> = Vec::new();
    let mut index: usize = 2;
    while index < t.len()
        invariant
            2 <= index <= t.len(),
            index % 2 == 0,
            t.len() % 2 == 0,
            key == hex_byte(t@, 0),
            forall|j: int| 0 <= j < t.len() ==> crate::text::is_ascii_hex(#[trigger] t@[j]),
            bytes@.len() == (index - 2) / 2,
            forall|k: int| 0 <= k < bytes@.len() ==> bytes@[k] == hex_byte(t@, 2 + 2 * k) ^ key,
        decreases t.len() - index,
    {
        let value: u8 = 16 * hex_value_exec(t[index]) + hex_value_exec(t[index + 1]);
        bytes.push(value ^ key);
        index = index + 2;
    }
    assert(bytes@ =~= protected_bytes(t@));
    crate::text::string_from_utf8(bytes)
}

} // verus!
