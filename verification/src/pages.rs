//! What the collector reads out of one fetched page: its addresses and a
//! short summary of the business.
use vstd::prelude::*;

use crate::emails::{collect_valid_emails, collected_emails, decode_cloudflare_email, cloudflare_decoded};
use crate::html::{element_views, html_elements, opt_views, select_elements, Element, ElementView};
use crate::models::strs;
use crate::regexes::{regex_replaced, replace_all};
use crate::urls::{
    clear_url_fragment, clear_url_query, is_facebook_host, is_facebook_url, is_web_scheme, join_url,
    normalized_host, normalized_host_spec, set_url_path, url_fragment_cleared, url_joined,
    url_opt_view, url_path_set, url_query_cleared, web_scheme, ParsedUrl, UrlView,
};
use crate::text::{
    append_chars, append_str, byte_len, byte_len_above, chars_of, clean_text, clean_text_spec,
    empty_string, find_char, find_char_exec, join, lemma_find_char_bounds, lower, lower_chars,
    owned, seq_eq, string_from_chars, sub_chars, truncate, truncated,
};

verus! {

/// Script, style, template and inline SVG blocks, whose text is no page content.
pub const BLOCK_PATTERN: &'static str =
    "(?is)<(?:script|style|noscript|template|svg)\\b[^>]*>.*?</(?:script|style|noscript|template|svg)\\s*>";

/// The page with its script-like blocks blanked out.
pub open spec fn sanitized_html(html: Seq<char>) -> Seq<char> {
    match regex_replaced(BLOCK_PATTERN@, html, " "@) {
        Some(s) => s,
        None => html,
    }
}

/// The visible text of the page: the text of its `body` joined by spaces,
/// or the sanitized page itself when it has no body.
pub open spec fn body_text(html: Seq<char>) -> Seq<char> {
    let sanitized = sanitized_html(html);
    match html_elements(sanitized, "body"@, Seq::empty()) {
        Some(v) => if v.len() > 0 {
            join(v[0].texts, " "@)
        } else {
            sanitized
        },
        None => sanitized,
    }
}

/// Whether a link target is a `mailto:` link (in any ASCII case).
pub open spec fn is_mailto(href: Seq<char>) -> bool {
    href.len() >= 7 && lower(href.take(7)) == "mailto:"@
}

/// The mailbox of a `mailto:` link: after the scheme, before any `?`.
pub open spec fn mailbox_of(href: Seq<char>) -> Seq<char> {
    let rest = href.skip(7);
    rest.take(find_char(rest, '?'))
}

/// The text a link adds to the searched text.
pub open spec fn link_piece(e: ElementView) -> Seq<char> {
    let element = e.attributes;
    if element.len() > 0 && element[0] is Some && is_mailto(element[0]->0) {
        " "@ + mailbox_of(element[0]->0)
    } else {
        Seq::empty()
    }
}

/// The text an image adds: its `alt`, `title` and `aria-label` values.
pub open spec fn image_piece(e: ElementView) -> Seq<char> {
    e.attributes.map_values(
        |a: Option<Seq<char>>|
            match a {
                Some(v) => " "@ + v,
                None => Seq::<char>::empty(),
            },
    ).flatten_alt()
}

/// The text a Cloudflare-protected address adds: the decoded address.
pub open spec fn protected_piece(e: ElementView) -> Seq<char> {
    let element = e.attributes;
    if element.len() > 0 && element[0] is Some && cloudflare_decoded(element[0]->0) is Some {
        " "@ + cloudflare_decoded(element[0]->0)->0
    } else {
        Seq::empty()
    }
}

pub open spec fn elements(r: Option<Seq<ElementView>>) -> Seq<ElementView> {
    match r {
        Some(v) => v,
        None => Seq::empty(),
    }
}

/// The text searched for addresses: the visible text, then each `mailto:`
/// mailbox, each image's descriptive attributes and each decoded protected
/// address, every one after a space.
pub open spec fn searchable_text(html: Seq<char>) -> Seq<char> {
    searchable_from_parts(
        body_text(html),
        elements(html_elements(html, "a[href]"@, seq!["href"@])),
        elements(html_elements(html, "img"@, seq!["alt"@, "title"@, "aria-label"@])),
        elements(html_elements(html, "[data-cfemail]"@, seq!["data-cfemail"@])),
    )
}

/// The visible text, then the piece of each link, image and protected
/// address element, in that order.
pub open spec fn searchable_from_parts(
    body: Seq<char>,
    links: Seq<ElementView>,
    images: Seq<ElementView>,
    protected: Seq<ElementView>,
) -> Seq<char> {
    body + links.map_values(|e: ElementView| link_piece(e)).flatten_alt()
        + images.map_values(|e: ElementView| image_piece(e)).flatten_alt()
        + protected.map_values(|e: ElementView| protected_piece(e)).flatten_alt()
}

fn join_spaces(parts: &Vec<String>) -> (res: Vec<char>)
    ensures
        res@ == join(strs(parts@), " "@),
{
    let mut out: Vec<char> = Vec::new();
    let mut i: usize = 0;
    while i < parts.len()
        invariant
            i <= parts.len(),
            out@ == join(strs(parts@).take(i as int), " "@),
        decreases parts.len() - i,
    {
        let ghost before = strs(parts@).take(i as int);
        assert(strs(parts@).take(i + 1) =~= before.push(parts@[i as int]@));
        proof {
            crate::text::lemma_join_push(before, " "@, parts@[i as int]@);
            reveal_strlit(" ");
        }
        if i > 0 {
            out.push(' ');
        }
        append_str(&mut out, parts[i].as_str());
        i = i + 1;
    }
    assert(strs(parts@).take(i as int) =~= strs(parts@));
    out
}

fn elements_exec(r: Option<Vec<Element>>) -> (res: Vec<Element>)
    ensures
        element_views(res@) == elements(
            match r {
                Some(v) => Some(element_views(v@)),
                None => None,
            },
        ),
{
    match r {
        Some(v) => v,
        None => {
            let v: Vec<Element> = Vec::new();
            assert(element_views(v@) =~= Seq::<ElementView>::empty());
            v
        },
    }
}

fn link_piece_exec(el: &Element) -> (res: Vec<char>)
    ensures
        res@ == link_piece(el@),
{
    let e = &el.attributes;
    let mut out: Vec<char> = Vec::new();
    if e.len() > 0 {
        if let Some(href) = &e[0] {
            let h = chars_of(href.as_str());
            if h.len() >= 7 {
                let head = sub_chars(&h, 0, 7);
                let lh = lower_chars(&head);
                if crate::text::eq_str(&lh, "mailto:") {
                    let rest = sub_chars(&h, 7, h.len());
                    let q = find_char_exec(&rest, '?');
                    proof {
                        lemma_find_char_bounds(rest@, '?');
                    }
                    let mailbox = sub_chars(&rest, 0, q);
                    out.push(' ');
                    append_chars(&mut out, &mailbox);
                    proof {
                        reveal_strlit(" ");
                        assert(rest@ == h@.skip(7));
                        assert(out@ =~= " "@ + mailbox_of(h@));
                    }
                }
            }
        }
    }
    assert(out@ =~= link_piece(el@));
    out
}

fn image_piece_exec(el: &Element) -> (res: Vec<char>)
    ensures
        res@ == image_piece(el@),
{
    let e = &el.attributes;
    let ghost pieces = opt_views(e@).map_values(
        |a: Option<Seq<char>>|
            match a {
                Some(v) => " "@ + v,
                None => Seq::<char>::empty(),
            },
    );
    let mut out: Vec<char> = Vec::new();
    let mut i: usize = 0;
    while i < e.len()
        invariant
            i <= e.len(),
            pieces == opt_views(e@).map_values(
                |a: Option<Seq<char>>|
                    match a {
                        Some(v) => " "@ + v,
                        None => Seq::<char>::empty(),
                    },
            ),
            out@ == pieces.take(i as int).flatten_alt(),
        decreases e.len() - i,
    {
        assert(pieces.take(i + 1).drop_last() =~= pieces.take(i as int));
        if let Some(v) = &e[i] {
            out.push(' ');
            append_str(&mut out, v.as_str());
            proof {
                reveal_strlit(" ");
                assert(out@ =~= pieces.take(i as int).flatten_alt() + pieces[i as int]);
            }
        } else {
            assert(pieces[i as int] =~= Seq::<char>::empty());
            assert(out@ =~= pieces.take(i as int).flatten_alt() + pieces[i as int]);
        }
        i = i + 1;
    }
    assert(pieces.take(i as int) =~= pieces);
    out
}

fn protected_piece_exec(el: &Element) -> (res: Vec<char>)
    ensures
        res@ == protected_piece(el@),
{
    let e = &el.attributes;
    let mut out: Vec<char> = Vec::new();
    if e.len() > 0 {
        if let Some(encoded) = &e[0] {
            if let Some(decoded) = decode_cloudflare_email(encoded.as_str()) {
                out.push(' ');
                append_str(&mut out, decoded.as_str());
                proof {
                    reveal_strlit(" ");
                    assert(out@ =~= " "@ + decoded@);
                }
            }
        }
    }
    assert(out@ =~= protected_piece(el@));
    out
}

/// The visible text of a page (see `body_text`).
fn page_body_text(html: &str) -> (res: Vec<char>)
    ensures
        res@ == body_text(html@),
{
    let sanitized = match replace_all(BLOCK_PATTERN, html, " ") {
        Some(s) => s,
        None => owned(html),
    };
    assert(sanitized@ == sanitized_html(html@));
    let no_attrs: Vec<&str> = Vec::new();
    assert(no_attrs@.map_values(|a: &str| a@) =~= Seq::<Seq<char>>::empty());
    match select_elements(sanitized.as_str(), "body", &no_attrs) {
        Some(bodies) => {
            if bodies.len() > 0 {
                let j = join_spaces(&bodies[0].texts);
                j
            } else {
                chars_of(sanitized.as_str())
            }
        },
        None => chars_of(sanitized.as_str()),
    }
}

/// The text searched for addresses (see `searchable_text`).
pub fn searchable_page_text(html: &str) -> (res: String)
    ensures
        res@ == searchable_text(html@),
{
    let body = page_body_text(html);
    let href_attr = vec!["href"];
    assert(href_attr@.map_values(|a: &str| a@) =~= seq!["href"@]);
    let links = elements_exec(select_elements(html, "a[href]", &href_attr));
    let image_attrs = vec!["alt", "title", "aria-label"];
    assert(image_attrs@.map_values(|a: &str| a@) =~= seq!["alt"@, "title"@, "aria-label"@]);
    let images = elements_exec(select_elements(html, "img", &image_attrs));
    let cf_attr = vec!["data-cfemail"];
    assert(cf_attr@.map_values(|a: &str| a@) =~= seq!["data-cfemail"@]);
    let protected = elements_exec(select_elements(html, "[data-cfemail]", &cf_attr));
    searchable_text_from_parts(body, &links, &images, &protected)
}

/// Joins the visible text of a page with the piece of each of its link,
/// image and protected-address elements (see `searchable_from_parts`).
pub fn searchable_text_from_parts(
    visible: Vec<char>,
    links: &Vec<Element>,
    images: &Vec<Element>,
    protected: &Vec<Element>,
) -> (res: String)
    ensures
        res@ == searchable_from_parts(
            visible@,
            element_views(links@),
            element_views(images@),
            element_views(protected@),
        ),
{
    let mut out = visible;
    let ghost body = out@;
    let ghost lv = element_views(links@);
    let ghost lp = lv.map_values(|e: ElementView| link_piece(e));
    let mut i: usize = 0;
    while i < links.len()
        invariant
            i <= links.len(),
            lv == element_views(links@),
            lp == lv.map_values(|e: ElementView| link_piece(e)),
            out@ == body + lp.take(i as int).flatten_alt(),
        decreases links.len() - i,
    {
        assert(lp.take(i + 1).drop_last() =~= lp.take(i as int));
        let piece = link_piece_exec(&links[i]);
        append_chars(&mut out, &piece);
        assert(out@ =~= body + lp.take(i + 1).flatten_alt());
        i = i + 1;
    }
    assert(lp.take(i as int) =~= lp);
    let ghost after_links = out@;
    let ghost iv = element_views(images@);
    let ghost ip = iv.map_values(|e: ElementView| image_piece(e));
    let mut i: usize = 0;
    while i < images.len()
        invariant
            i <= images.len(),
            iv == element_views(images@),
            ip == iv.map_values(|e: ElementView| image_piece(e)),
            out@ == after_links + ip.take(i as int).flatten_alt(),
        decreases images.len() - i,
    {
        assert(ip.take(i + 1).drop_last() =~= ip.take(i as int));
        let piece = image_piece_exec(&images[i]);
        append_chars(&mut out, &piece);
        assert(out@ =~= after_links + ip.take(i + 1).flatten_alt());
        i = i + 1;
    }
    assert(ip.take(i as int) =~= ip);
    let ghost after_images = out@;
    let ghost pv = element_views(protected@);
    let ghost pp = pv.map_values(|e: ElementView| protected_piece(e));
    let mut i: usize = 0;
    while i < protected.len()
        invariant
            i <= protected.len(),
            pv == element_views(protected@),
            pp == pv.map_values(|e: ElementView| protected_piece(e)),
            out@ == after_images + pp.take(i as int).flatten_alt(),
        decreases protected.len() - i,
    {
        assert(pp.take(i + 1).drop_last() =~= pp.take(i as int));
        let piece = protected_piece_exec(&protected[i]);
        append_chars(&mut out, &piece);
        assert(out@ =~= after_images + pp.take(i + 1).flatten_alt());
        i = i + 1;
    }
    assert(pp.take(i as int) =~= pp);
    string_from_chars(&out)
}

/// The public addresses on a page, each once.
pub fn extract_emails(html: &str) -> (res: Vec<String>)
    ensures
        strs(res@).no_duplicates(),
        forall|x: Seq<char>| #[trigger] strs(res@).contains(x) <==> collected_emails(
            searchable_text(html@),
        ).contains(x),
{
    let text = searchable_page_text(html);
    collect_valid_emails(text.as_str())
}

} // verus!

verus! {

// ---------------------------------------------------------------------------
// Which further pages of a site are worth reading
// ---------------------------------------------------------------------------

/// Links and buttons that may lead to contact pages.
pub const BUTTON_SELECTOR: &'static str =
    "button, [role='button'], input[type='button'], input[type='submit']";

/// A target address written into a button's `onclick` script.
pub const BUTTON_URL_PATTERN: &'static str =
    "(?i)(?:location(?:\\.href)?|window\\.open|(?:data-)?(?:href|url)|formaction)\\s*(?:=|\\(|:)\\s*[\"']([^\"']+)[\"']";

pub open spec fn direct_contact_keywords() -> Seq<Seq<char>> {
    seq!["contact"@, "impressum"@, "kontakt"@, "联系"@]
}

pub open spec fn secondary_keywords() -> Seq<Seq<char>> {
    seq!["about"@, "legal"@, "team"@, "company"@, "关于"@, "团队"@]
}

pub open spec fn fallback_contact_paths() -> Seq<Seq<char>> {
    seq!["/contact-us"@, "/contact"@, "/contacto"@, "/kontakt"@, "/impressum"@, "/联系我们"@]
}

pub open spec fn button_attributes() -> Seq<Seq<char>> {
    seq!["formaction"@, "data-href"@, "data-url"@, "href"@, "onclick"@, "value"@]
}

/// Whether `text` contains one of `keywords`.
pub open spec fn mentions_any(text: Seq<char>, keywords: Seq<Seq<char>>) -> bool {
    exists|k: int| 0 <= k < keywords.len() && crate::text::contains(text, #[trigger] keywords[k])
}

pub open spec fn attr_or_empty(a: Option<Seq<char>>) -> Seq<char> {
    match a {
        Some(v) => v,
        None => Seq::empty(),
    }
}

pub open spec fn element_label(e: ElementView) -> Seq<char> {
    clean_text_spec(join(e.texts, " "@))
}

/// A link: its target and its cleaned text.
pub open spec fn anchor_action(e: ElementView) -> (Seq<char>, Seq<char>) {
    (
        if e.attributes.len() > 0 {
            attr_or_empty(e.attributes[0])
        } else {
            Seq::empty()
        },
        element_label(e),
    )
}

/// A button: the first of its `formaction`, `data-href`, `data-url` and
/// `href` attributes, else the address its `onclick` script opens; its
/// `value`, else its cleaned text.
pub open spec fn button_action(e: ElementView) -> (Seq<char>, Seq<char>) {
    let a = e.attributes;
    let href = if a.len() < 6 {
        Seq::empty()
    } else if a[0] is Some {
        a[0]->0
    } else if a[1] is Some {
        a[1]->0
    } else if a[2] is Some {
        a[2]->0
    } else if a[3] is Some {
        a[3]->0
    } else if a[4] is Some {
        match crate::regexes::regex_first_group(BUTTON_URL_PATTERN@, a[4]->0) {
            Some(Some(g)) => g,
            _ => Seq::empty(),
        }
    } else {
        Seq::empty()
    };
    let label = if a.len() >= 6 && a[5] is Some {
        a[5]->0
    } else {
        element_label(e)
    };
    (href, label)
}

/// The candidate links of a page, links first, then buttons.
pub open spec fn page_actions(html: Seq<char>) -> Seq<(Seq<char>, Seq<char>)> {
    element_actions(
        elements(html_elements(html, "a[href]"@, seq!["href"@])),
        elements(html_elements(html, BUTTON_SELECTOR@, button_attributes())),
    )
}

/// The candidate link of each anchor, then of each button.
pub open spec fn element_actions(anchors: Seq<ElementView>, buttons: Seq<ElementView>) -> Seq<
    (Seq<char>, Seq<char>),
> {
    anchors.map_values(|e: ElementView| anchor_action(e)) + buttons.map_values(
        |e: ElementView| button_action(e),
    )
}

/// The links gathered so far and the addresses already taken.
pub ghost struct LinkScan {
    pub contacts: Seq<UrlView>,
    pub secondary: Seq<UrlView>,
    pub facebook: Seq<UrlView>,
    pub seen_contacts: Seq<Seq<char>>,
    pub seen_facebook: Seq<Seq<char>>,
}

pub open spec fn empty_scan() -> LinkScan {
    LinkScan {
        contacts: Seq::empty(),
        secondary: Seq::empty(),
        facebook: Seq::empty(),
        seen_contacts: Seq::empty(),
        seen_facebook: Seq::empty(),
    }
}

/// The link an action points to, resolved against the page and without its
/// fragment.
pub open spec fn action_link(base: UrlView, href: Seq<char>) -> Option<UrlView> {
    match url_joined(base.serialization, href) {
        None => None,
        Some(j) => url_fragment_cleared(j.serialization),
    }
}

/// One action considered: a Facebook link is kept once; a link on the same
/// site is kept once, as a direct contact page when its target or text
/// mentions a contact word, as a secondary page when it mentions an
/// about/legal/team word; anything else, and anything not HTTP(S), is skipped.
pub open spec fn scan_step(base: UrlView, s: LinkScan, action: (Seq<char>, Seq<char>)) -> LinkScan {
    let target = lower(action.0) + " "@ + lower(action.1);
    match action_link(base, action.0) {
        None => s,
        Some(link) => if !is_web_scheme(link.scheme) {
            s
        } else if is_facebook_host(normalized_host_spec(link)) {
            if s.seen_facebook.contains(link.serialization) {
                s
            } else {
                LinkScan {
                    facebook: s.facebook.push(link),
                    seen_facebook: s.seen_facebook.push(link.serialization),
                    ..s
                }
            }
        } else if normalized_host_spec(link) == normalized_host_spec(base) && !s.seen_contacts.contains(
            link.serialization,
        ) {
            if mentions_any(target, direct_contact_keywords()) {
                LinkScan {
                    contacts: s.contacts.push(link),
                    seen_contacts: s.seen_contacts.push(link.serialization),
                    ..s
                }
            } else if mentions_any(target, secondary_keywords()) {
                LinkScan {
                    secondary: s.secondary.push(link),
                    seen_contacts: s.seen_contacts.push(link.serialization),
                    ..s
                }
            } else {
                s
            }
        } else {
            s
        }
    }
}

pub open spec fn scan_actions(base: UrlView, actions: Seq<(Seq<char>, Seq<char>)>) -> LinkScan
    decreases actions.len(),
{
    if actions.len() == 0 {
        empty_scan()
    } else {
        scan_step(base, scan_actions(base, actions.drop_last()), actions.last())
    }
}

/// The scan holds a page at address `x`, as a contact page or a secondary one.
pub open spec fn gathered(s: LinkScan, x: Seq<char>) -> bool {
    exists|m: UrlView| (s.contacts.contains(m) || s.secondary.contains(m)) && m.serialization == x
}

proof fn lemma_contains_after(a: Seq<char>, t: Seq<char>, p: Seq<char>)
    requires
        crate::text::contains(t, p),
    ensures
        crate::text::contains(a + t, p),
{
    let i = choose|i: int| crate::text::occurs_at(t, p, i);
    assert((a + t).subrange(i + a.len(), i + a.len() + p.len()) =~= t.subrange(i, i + p.len()));
    assert(crate::text::occurs_at(a + t, p, i + a.len()));
}

proof fn lemma_step_keeps(base: UrlView, s: LinkScan, action: (Seq<char>, Seq<char>), x: Seq<char>)
    ensures
        s.seen_contacts.contains(x) ==> scan_step(base, s, action).seen_contacts.contains(x),
        gathered(s, x) ==> gathered(scan_step(base, s, action), x),
        (forall|y: Seq<char>| #[trigger] s.seen_contacts.contains(y) ==> gathered(s, y)) ==> (forall|
            y: Seq<char>,
        | #[trigger] scan_step(base, s, action).seen_contacts.contains(y) ==> gathered(
            scan_step(base, s, action),
            y,
        )),
{
    let n = scan_step(base, s, action);
    assert forall|y: Seq<char>| gathered(s, y) implies gathered(n, y) by {
        let m = choose|m: UrlView| (s.contacts.contains(m) || s.secondary.contains(m)) && m.serialization == y;
        if s.contacts.contains(m) {
            let i = choose|i: int| 0 <= i < s.contacts.len() && s.contacts[i] == m;
            if n.contacts != s.contacts {
                assert(n.contacts[i] == m);
            }
            assert(n.contacts.contains(m));
        } else {
            let i = choose|i: int| 0 <= i < s.secondary.len() && s.secondary[i] == m;
            if n.secondary != s.secondary {
                assert(n.secondary[i] == m);
            }
            assert(n.secondary.contains(m));
        }
    }
    if s.seen_contacts.contains(x) && n.seen_contacts != s.seen_contacts {
        let i = choose|i: int| 0 <= i < s.seen_contacts.len() && s.seen_contacts[i] == x;
        assert(n.seen_contacts[i] == x);
    }
    if forall|y: Seq<char>| #[trigger] s.seen_contacts.contains(y) ==> gathered(s, y) {
        assert forall|y: Seq<char>| #[trigger] n.seen_contacts.contains(y) implies gathered(n, y) by {
            if n.seen_contacts == s.seen_contacts {
                assert(gathered(s, y));
            } else {
                let link = action_link(base, action.0)->0;
                lemma_push_contains(s.seen_contacts, link.serialization);
                if y == link.serialization {
                    if n.contacts != s.contacts {
                        assert(n.contacts[n.contacts.len() - 1] == link);
                        assert(n.contacts.contains(link));
                    } else {
                        assert(n.secondary[n.secondary.len() - 1] == link);
                        assert(n.secondary.contains(link));
                    }
                } else {
                    assert(s.seen_contacts.contains(y));
                    assert(gathered(s, y));
                }
            }
        }
    }
}

proof fn lemma_push_contains<A>(s: Seq<A>, a: A)
    ensures
        forall|y: A| #[trigger] s.push(a).contains(y) <==> (s.contains(y) || y == a),
{
    assert forall|y: A| #[trigger] s.push(a).contains(y) implies (s.contains(y) || y == a) by {
        let i = choose|i: int| 0 <= i < s.push(a).len() && s.push(a)[i] == y;
        if i < s.len() {
            assert(s[i] == y);
        }
    }
    assert forall|y: A| (s.contains(y) || y == a) implies #[trigger] s.push(a).contains(y) by {
        if s.contains(y) {
            let i = choose|i: int| 0 <= i < s.len() && s[i] == y;
            assert(s.push(a)[i] == y);
        } else {
            assert(s.push(a)[s.len() as int] == y);
        }
    }
}

proof fn lemma_scan_seen_gathered(base: UrlView, actions: Seq<(Seq<char>, Seq<char>)>)
    ensures
        forall|y: Seq<char>| #[trigger] scan_actions(base, actions).seen_contacts.contains(y)
            ==> gathered(scan_actions(base, actions), y),
    decreases actions.len(),
{
    if actions.len() > 0 {
        lemma_scan_seen_gathered(base, actions.drop_last());
        lemma_step_keeps(base, scan_actions(base, actions.drop_last()), actions.last(), Seq::empty());
    }
}

proof fn lemma_scan_keeps_seen(
    base: UrlView,
    actions: Seq<(Seq<char>, Seq<char>)>,
    k: int,
    x: Seq<char>,
)
    requires
        0 <= k <= actions.len(),
        scan_actions(base, actions.take(k)).seen_contacts.contains(x),
    ensures
        scan_actions(base, actions).seen_contacts.contains(x),
    decreases actions.len() - k,
{
    if k < actions.len() {
        assert(actions.take(k + 1).drop_last() =~= actions.take(k));
        lemma_step_keeps(base, scan_actions(base, actions.take(k)), actions[k], x);
        lemma_scan_keeps_seen(base, actions, k + 1, x);
    } else {
        assert(actions.take(k) =~= actions);
    }
}

proof fn lemma_contains_before(a: Seq<char>, t: Seq<char>, p: Seq<char>)
    requires
        crate::text::contains(a, p),
    ensures
        crate::text::contains(a + t, p),
{
    let i = choose|i: int| crate::text::occurs_at(a, p, i);
    assert((a + t).subrange(i, i + p.len()) =~= a.subrange(i, i + p.len()));
    assert(crate::text::occurs_at(a + t, p, i));
}

proof fn lemma_target_mentions(a: (Seq<char>, Seq<char>), words: Seq<Seq<char>>)
    requires
        mentions_any(lower(a.0), words) || mentions_any(lower(a.1), words),
    ensures
        mentions_any(lower(a.0) + " "@ + lower(a.1), words),
{
    assert(lower(a.0) + " "@ + lower(a.1) =~= (lower(a.0) + " "@) + lower(a.1));
    assert(lower(a.0) + " "@ + lower(a.1) =~= lower(a.0) + (" "@ + lower(a.1)));
    if mentions_any(lower(a.1), words) {
        let j = choose|j: int| 0 <= j < words.len() && crate::text::contains(lower(a.1), #[trigger] words[j]);
        lemma_contains_after(lower(a.0) + " "@, lower(a.1), words[j]);
    } else {
        let j = choose|j: int| 0 <= j < words.len() && crate::text::contains(lower(a.0), #[trigger] words[j]);
        lemma_contains_before(lower(a.0), " "@ + lower(a.1), words[j]);
    }
}

/// A link on the site itself whose visible text or target mentions a
/// contact word (`contact`, `impressum`, `kontakt`, `联系`) or an about word
/// (`about`, `legal`, `team`, `company`, `关于`, `团队`), in any ASCII case,
/// is among the pages gathered to follow.
pub proof fn lemma_keyword_link_gathered(
    base: UrlView,
    actions: Seq<(Seq<char>, Seq<char>)>,
    k: int,
)
    requires
        0 <= k < actions.len(),
        action_link(base, actions[k].0) is Some,
        is_web_scheme(action_link(base, actions[k].0)->0.scheme),
        !is_facebook_host(normalized_host_spec(action_link(base, actions[k].0)->0)),
        normalized_host_spec(action_link(base, actions[k].0)->0) == normalized_host_spec(base),
        mentions_any(lower(actions[k].1), direct_contact_keywords()) || mentions_any(
            lower(actions[k].0),
            direct_contact_keywords(),
        ) || mentions_any(lower(actions[k].1), secondary_keywords()) || mentions_any(
            lower(actions[k].0),
            secondary_keywords(),
        ),
    ensures
        gathered(scan_actions(base, actions), action_link(base, actions[k].0)->0.serialization),
{
    let link = action_link(base, actions[k].0)->0;
    let a = actions[k];
    if mentions_any(lower(a.1), direct_contact_keywords()) || mentions_any(lower(a.0), direct_contact_keywords()) {
        lemma_target_mentions(a, direct_contact_keywords());
    } else {
        lemma_target_mentions(a, secondary_keywords());
    }
    let before = scan_actions(base, actions.take(k));
    assert(actions.take(k + 1).drop_last() =~= actions.take(k));
    assert(actions.take(k + 1).last() == a);
    let after = scan_actions(base, actions.take(k + 1));
    assert(after == scan_step(base, before, a));
    if !before.seen_contacts.contains(link.serialization) {
        lemma_push_contains(before.seen_contacts, link.serialization);
    }
    assert(after.seen_contacts.contains(link.serialization));
    lemma_scan_keeps_seen(base, actions, k + 1, link.serialization);
    lemma_scan_seen_gathered(base, actions);
}

/// A usual contact path on the site: the base URL with that path and no
/// query or fragment.
pub open spec fn fallback_link(base: UrlView, path: Seq<char>) -> Option<UrlView> {
    match url_path_set(base.serialization, path) {
        None => None,
        Some(a) => match url_query_cleared(a.serialization) {
            None => None,
            Some(b) => url_fragment_cleared(b.serialization),
        },
    }
}

pub open spec fn fallback_step(base: UrlView, s: LinkScan, path: Seq<char>) -> LinkScan {
    match fallback_link(base, path) {
        Some(link) => if s.seen_contacts.contains(link.serialization) {
            s
        } else {
            LinkScan {
                contacts: s.contacts.push(link),
                seen_contacts: s.seen_contacts.push(link.serialization),
                ..s
            }
        },
        None => s,
    }
}

pub open spec fn add_fallbacks(base: UrlView, s: LinkScan, paths: Seq<Seq<char>>) -> LinkScan
    decreases paths.len(),
{
    if paths.len() == 0 {
        s
    } else {
        fallback_step(base, add_fallbacks(base, s, paths.drop_last()), paths.last())
    }
}

/// The pages worth reading after the home page (direct contact pages first,
/// then the usual contact paths, then about/legal/team pages; at most six)
/// and the site's Facebook pages (at most two).
pub open spec fn priority_links(html: Seq<char>, base: UrlView) -> (Seq<UrlView>, Seq<UrlView>) {
    links_from_actions(page_actions(html), base)
}

/// The pages to follow and the Facebook pages that the candidate links
/// `actions` give, with the usual contact paths added (see
/// `priority_links`).
pub open spec fn links_from_actions(actions: Seq<(Seq<char>, Seq<char>)>, base: UrlView) -> (
    Seq<UrlView>,
    Seq<UrlView>,
) {
    let scanned = scan_actions(base, actions);
    let s = add_fallbacks(base, scanned, fallback_contact_paths());
    let all = s.contacts + s.secondary;
    (
        if all.len() <= 6 {
            all
        } else {
            all.take(6)
        },
        if s.facebook.len() <= 2 {
            s.facebook
        } else {
            s.facebook.take(2)
        },
    )
}

proof fn lemma_scan_facebook(base: UrlView, actions: Seq<(Seq<char>, Seq<char>)>)
    ensures
        forall|i: int|
            0 <= i < scan_actions(base, actions).facebook.len() ==> is_facebook_host(
                normalized_host_spec(#[trigger] scan_actions(base, actions).facebook[i]),
            ) && is_web_scheme(scan_actions(base, actions).facebook[i].scheme),
    decreases actions.len(),
{
    if actions.len() > 0 {
        lemma_scan_facebook(base, actions.drop_last());
    }
}

proof fn lemma_fallbacks_keep_facebook(base: UrlView, s: LinkScan, paths: Seq<Seq<char>>)
    ensures
        add_fallbacks(base, s, paths).facebook == s.facebook,
    decreases paths.len(),
{
    if paths.len() > 0 {
        lemma_fallbacks_keep_facebook(base, s, paths.drop_last());
    }
}

/// A page yields at most six pages to follow and at most two Facebook
/// pages, and every Facebook page is an HTTP(S) address on a Facebook host.
pub proof fn lemma_priority_link_limits(html: Seq<char>, base: UrlView)
    ensures
        priority_links(html, base).0.len() <= 6,
        priority_links(html, base).1.len() <= 2,
        forall|i: int|
            0 <= i < priority_links(html, base).1.len() ==> is_facebook_host(
                normalized_host_spec(#[trigger] priority_links(html, base).1[i]),
            ) && is_web_scheme(priority_links(html, base).1[i].scheme),
{
    let scanned = scan_actions(base, page_actions(html));
    lemma_scan_facebook(base, page_actions(html));
    lemma_fallbacks_keep_facebook(base, scanned, fallback_contact_paths());
    let fb = add_fallbacks(base, scanned, fallback_contact_paths()).facebook;
    assert forall|i: int| 0 <= i < priority_links(html, base).1.len() implies is_facebook_host(
        normalized_host_spec(#[trigger] priority_links(html, base).1[i]),
    ) && is_web_scheme(priority_links(html, base).1[i].scheme) by {
        assert(priority_links(html, base).1[i] == fb[i]);
        assert(fb[i] == scanned.facebook[i]);
    }
}

pub open spec fn url_views(v: Seq<ParsedUrl>) -> Seq<UrlView> {
    v.map_values(|u: ParsedUrl| u@)
}

struct LinkScanState {
    contacts: Vec<ParsedUrl>,
    secondary: Vec<ParsedUrl>,
    facebook: Vec<ParsedUrl>,
    seen_contacts: Vec<String>,
    seen_facebook: Vec<String>,
}

impl LinkScanState {
    spec fn view_scan(&self) -> LinkScan {
        LinkScan {
            contacts: url_views(self.contacts@),
            secondary: url_views(self.secondary@),
            facebook: url_views(self.facebook@),
            seen_contacts: strs(self.seen_contacts@),
            seen_facebook: strs(self.seen_facebook@),
        }
    }
}

pub fn contains_string(list: &Vec<String>, x: &String) -> (res: bool)
    ensures
        res == strs(list@).contains(x@),
{
    let mut i: usize = 0;
    while i < list.len()
        invariant
            i <= list.len(),
            forall|j: int| 0 <= j < i ==> strs(list@)[j] != x@,
        decreases list.len() - i,
    {
        if list[i] == *x {
            assert(strs(list@)[i as int] == x@);
            return true;
        }
        i = i + 1;
    }
    false
}

pub fn mentions_any_exec(text: &Vec<char>, keywords: &Vec<&'static str>) -> (res: bool)
    ensures
        res == mentions_any(text@, keywords@.map_values(|k: &str| k@)),
{
    let ghost ks = keywords@.map_values(|k: &str| k@);
    let mut i: usize = 0;
    while i < keywords.len()
        invariant
            i <= keywords.len(),
            ks == keywords@.map_values(|k: &str| k@),
            forall|j: int| 0 <= j < i ==> !crate::text::contains(text@, #[trigger] ks[j]),
        decreases keywords.len() - i,
    {
        if crate::text::contains_str(text, keywords[i]) {
            assert(crate::text::contains(text@, ks[i as int]));
            return true;
        }
        i = i + 1;
    }
    false
}

fn direct_keyword_list() -> (res: Vec<&'static str>)
    ensures
        res@.map_values(|s: &str| s@) == direct_contact_keywords(),
{
    let v = vec!["contact", "impressum", "kontakt", "联系"];
    assert(v@.map_values(|s: &str| s@) =~= direct_contact_keywords());
    v
}

fn secondary_keyword_list() -> (res: Vec<&'static str>)
    ensures
        res@.map_values(|s: &str| s@) == secondary_keywords(),
{
    let v = vec!["about", "legal", "team", "company", "关于", "团队"];
    assert(v@.map_values(|s: &str| s@) =~= secondary_keywords());
    v
}

fn fallback_path_list() -> (res: Vec<&'static str>)
    ensures
        res@.map_values(|s: &str| s@) == fallback_contact_paths(),
{
    let v = vec!["/contact-us", "/contact", "/contacto", "/kontakt", "/impressum", "/联系我们"];
    assert(v@.map_values(|s: &str| s@) =~= fallback_contact_paths());
    v
}

fn action_link_exec(base: &ParsedUrl, href: &String) -> (res: Option<ParsedUrl>)
    ensures
        url_opt_view(res) == action_link(base@, href@),
{
    match join_url(base.serialization.as_str(), href.as_str()) {
        None => None,
        Some(j) => clear_url_fragment(j.serialization.as_str()),
    }
}

fn scan_step_exec(
    base: &ParsedUrl,
    base_host: &Vec<char>,
    st: &mut LinkScanState,
    href: &String,
    label: &String,
)
    requires
        base_host@ == normalized_host_spec(base@),
    ensures
        final(st).view_scan() == scan_step(base@, old(st).view_scan(), (href@, label@)),
{
    let hc = chars_of(href.as_str());
    let lc = chars_of(label.as_str());
    let mut target = lower_chars(&hc);
    target.push(' ');
    let lt = lower_chars(&lc);
    append_chars(&mut target, &lt);
    proof {
        reveal_strlit(" ");
        assert(target@ =~= lower(href@) + " "@ + lower(label@));
    }
    let link = match action_link_exec(base, href) {
        None => return ,
        Some(l) => l,
    };
    if !web_scheme(&link) {
        return ;
    }
    let ser = link.serialization.clone();
    if is_facebook_url(&link) {
        if !contains_string(&st.seen_facebook, &ser) {
            st.facebook.push(link);
            st.seen_facebook.push(ser);
            assert(url_views(st.facebook@) =~= url_views(old(st).facebook@).push(link@));
            assert(strs(st.seen_facebook@) =~= strs(old(st).seen_facebook@).push(ser@));
        }
        return ;
    }
    let host = normalized_host(&link);
    if crate::text::seq_eq(&host, base_host) && !contains_string(&st.seen_contacts, &ser) {
        let direct = direct_keyword_list();
        let secondary = secondary_keyword_list();
        if mentions_any_exec(&target, &direct) {
            st.contacts.push(link);
            st.seen_contacts.push(ser);
            assert(url_views(st.contacts@) =~= url_views(old(st).contacts@).push(link@));
            assert(strs(st.seen_contacts@) =~= strs(old(st).seen_contacts@).push(ser@));
        } else if mentions_any_exec(&target, &secondary) {
            st.secondary.push(link);
            st.seen_contacts.push(ser);
            assert(url_views(st.secondary@) =~= url_views(old(st).secondary@).push(link@));
            assert(strs(st.seen_contacts@) =~= strs(old(st).seen_contacts@).push(ser@));
        }
    }
}

fn fallback_step_exec(base: &ParsedUrl, st: &mut LinkScanState, path: &str)
    ensures
        final(st).view_scan() == fallback_step(base@, old(st).view_scan(), path@),
{
    let a = match set_url_path(base.serialization.as_str(), path) {
        None => return ,
        Some(a) => a,
    };
    let b = match clear_url_query(a.serialization.as_str()) {
        None => return ,
        Some(b) => b,
    };
    let link = match clear_url_fragment(b.serialization.as_str()) {
        None => return ,
        Some(l) => l,
    };
    let ser = link.serialization.clone();
    if !contains_string(&st.seen_contacts, &ser) {
        st.contacts.push(link);
        st.seen_contacts.push(ser);
        assert(url_views(st.contacts@) =~= url_views(old(st).contacts@).push(link@));
        assert(strs(st.seen_contacts@) =~= strs(old(st).seen_contacts@).push(ser@));
    }
}

fn anchor_action_exec(e: &Element) -> (res: (String, String))
    ensures
        (res.0@, res.1@) == anchor_action(e@),
{
    let href = if e.attributes.len() > 0 {
        match &e.attributes[0] {
            Some(h) => h.clone(),
            None => empty_string(),
        }
    } else {
        empty_string()
    };
    let joined = join_spaces(&e.texts);
    let j = string_from_chars(&joined);
    (href, clean_text(j.as_str()))
}

fn button_action_exec(e: &Element) -> (res: (String, String))
    ensures
        (res.0@, res.1@) == button_action(e@),
{
    let a = &e.attributes;
    let href = if a.len() < 6 {
        empty_string()
    } else if a[0].is_some() {
        a[0].clone().unwrap()
    } else if a[1].is_some() {
        a[1].clone().unwrap()
    } else if a[2].is_some() {
        a[2].clone().unwrap()
    } else if a[3].is_some() {
        a[3].clone().unwrap()
    } else if a[4].is_some() {
        let onclick = a[4].clone().unwrap();
        match crate::regexes::first_group(BUTTON_URL_PATTERN, onclick.as_str()) {
            Some(Some(g)) => g,
            _ => empty_string(),
        }
    } else {
        empty_string()
    };
    let label = if a.len() >= 6 && a[5].is_some() {
        a[5].clone().unwrap()
    } else {
        let joined = join_spaces(&e.texts);
        let j = string_from_chars(&joined);
        clean_text(j.as_str())
    };
    (href, label)
}

/// The candidate links of the anchors, then the buttons, in order (see
/// `element_actions`).
fn collect_page_actions(anchors: &Vec<Element>, buttons: &Vec<Element>) -> (res: Vec<
    (String, String),
>)
    ensures
        res@.map_values(|p: (String, String)| (p.0@, p.1@)) == element_actions(
            element_views(anchors@),
            element_views(buttons@),
        ),
{
    let ghost first = element_views(anchors@).map_values(|e: ElementView| anchor_action(e));
    let ghost second = element_views(buttons@).map_values(|e: ElementView| button_action(e));
    let mut out: Vec<(String, String)> = Vec::new();
    let mut i: usize = 0;
    while i < anchors.len()
        invariant
            i <= anchors.len(),
            first == element_views(anchors@).map_values(|e: ElementView| anchor_action(e)),
            out@.map_values(|p: (String, String)| (p.0@, p.1@)) == first.take(i as int),
        decreases anchors.len() - i,
    {
        let act = anchor_action_exec(&anchors[i]);
        assert(element_views(anchors@)[i as int] == anchors@[i as int]@);
        assert(first[i as int] == (act.0@, act.1@));
        let ghost before = out@;
        let ghost a = act;
        out.push(act);
        assert(out@ == before.push(a));
        assert(out@.map_values(|p: (String, String)| (p.0@, p.1@)) =~= before.map_values(
            |p: (String, String)| (p.0@, p.1@),
        ).push((a.0@, a.1@)));
        assert(out@.map_values(|p: (String, String)| (p.0@, p.1@)) =~= first.take(i + 1));
        i = i + 1;
    }
    let mut k: usize = 0;
    while k < buttons.len()
        invariant
            k <= buttons.len(),
            i == anchors.len(),
            first.len() == anchors.len(),
            second == element_views(buttons@).map_values(|e: ElementView| button_action(e)),
            out@.map_values(|p: (String, String)| (p.0@, p.1@)) == first + second.take(k as int),
        decreases buttons.len() - k,
    {
        let act = button_action_exec(&buttons[k]);
        assert(element_views(buttons@)[k as int] == buttons@[k as int]@);
        assert(second[k as int] == (act.0@, act.1@));
        let ghost before = out@;
        let ghost a = act;
        out.push(act);
        assert(out@ == before.push(a));
        assert(out@.map_values(|p: (String, String)| (p.0@, p.1@)) =~= before.map_values(
            |p: (String, String)| (p.0@, p.1@),
        ).push((a.0@, a.1@)));
        assert(out@.map_values(|p: (String, String)| (p.0@, p.1@)) =~= first + second.take(
            k + 1,
        ));
        k = k + 1;
    }
    assert(first.take(i as int) =~= first);
    assert(second.take(k as int) =~= second);
    out
}

/// The pages worth reading after the home page and the site's Facebook
/// pages (see `priority_links`).
pub fn discover_priority_links(html: &str, base_url: &ParsedUrl) -> (res: (
    Vec<ParsedUrl>,
    Vec<ParsedUrl>,
))
    ensures
        (url_views(res.0@), url_views(res.1@)) == priority_links(html@, base_url@),
{
    let href_attr = vec!["href"];
    assert(href_attr@.map_values(|a: &str| a@) =~= seq!["href"@]);
    let anchors = elements_exec(select_elements(html, "a[href]", &href_attr));
    let button_attrs = vec!["formaction", "data-href", "data-url", "href", "onclick", "value"];
    assert(button_attrs@.map_values(|a: &str| a@) =~= button_attributes());
    let buttons = elements_exec(select_elements(html, BUTTON_SELECTOR, &button_attrs));
    priority_links_from_elements(&anchors, &buttons, base_url)
}

/// The pages to follow and the Facebook pages that a page's anchors and
/// buttons give (see `links_from_actions`).
pub fn priority_links_from_elements(
    anchors: &Vec<Element>,
    buttons: &Vec<Element>,
    base_url: &ParsedUrl,
) -> (res: (Vec<ParsedUrl>, Vec<ParsedUrl>))
    ensures
        (url_views(res.0@), url_views(res.1@)) == links_from_actions(
            element_actions(element_views(anchors@), element_views(buttons@)),
            base_url@,
        ),
{
    let actions = collect_page_actions(anchors, buttons);
    let ghost av = actions@.map_values(|p: (String, String)| (p.0@, p.1@));
    let base_host = normalized_host(base_url);
    let mut st = LinkScanState {
        contacts: Vec::new(),
        secondary: Vec::new(),
        facebook: Vec::new(),
        seen_contacts: Vec::new(),
        seen_facebook: Vec::new(),
    };
    assert(url_views(st.contacts@) =~= Seq::<UrlView>::empty());
    assert(url_views(st.secondary@) =~= Seq::<UrlView>::empty());
    assert(url_views(st.facebook@) =~= Seq::<UrlView>::empty());
    assert(strs(st.seen_contacts@) =~= Seq::<Seq<char>>::empty());
    assert(strs(st.seen_facebook@) =~= Seq::<Seq<char>>::empty());
    let mut i: usize = 0;
    while i < actions.len()
        invariant
            i <= actions.len(),
            av == actions@.map_values(|p: (String, String)| (p.0@, p.1@)),
            base_host@ == normalized_host_spec(base_url@),
            st.view_scan() == scan_actions(base_url@, av.take(i as int)),
        decreases actions.len() - i,
    {
        assert(av.take(i + 1).drop_last() =~= av.take(i as int));
        scan_step_exec(base_url, &base_host, &mut st, &actions[i].0, &actions[i].1);
        i = i + 1;
    }
    assert(av.take(i as int) =~= av);
    let ghost scanned = st.view_scan();
    let paths = fallback_path_list();
    let ghost pv = paths@.map_values(|s: &str| s@);
    let mut k: usize = 0;
    while k < paths.len()
        invariant
            k <= paths.len(),
            pv == paths@.map_values(|s: &str| s@),
            st.view_scan() == add_fallbacks(base_url@, scanned, pv.take(k as int)),
        decreases paths.len() - k,
    {
        assert(pv.take(k + 1).drop_last() =~= pv.take(k as int));
        fallback_step_exec(base_url, &mut st, paths[k]);
        k = k + 1;
    }
    assert(pv.take(k as int) =~= pv);
    let ghost fin = st.view_scan();
    let mut all = st.contacts;
    let mut secondary = st.secondary;
    all.append(&mut secondary);
    assert(url_views(all@) =~= fin.contacts + fin.secondary);
    if all.len() > 6 {
        all.truncate(6);
        assert(url_views(all@) =~= (fin.contacts + fin.secondary).take(6));
    }
    let mut facebook = st.facebook;
    if facebook.len() > 2 {
        facebook.truncate(2);
        assert(url_views(facebook@) =~= fin.facebook.take(2));
    }
    (all, facebook)
}

} // verus!

verus! {

// ---------------------------------------------------------------------------
// A summary of the business
// ---------------------------------------------------------------------------

pub const META_SELECTOR: &'static str =
    "meta[name='description'], meta[property='og:description']";

pub const CONTENT_SELECTOR: &'static str = "h1, main p, article p, body p";

/// The first meta description that, cleaned, has at least 20 bytes;
/// shortened to 360 characters.
pub open spec fn summary_from_meta(elems: Seq<ElementView>) -> Option<Seq<char>>
    decreases elems.len(),
{
    if elems.len() == 0 {
        None
    } else {
        let a = elems[0].attributes;
        if a.len() > 0 && a[0] is Some && byte_len(clean_text_spec(a[0]->0)) >= 20 {
            Some(truncated(clean_text_spec(a[0]->0), 360))
        } else {
            summary_from_meta(elems.drop_first())
        }
    }
}

/// The first heading or paragraph whose cleaned text has at least 40 bytes;
/// shortened to 360 characters.
pub open spec fn summary_from_content(elems: Seq<ElementView>) -> Option<Seq<char>>
    decreases elems.len(),
{
    if elems.len() == 0 {
        None
    } else {
        let t = clean_text_spec(join(elems[0].texts, " "@));
        if byte_len(t) >= 40 {
            Some(truncated(t, 360))
        } else {
            summary_from_content(elems.drop_first())
        }
    }
}

/// The summary of a page: from its meta description, else from its
/// content, else empty.
pub open spec fn page_summary(html: Seq<char>) -> Seq<char> {
    match summary_from_meta(elements(html_elements(html, META_SELECTOR@, seq!["content"@]))) {
        Some(s) => s,
        None => match summary_from_content(
            elements(html_elements(html, CONTENT_SELECTOR@, Seq::empty())),
        ) {
            Some(s) => s,
            None => Seq::empty(),
        },
    }
}

proof fn lemma_meta_summary_length(elems: Seq<ElementView>)
    ensures
        summary_from_meta(elems) matches Some(t) ==> t.len() <= 361,
    decreases elems.len(),
{
    if elems.len() > 0 {
        lemma_meta_summary_length(elems.drop_first());
    }
}

proof fn lemma_content_summary_length(elems: Seq<ElementView>)
    ensures
        summary_from_content(elems) matches Some(t) ==> t.len() <= 361,
    decreases elems.len(),
{
    if elems.len() > 0 {
        lemma_content_summary_length(elems.drop_first());
    }
}

/// A summary never has more than 360 characters and the ellipsis.
pub proof fn lemma_summary_length(html: Seq<char>)
    ensures
        page_summary(html).len() <= 361,
{
    lemma_meta_summary_length(elements(html_elements(html, META_SELECTOR@, seq!["content"@])));
    lemma_content_summary_length(elements(html_elements(html, CONTENT_SELECTOR@, Seq::empty())));
}

pub fn extract_summary(html: &str) -> (res: String)
    ensures
        res@ == page_summary(html@),
{
    let content_attr = vec!["content"];
    assert(content_attr@.map_values(|a: &str| a@) =~= seq!["content"@]);
    let metas = elements_exec(select_elements(html, META_SELECTOR, &content_attr));
    let ghost mv = element_views(metas@);
    let mut i: usize = 0;
    assert(mv.skip(0) =~= mv);
    while i < metas.len()
        invariant
            i <= metas.len(),
            mv == element_views(metas@),
            mv == elements(html_elements(html@, META_SELECTOR@, seq!["content"@])),
            summary_from_meta(mv) == summary_from_meta(mv.skip(i as int)),
        decreases metas.len() - i,
    {
        assert(mv.skip(i as int).drop_first() =~= mv.skip(i + 1));
        assert(mv.skip(i as int)[0] == metas@[i as int]@);
        let a = &metas[i].attributes;
        if a.len() > 0 {
            if let Some(value) = &a[0] {
                let cleaned = clean_text(value.as_str());
                let cc = chars_of(cleaned.as_str());
                if !byte_len_above(&cc, 19) {
                } else {
                    return truncate(cleaned.as_str(), 360);
                }
            }
        }
        i = i + 1;
    }
    assert(mv.skip(i as int) =~= Seq::<ElementView>::empty());
    let no_attrs: Vec<&str> = Vec::new();
    assert(no_attrs@.map_values(|a: &str| a@) =~= Seq::<Seq<char>>::empty());
    let nodes = elements_exec(select_elements(html, CONTENT_SELECTOR, &no_attrs));
    let ghost nv = element_views(nodes@);
    let mut k: usize = 0;
    assert(nv.skip(0) =~= nv);
    while k < nodes.len()
        invariant
            k <= nodes.len(),
            nv == element_views(nodes@),
            mv == elements(html_elements(html@, META_SELECTOR@, seq!["content"@])),
            nv == elements(html_elements(html@, CONTENT_SELECTOR@, Seq::empty())),
            summary_from_meta(mv) is None,
            summary_from_content(nv) == summary_from_content(nv.skip(k as int)),
        decreases nodes.len() - k,
    {
        assert(nv.skip(k as int).drop_first() =~= nv.skip(k + 1));
        assert(nv.skip(k as int)[0] == nodes@[k as int]@);
        let joined = join_spaces(&nodes[k].texts);
        let j = string_from_chars(&joined);
        let cleaned = clean_text(j.as_str());
        let cc = chars_of(cleaned.as_str());
        if byte_len_above(&cc, 39) {
            return truncate(cleaned.as_str(), 360);
        }
        k = k + 1;
    }
    assert(nv.skip(k as int) =~= Seq::<ElementView>::empty());
    empty_string()
}

} // verus!
