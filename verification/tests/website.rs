use yingfeng_data::crawl::{
    accept_robots_response, check_body_size, classify_page_response, failed_result, robots_url,
    throttle_delay, CrawlAction, CrawlSession, PageResponse,
};
use yingfeng_data::emails::{
    add_public_addresses, collect_valid_emails, decode_cloudflare_email, deobfuscate_email_text,
    filter_email_list, judge_address, rot13,
};
use yingfeng_data::html::Element;
use yingfeng_data::pages::{
    discover_priority_links, extract_emails, extract_summary, priority_links_from_elements,
    searchable_text_from_parts,
};
use yingfeng_data::robots::robots_allows;
use yingfeng_data::text::{clean_text, truncate};
use yingfeng_data::urls::{
    check_resolved_addresses, check_url_target, is_facebook_url, is_private_ip, normalize_url,
    IpAddress,
};

fn sorted(mut v: Vec<String>) -> Vec<String> {
    v.sort();
    v
}

#[test]
fn finds_and_normalizes_emails() {
    let emails = extract_emails("Mail INFO@Demo.ORG or sales [at] shop [dot] com");
    assert!(emails.contains(&"info@demo.org".to_string()));
    assert!(emails.contains(&"sales@shop.com".to_string()));
}

#[test]
fn ignores_shopify_asset_urls_and_keeps_contact_email() {
    let html = r#"
        <html><body>
          <img src="//cdn.shopify.com/files/product_235x235@2x.png">
          <style>.hero { background: url('photo_1280x@2x.jpg'); }</style>
          <script>const image = '//cdn.shopify.com/image@2x.webp';</script>
          <a href="mailto:brooklynpetsupply11209@gmail.com">联系我们</a>
        </body></html>
    "#;
    let emails = extract_emails(html);
    assert_eq!(
        sorted(emails),
        vec!["brooklynpetsupply11209@gmail.com".to_string()]
    );
}

#[test]
fn handles_rot13_and_filters_placeholder_addresses() {
    let emails = extract_emails("vasb@qrzb.bet and test@example.com");
    assert!(emails.contains(&"info@demo.org".to_string()));
    assert!(!emails.contains(&"test@example.com".to_string()));
}

#[test]
fn decodes_cloudflare_protected_emails() {
    let html = r#"
        <a href="/cdn-cgi/l/email-protection" class="__cf_email__"
           data-cfemail="5a292a2833343d323336361a2a3f2e3574393537743b2f">
          [email&nbsp;protected]
        </a>
    "#;
    assert_eq!(
        sorted(extract_emails(html)),
        vec!["springhill@peto.com.au".to_string()]
    );
}

#[test]
fn cleans_previously_saved_concatenated_values() {
    let old_value = "//cdn.shopify.com/product_235x235@2x.jpg//cdn.shopify.com/file_1280x@2x.pngbrooklynpetsupply11209@gmail.com";
    assert_eq!(
        filter_email_list(vec![old_value.to_string()]),
        vec!["brooklynpetsupply11209@gmail.com".to_string()]
    );
}

#[test]
fn applies_longest_robots_rule() {
    let robots = "User-agent: *\nDisallow: /private\nAllow: /private/contact";
    assert!(!robots_allows(Some(robots), "/private/list"));
    assert!(robots_allows(Some(robots), "/private/contact"));
}

#[test]
fn prioritizes_contact_pages_and_collects_facebook_links() {
    let html = r#"
        <a href="/about">About</a>
        <a href="https://www.facebook.com/example">Facebook</a>
        <a href="/contact-us">Contact us</a>
    "#;
    let base = normalize_url("https://example.org/").unwrap();
    let (contacts, facebook) = discover_priority_links(html, &base);
    assert_eq!(contacts[0].path, "/contact-us");
    assert!(facebook.iter().any(is_facebook_url));
}

#[test]
fn rejects_private_addresses() {
    assert!(is_private_ip(IpAddress::V4([127, 0, 0, 1])));
    assert!(is_private_ip(IpAddress::V4([192, 168, 1, 2])));
    assert!(!is_private_ip(IpAddress::V4([8, 8, 8, 8])));
}

#[test]
fn private_ranges_of_both_families() {
    assert!(is_private_ip(IpAddress::V4([10, 1, 2, 3])));
    assert!(is_private_ip(IpAddress::V4([172, 16, 0, 1])));
    assert!(!is_private_ip(IpAddress::V4([172, 32, 0, 1])));
    assert!(is_private_ip(IpAddress::V4([169, 254, 1, 1])));
    assert!(is_private_ip(IpAddress::V4([0, 0, 0, 0])));
    assert!(is_private_ip(IpAddress::V6([0, 0, 0, 0, 0, 0, 0, 1])));
    assert!(is_private_ip(IpAddress::V6([0xfd00, 0, 0, 0, 0, 0, 0, 1])));
    assert!(is_private_ip(IpAddress::V6([0xfe80, 0, 0, 0, 0, 0, 0, 1])));
    assert!(!is_private_ip(IpAddress::V6([0x2001, 0x4860, 0, 0, 0, 0, 0, 0x8888])));
    assert!(check_resolved_addresses(&vec![IpAddress::V4([8, 8, 8, 8])]).is_ok());
    assert_eq!(
        check_resolved_addresses(&vec![IpAddress::V4([8, 8, 8, 8]), IpAddress::V4([127, 0, 0, 1])])
            .unwrap_err(),
        "禁止访问本机、内网或保留地址"
    );
}

#[test]
fn robots_without_file_or_rule_allows() {
    assert!(robots_allows(None, "/anything"));
    assert!(robots_allows(Some(""), "/anything"));
    assert!(robots_allows(Some("User-agent: other\nDisallow: /"), "/page"));
    assert!(!robots_allows(Some("User-agent: *\nDisallow: /"), "/page"));
    assert!(!robots_allows(
        Some("User-agent: BusinessContactResearchTool\r\nDisallow: /shop # no"),
        "/shop/1"
    ));
}

#[test]
fn rot13_twice_is_identity() {
    assert_eq!(rot13("vasb@qrzb.bet"), "info@demo.org");
    let text = "Hello, World 123 中文";
    assert_eq!(rot13(&rot13(text)), text);
}

#[test]
fn cloudflare_decoding_rejects_bad_input() {
    assert_eq!(
        decode_cloudflare_email("5a292a2833343d323336361a2a3f2e3574393537743b2f"),
        Some("springhill@peto.com.au".to_string())
    );
    assert_eq!(decode_cloudflare_email("5a2"), None);
    assert_eq!(decode_cloudflare_email("5a"), None);
    assert_eq!(decode_cloudflare_email("zz29"), None);
}

#[test]
fn deobfuscation_and_collection() {
    let text = deobfuscate_email_text("sales (at) shop (dot) com");
    assert!(text.contains("sales@shop.com"));
    let found = collect_valid_emails("a@b.co, A@B.CO and x@example.com");
    assert_eq!(found, vec!["a@b.co".to_string()]);
    let found = collect_valid_emails("logo@2x.png info@company.de");
    assert_eq!(found, vec!["info@company.de".to_string()]);
}

#[test]
fn email_lists_are_sorted_and_unique() {
    let list = filter_email_list(vec![
        "b@shop.com; a@shop.com".to_string(),
        "A@SHOP.COM".to_string(),
        "nothing here".to_string(),
    ]);
    assert_eq!(list, vec!["a@shop.com".to_string(), "b@shop.com".to_string()]);
    assert_eq!(filter_email_list(list.clone()), list);
}

#[test]
fn summaries_prefer_meta_description() {
    let html = r#"<html><head><meta name="description" content="  We   bake
        bread every single day  "></head><body><p>Other text that is long enough to count as a summary line here.</p></body></html>"#;
    assert_eq!(extract_summary(html), "We bake bread every single day");
    let short_meta = r#"<html><head><meta name="description" content="Too short"></head><body><p>Other text that is long enough to count as a summary line here.</p></body></html>"#;
    assert_eq!(
        extract_summary(short_meta),
        "Other text that is long enough to count as a summary line here."
    );
    assert_eq!(extract_summary("<p>tiny</p>"), "");
    assert_eq!(clean_text("  a \n b\t c "), "a b c");
    assert_eq!(truncate("abcdef", 3), "abc…");
    assert_eq!(truncate("ab", 3), "ab");
}

#[test]
fn website_urls_are_normalized_and_checked() {
    let u = normalize_url(" example.org ").unwrap();
    assert_eq!(u.serialization, "https://example.org/");
    assert_eq!(normalize_url("  ").unwrap_err(), "官网为空");
    assert_eq!(
        normalize_url("HTTP://Example.org/a").unwrap().serialization,
        "http://example.org/a"
    );
    let target = check_url_target(&normalize_url("https://example.org:8443/x").unwrap()).unwrap();
    assert_eq!(target, ("example.org".to_string(), 8443));
    assert_eq!(
        check_url_target(&normalize_url("http://example.org/").unwrap()).unwrap(),
        ("example.org".to_string(), 80)
    );
    assert_eq!(
        check_url_target(&normalize_url("http://localhost/").unwrap()).unwrap_err(),
        "禁止访问本机或局域网地址"
    );
    assert_eq!(
        check_url_target(&normalize_url("https://printer.local/").unwrap()).unwrap_err(),
        "禁止访问本机或局域网地址"
    );
    assert_eq!(
        check_url_target(&normalize_url("https://user:pw@example.org/").unwrap()).unwrap_err(),
        "官网地址包含不允许的登录信息"
    );
}

#[test]
fn fetch_decisions() {
    let url = normalize_url("https://example.org/a").unwrap();
    match classify_page_response(&url, 301, Some("/b".to_string()), None, None) {
        PageResponse::Redirect(u) => assert_eq!(u.serialization, "https://example.org/b"),
        _ => panic!("expected a redirect"),
    }
    match classify_page_response(&url, 404, None, None, None) {
        PageResponse::Failed(m) => assert_eq!(m, "官网返回 HTTP 404"),
        _ => panic!("expected a failure"),
    }
    match classify_page_response(&url, 200, None, Some("application/pdf".to_string()), None) {
        PageResponse::Failed(m) => assert_eq!(m, "官网首页不是 HTML 页面"),
        _ => panic!("expected a failure"),
    }
    match classify_page_response(&url, 200, None, Some("text/html; charset=utf-8".to_string()), Some(3_000_000)) {
        PageResponse::Failed(m) => assert_eq!(m, "官网页面超过 2 MB 限制"),
        _ => panic!("expected a failure"),
    }
    assert!(matches!(
        classify_page_response(&url, 200, None, Some("Text/HTML".to_string()), Some(10)),
        PageResponse::Accept
    ));
    assert!(check_body_size(2_097_152).is_ok());
    assert!(check_body_size(2_097_153).is_err());
    assert!(accept_robots_response(200, Some(262_144)));
    assert!(!accept_robots_response(200, Some(262_145)));
    assert!(!accept_robots_response(404, None));
    let r = robots_url(&normalize_url("https://example.org/a/b?q=1#f").unwrap()).unwrap();
    assert_eq!(r.serialization, "https://example.org/robots.txt");
}

#[test]
fn requests_to_one_site_are_a_second_apart() {
    assert_eq!(throttle_delay(None, 5_000), (5_000, 0));
    assert_eq!(throttle_delay(Some(5_000), 5_200), (6_000, 800));
    assert_eq!(throttle_delay(Some(1_000), 9_000), (9_000, 0));
}

#[test]
fn crawl_session_reads_home_and_contact_pages() {
    let start = normalize_url("https://example.org/").unwrap();
    let mut session = CrawlSession::new(start, true);
    match session.next_step() {
        CrawlAction::FetchRobots(u) => assert_eq!(u, "https://example.org/"),
        _ => panic!("expected a robots request"),
    }
    match session.robots_fetched(Some("User-agent: *\nDisallow: /private".to_string())) {
        CrawlAction::FetchPage(u) => assert_eq!(u, "https://example.org/"),
        _ => panic!("expected a page request"),
    }
    let home = r#"<html><head><meta name="description" content="Fresh bread baked daily in our family bakery"></head>
        <body><a href="/contact">Contact</a><a href="/private/team">About us</a>
        <a href="https://facebook.com/bakery">fb</a> info@bakery.com</body></html>"#;
    session.page_fetched(normalize_url("https://example.org/").unwrap(), home);
    let mut fetched = vec!["https://example.org/".to_string()];
    loop {
        match session.next_step() {
            CrawlAction::Finished => break,
            CrawlAction::Skip => {}
            CrawlAction::FetchRobots(_) => panic!("robots file already known"),
            CrawlAction::FetchPage(u) => {
                let page = if u == "https://example.org/contact" {
                    "<p>Write to hello@bakery.com</p>"
                } else {
                    "<p>nothing</p>"
                };
                session.page_fetched(normalize_url(&u).unwrap(), page);
                fetched.push(u);
            }
        }
    }
    assert_eq!(fetched.len(), 7);
    assert_eq!(fetched[1], "https://example.org/contact");
    assert_eq!(fetched[2], "https://example.org/contact-us");
    assert!(!fetched.iter().any(|u| u.contains("/private")));
    let result = session.finish();
    assert_eq!(result.status, "completed");
    assert_eq!(result.emails, vec!["hello@bakery.com".to_string(), "info@bakery.com".to_string()]);
    assert_eq!(result.summary, "Fresh bread baked daily in our family bakery");
    assert_eq!(result.facebook_urls, vec!["https://facebook.com/bakery".to_string()]);
    assert_eq!(result.source_urls.len(), 2);
}

#[test]
fn crawl_session_reports_home_page_failure() {
    let start = normalize_url("https://example.org/").unwrap();
    let mut session = CrawlSession::new(start, false);
    assert!(matches!(session.next_step(), CrawlAction::FetchRobots(_)));
    assert!(matches!(session.robots_fetched(None), CrawlAction::FetchPage(_)));
    session.page_failed("官网返回 HTTP 500".to_string());
    assert!(matches!(session.next_step(), CrawlAction::Finished));
    let result = session.finish();
    assert_eq!(result.status, "failed");
    assert_eq!(result.error, "官网返回 HTTP 500");
    let failed = failed_result("x".to_string());
    assert_eq!(failed.status, "failed");
    assert_eq!(failed.error, "x");
}

#[test]
fn cloudflare_protection_round_trips() {
    for key in [0x00u8, 0x42, 0xff] {
        let address = "info@shop.com";
        let mut encoded = format!("{key:02x}");
        for byte in address.bytes() {
            encoded.push_str(&format!("{:02x}", byte ^ key));
        }
        assert_eq!(decode_cloudflare_email(&encoded), Some(address.to_string()));
    }
}

#[test]
fn refusal_comes_from_a_disallow_rule() {
    let robots = "User-agent: *\nAllow: /\nDisallow: /admin";
    assert!(robots_allows(Some(robots), "/shop"));
    assert!(!robots_allows(Some(robots), "/admin/users"));
    assert!(robots_allows(Some("User-agent: *\nAllow: /admin"), "/admin"));
}

#[test]
fn buttons_with_script_targets_are_followed() {
    let html = r#"
        <button onclick="location.href='/kontakt-formular'">Schreiben Sie uns</button>
        <input type="submit" formaction="/team" value="Our team">
        <a href="mailto:x@y.com">mail</a>
    "#;
    let base = normalize_url("https://example.de/").unwrap();
    let (contacts, facebook) = discover_priority_links(html, &base);
    assert_eq!(contacts[0].serialization, "https://example.de/kontakt-formular");
    assert_eq!(contacts.len(), 6);
    assert_eq!(contacts[1].serialization, "https://example.de/contact-us");
    assert!(contacts.iter().all(|u| u.serialization != "https://example.de/team"));
    assert!(facebook.is_empty());
}

#[test]
fn ipv4_mapped_addresses_follow_the_ipv4_rules() {
    assert!(is_private_ip(IpAddress::V6([0, 0, 0, 0, 0, 0xffff, 0x7f00, 0x0001])));
    assert!(is_private_ip(IpAddress::V6([0, 0, 0, 0, 0, 0xffff, 0xc0a8, 0x0102])));
    assert!(is_private_ip(IpAddress::V6([0, 0, 0, 0, 0, 0xffff, 0x0a00, 0x0001])));
    assert!(!is_private_ip(IpAddress::V6([0, 0, 0, 0, 0, 0xffff, 0x0808, 0x0808])));
}

#[test]
fn keeps_each_public_address_among_matches_once() {
    let matches = vec![
        "INFO@Shop.com.".to_string(),
        "x@example.com".to_string(),
        "logo@2x.png".to_string(),
        "info@shop.com".to_string(),
    ];
    let mut found = vec!["sales@shop.com".to_string()];
    add_public_addresses(&matches, &mut found);
    assert_eq!(found, vec!["sales@shop.com".to_string(), "info@shop.com".to_string()]);
}

#[test]
fn judges_an_address_by_the_pattern_results() {
    let mail: Vec<char> = "mail@shop.com".chars().collect();
    assert!(!judge_address(&mail, Some(true), Some(false)));
    assert!(judge_address(&mail, Some(false), Some(false)));
    assert!(judge_address(&mail, None, None));
    assert!(!judge_address(&mail, Some(false), Some(true)));
    let info: Vec<char> = "info@shop.com".chars().collect();
    assert!(judge_address(&info, Some(true), None));
    let blocked: Vec<char> = "info@example.com".chars().collect();
    assert!(!judge_address(&blocked, Some(false), Some(false)));
}

#[test]
fn requests_to_one_site_in_a_burst_go_out_a_second_apart() {
    let mut last = None;
    let mut times = Vec::new();
    for now in [10_000u64, 10_000, 10_050, 10_100, 14_500] {
        let (scheduled, wait) = throttle_delay(last, now);
        assert_eq!(scheduled, now + wait);
        times.push(scheduled);
        last = Some(scheduled);
    }
    assert_eq!(times, vec![10_000, 11_000, 12_000, 13_000, 14_500]);
}

fn element(attributes: &[Option<&str>], texts: &[&str]) -> Element {
    Element {
        attributes: attributes.iter().map(|a| a.map(|v| v.to_string())).collect(),
        texts: texts.iter().map(|t| t.to_string()).collect(),
    }
}

#[test]
fn joins_the_searched_text_from_its_parts() {
    let body: Vec<char> = "Hello".chars().collect();
    let links = vec![
        element(&[Some("MAILTO:Info@Shop.com?subject=hi")], &[]),
        element(&[Some("/about")], &["About"]),
    ];
    let images = vec![element(&[Some("logo"), None, Some("Shop logo")], &[])];
    let protected = vec![element(&[Some("5a292a2833343d323336361a2a3f2e3574393537743b2f")], &[])];
    assert_eq!(
        searchable_text_from_parts(body, &links, &images, &protected),
        "Hello Info@Shop.com logo Shop logo springhill@peto.com.au"
    );
}

#[test]
fn finds_priority_links_among_anchors_and_buttons() {
    let base = normalize_url("https://example.org/").unwrap();
    let anchors = vec![
        element(&[Some("/kontakt")], &["Kontakt"]),
        element(&[Some("https://www.facebook.com/shop")], &["Facebook"]),
    ];
    let (contacts, facebook) = priority_links_from_elements(&anchors, &Vec::new(), &base);
    assert_eq!(contacts[0].path, "/kontakt");
    assert_eq!(contacts[1].path, "/contact-us");
    assert!(contacts.len() <= 6);
    assert_eq!(facebook.len(), 1);
    assert!(is_facebook_url(&facebook[0]));
}
