use yingfeng_data::export::{
    business_identity, deduplicate_businesses, export_file_bytes, export_file_name, export_header_row,
    export_result,
    export_row, fill_if_empty, job_label, maps_business_id, normalize_identity_text, plan_export,
    unexported_businesses, unique_job_ids,
};
use yingfeng_data::models::{Business, SearchJob};

fn business(
    id: i64,
    job_id: &str,
    maps_id: &str,
    name: &str,
    address: &str,
    email: &str,
) -> Business {
    Business {
        id,
        job_id: job_id.to_string(),
        name: name.to_string(),
        category: "咖啡店".to_string(),
        address: address.to_string(),
        phone: "+86 21 1234 5678".to_string(),
        website: "https://example.org".to_string(),
        maps_url: format!("https://www.google.com/maps/place/shop/data=!4m7!1s{maps_id}!8m2"),
        rating_bits: Some(4.5f64.to_bits()),
        review_count: Some(10),
        business_summary: String::new(),
        emails: if email.is_empty() {
            Vec::new()
        } else {
            vec![email.to_string()]
        },
        email_source_urls: if email.is_empty() {
            Vec::new()
        } else {
            vec!["https://example.org/contact".to_string()]
        },
        facebook_urls: Vec::new(),
        status: "completed".to_string(),
        error: String::new(),
        created_at: "2026-01-01T00:00:00Z".to_string(),
        updated_at: "2026-01-01T00:00:00Z".to_string(),
        exported_at: None,
    }
}

#[test]
fn merges_the_same_maps_business_across_jobs() {
    let first = business(
        1,
        "job-a",
        "0xabc:0x123",
        "示例咖啡",
        "上海市静安区 1 号",
        "hello@demo.org",
    );
    let second = business(
        2,
        "job-b",
        "0xabc:0x123",
        "示例咖啡店",
        "上海市静安区1号",
        "sales@demo.org",
    );

    let merged = deduplicate_businesses(vec![first, second]);

    assert_eq!(merged.len(), 1);
    assert_eq!(merged[0].source_job_ids.len(), 2);
    assert_eq!(
        merged[0].business.emails,
        vec!["hello@demo.org", "sales@demo.org"]
    );
}

#[test]
fn keeps_different_maps_businesses_separate() {
    let first = business(1, "job-a", "0xaaa:0x111", "分店", "地址 A", "");
    let second = business(2, "job-b", "0xbbb:0x222", "分店", "地址 B", "");

    assert_eq!(deduplicate_businesses(vec![first, second]).len(), 2);
}

#[test]
fn falls_back_to_normalized_name_and_address() {
    let mut first = business(1, "job-a", "unused-a", "ABC Dental", "12 Main St.", "");
    let mut second = business(2, "job-b", "unused-b", "abc dental", "12 Main St", "");
    first.maps_url.clear();
    second.maps_url.clear();

    assert_eq!(deduplicate_businesses(vec![first, second]).len(), 1);
}

#[test]
fn identity_keys_in_order_of_preference() {
    let b = business(1, "job-a", "0xABC:0x1", "Shop", "Addr", "");
    assert_eq!(business_identity(&b), "maps:0xabc:0x1");
    let mut b = business(7, "job-a", "x", "Shop", "Addr", "");
    b.maps_url = "https://maps.google.com/?cid=ABC123".to_string();
    assert_eq!(business_identity(&b), "maps-query:abc123");
    b.maps_url = "https://Maps.Example.com/Place/Shop/".to_string();
    assert_eq!(business_identity(&b), "maps-url:maps.example.com/place/shop");
    b.maps_url = String::new();
    assert_eq!(business_identity(&b), "name-address:shop:addr");
    b.address = String::new();
    assert_eq!(business_identity(&b), "name-phone:shop:862112345678");
    b.phone = "12".to_string();
    assert_eq!(business_identity(&b), "name-domain:shop:example.org");
    b.website = String::new();
    assert_eq!(business_identity(&b), "record:job-a:7");
}

#[test]
fn identity_helpers() {
    assert_eq!(normalize_identity_text("ABC Dental, 12 Main St."), "abcdental12mainst");
    assert_eq!(normalize_identity_text("示例 咖啡"), "示例咖啡");
    assert_eq!(normalize_identity_text("ÄRZTE Zentrum-Süd"), "ärztezentrumsüd");
    assert_eq!(
        maps_business_id("https://www.google.com/maps/place/x/data=!4m7!1s 0xAB:0xCD !8m2"),
        Some("0xab:0xcd".to_string())
    );
    assert_eq!(maps_business_id("https://www.google.com/maps/place/x"), None);
    assert_eq!(maps_business_id("!1s  !"), None);
}

#[test]
fn merging_fills_blank_fields_and_unites_lists() {
    let mut first = business(1, "job-b", "0xabc:0x1", "Shop", "", "b@demo.org");
    first.status = "failed".to_string();
    first.error = "timeout".to_string();
    first.rating_bits = None;
    let mut second = business(2, "job-a", "0xabc:0x1", "Shop Two", "Main St", "a@demo.org");
    second.business_summary = "A longer summary".to_string();
    second.updated_at = "2026-02-01T00:00:00Z".to_string();
    second.facebook_urls = vec!["https://facebook.com/shop".to_string()];
    let merged = deduplicate_businesses(vec![first, second]);
    assert_eq!(merged.len(), 1);
    let m = &merged[0];
    assert_eq!(m.source_job_ids, vec!["job-a".to_string(), "job-b".to_string()]);
    assert_eq!(m.business.id, 1);
    assert_eq!(m.business.name, "Shop");
    assert_eq!(m.business.address, "Main St");
    assert_eq!(m.business.rating_bits, Some(4.5f64.to_bits()));
    assert_eq!(m.business.business_summary, "A longer summary");
    assert_eq!(m.business.emails, vec!["a@demo.org".to_string(), "b@demo.org".to_string()]);
    assert_eq!(m.business.email_source_urls, vec!["https://example.org/contact".to_string()]);
    assert_eq!(m.business.facebook_urls, vec!["https://facebook.com/shop".to_string()]);
    assert_eq!(m.business.status, "completed");
    assert_eq!(m.business.error, "");
    assert_eq!(m.business.updated_at, "2026-02-01T00:00:00Z");
}

#[test]
fn fill_if_empty_only_fills_blank_targets() {
    let mut target = "  ".to_string();
    fill_if_empty(&mut target, "value");
    assert_eq!(target, "value");
    fill_if_empty(&mut target, "other");
    assert_eq!(target, "value");
    let mut target = String::new();
    fill_if_empty(&mut target, " ");
    assert_eq!(target, "");
}

#[test]
fn job_ids_are_kept_once_and_in_order() {
    assert_eq!(
        unique_job_ids(vec!["b".into(), " ".into(), "a".into(), "b".into()]).unwrap(),
        vec!["b".to_string(), "a".to_string()]
    );
    assert_eq!(unique_job_ids(vec!["".into()]).unwrap_err(), "请至少选择一个任务");
}

#[test]
fn export_plan_counts_records() {
    let mut exported = business(3, "job-a", "0xabc:0x1", "Shop", "A", "");
    exported.exported_at = Some("2026-01-02T00:00:00Z".to_string());
    let list = unexported_businesses(vec![
        business(1, "job-a", "0xabc:0x1", "Shop", "A", ""),
        exported,
        business(2, "job-b", "0xabc:0x1", "Shop", "A", ""),
    ]);
    assert_eq!(list.len(), 2);
    let plan = plan_export(list).unwrap();
    assert_eq!(plan.input_records, 2);
    assert_eq!(plan.exported_business_ids, vec![1, 2]);
    assert_eq!(plan.merged.len(), 1);
    assert_eq!(plan_export(Vec::new()).err().unwrap(), "所选任务没有未导出的商家");
    let result = export_result("out.csv".to_string(), 2, 2, 1);
    assert_eq!(result.duplicates_removed, 1);
    assert_eq!(export_result("o".to_string(), 1, 1, 3).duplicates_removed, 0);
}

#[test]
fn export_rows_and_file() {
    let job = SearchJob {
        id: "job-a".to_string(),
        keyword: "咖啡".to_string(),
        location: "上海".to_string(),
        max_results: 10,
        language: "zh-CN".to_string(),
        headless: true,
        status: "completed".to_string(),
        discovered: 1,
        enriched: 1,
        emails_found: 1,
        failed: 0,
        business_count: 1,
        exported: 0,
        message: String::new(),
        created_at: String::new(),
        updated_at: String::new(),
    };
    assert_eq!(job_label(&job), "咖啡 | 上海");
    let merged = deduplicate_businesses(vec![business(1, "job-a", "0xabc:0x1", "Shop", "A", "a@demo.org")]);
    let labels = vec![("job-a".to_string(), job_label(&job))];
    let row = export_row(&merged[0], &labels, "4.5");
    assert_eq!(row.len(), 15);
    assert_eq!(row[0], "咖啡 | 上海");
    assert_eq!(row[7], "a@demo.org");
    assert_eq!(row[9], "4.5");
    assert_eq!(row[10], "10");
    let header = export_header_row();
    assert_eq!(header[0], "来源任务");
    let bytes = export_file_bytes(&vec![header, row]).unwrap();
    assert_eq!(&bytes[..3], &[0xEF, 0xBB, 0xBF]);
    let text = String::from_utf8(bytes[3..].to_vec()).unwrap();
    assert!(text.starts_with("来源任务,名称,"));
    assert!(text.contains("a@demo.org"));
}

#[test]
fn export_files_are_named_by_task_count_and_time() {
    assert_eq!(
        export_file_name(3, "20260105-093000"),
        "businesses-3-tasks-20260105-093000.csv"
    );
}

#[test]
fn merged_business_unites_sources_pages_and_tasks() {
    let mut a = business(1, "job-a", "0xabc:0x9", "Shop", "A", "a@demo.org");
    a.facebook_urls = vec!["https://facebook.com/a".to_string()];
    let mut b = business(2, "job-b", "0xabc:0x9", "Shop", "A", "");
    b.email_source_urls = vec!["https://demo.org/about".to_string()];
    let c = business(3, "job-c", "0xdef:0x1", "Other", "B", "");
    let merged = deduplicate_businesses(vec![a, b, c]);
    assert_eq!(merged.len(), 2);
    assert_eq!(
        merged[0].business.email_source_urls,
        vec!["https://demo.org/about".to_string(), "https://example.org/contact".to_string()]
    );
    assert_eq!(merged[0].business.facebook_urls, vec!["https://facebook.com/a".to_string()]);
    assert_eq!(merged[0].source_job_ids, vec!["job-a".to_string(), "job-b".to_string()]);
    assert_eq!(merged[1].source_job_ids, vec!["job-c".to_string()]);
}

#[test]
fn names_differing_in_case_spacing_and_punctuation_match() {
    assert_eq!(normalize_identity_text("ABC Dental"), normalize_identity_text("abc dental"));
    assert_eq!(normalize_identity_text("12 Main St."), normalize_identity_text("12 Main St"));
    assert_eq!(normalize_identity_text("12 Main St."), "12mainst");
    let out = normalize_identity_text(" Tab\tNew\nLine!?#$%&*()[]{}<>;:'\",./\\|`~^_-+=@ Q9 ");
    assert_eq!(out, "tabnewlineq9");
    assert!(out.chars().all(|c| c.is_ascii_lowercase() || c.is_ascii_digit()));
}
