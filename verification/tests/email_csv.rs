use yingfeng_data::csvfile::CsvRead;
use yingfeng_data::email_csv::{choose_email, compact, finish_scrape, plan_from_read, prepare_scrape};
use yingfeng_data::models::WebsiteResult;

const HEADER: &str = "来源任务,名称,主营分类,电话,地址,官网,邮箱,业务摘要,评分,评价数,Google Maps 链接,邮箱来源,状态,错误";

fn crawl(emails: &[&str], status: &str, error: &str, summary: &str) -> WebsiteResult {
    WebsiteResult {
        summary: summary.to_string(),
        emails: emails.iter().map(|e| e.to_string()).collect(),
        source_urls: if emails.is_empty() {
            Vec::new()
        } else {
            vec!["https://shop.example.net/contact".to_string()]
        },
        source_by_email: emails
            .iter()
            .map(|e| (e.to_string(), "https://shop.example.net/contact".to_string()))
            .collect(),
        facebook_urls: Vec::new(),
        status: status.to_string(),
        error: error.to_string(),
    }
}

#[test]
fn rejects_non_exported_csv() {
    let result = prepare_scrape("name,website\nshop,https://example.org");
    assert!(result.err().unwrap().contains("文件不是工具导出的 CSV"));
}

#[test]
fn preserves_rows_that_already_have_email() {
    let csv = "来源任务,名称,主营分类,电话,地址,官网,邮箱,业务摘要,评分,评价数,Google Maps 链接,邮箱来源,状态,错误\n任务,商家,分类,,,,info@example.org,,,,,,completed,";
    let plan = prepare_scrape(csv).unwrap();
    assert!(plan.group_urls().is_empty());
    let result = finish_scrape(plan, &Vec::new()).unwrap();
    assert_eq!(result.processed_records, 0);
    assert_eq!(result.records_with_email, 0);
    assert!(result.csv.contains("info@example.org"));
}

#[test]
fn names_the_first_missing_column() {
    let err = prepare_scrape("来源任务,名称,官网\n").err().unwrap();
    assert_eq!(err, "文件不是工具导出的 CSV，缺少“邮箱”列");
}

#[test]
fn refuses_files_over_ten_megabytes() {
    let big = "a".repeat(10 * 1024 * 1024 + 1);
    assert_eq!(prepare_scrape(&big).err().unwrap(), "CSV 文件超过 10 MB 限制");
}

#[test]
fn groups_rows_by_website_and_fills_them_in() {
    let csv = format!(
        "\u{feff}{HEADER}\n\
         任务,Sunny Bakery,Bakery,,1 Main St,https://sunnybakery.com,,,,,,,,\n\
         任务,Sunny Bakery 2,Bakery,,2 Main St, HTTPS://SunnyBakery.com ,,,,,,,,\n\
         任务,Dark Shop,Shop,,3 Side St,https://dark.example.net,,,,,,,,\n\
         任务,Closed,Shop,,4 Side St,https://gone.example.net,,,,,,,,\n\
         任务,No Site,Shop,,5 Side St,,,,,,,,,\n"
    );
    let plan = prepare_scrape(&csv).unwrap();
    assert_eq!(
        plan.group_urls(),
        vec![
            "https://sunnybakery.com".to_string(),
            "https://dark.example.net".to_string(),
            "https://gone.example.net".to_string(),
        ]
    );
    let results = vec![
        crawl(&["privacy@sunnybakery.com", "info@sunnybakery.com"], "completed", "", "Fresh bread"),
        crawl(&["someone@unrelated.org"], "completed", "", ""),
        crawl(&[], "failed", "官网返回 HTTP 500", ""),
    ];
    let out = finish_scrape(plan, &results).unwrap();
    assert_eq!(out.processed_records, 4);
    assert_eq!(out.records_with_email, 2);
    assert_eq!(out.emails_found, 2);
    assert_eq!(out.no_email, 1);
    assert_eq!(out.failed, 1);
    assert!(out.csv.starts_with('\u{feff}'));
    let lines: Vec<&str> = out.csv.trim_start_matches('\u{feff}').lines().collect();
    assert_eq!(lines.len(), 6);
    assert_eq!(lines[0], HEADER);
    assert!(lines[1].contains("info@sunnybakery.com"));
    assert!(lines[1].contains("Fresh bread"));
    assert!(lines[1].contains("https://shop.example.net/contact"));
    assert!(lines[1].ends_with(",completed,"));
    assert!(lines[2].contains("info@sunnybakery.com"));
    assert!(lines[3].contains(",no_email,已检查官网公开页面，未发现匹配的公开邮箱"));
    assert!(!lines[3].contains("someone@unrelated.org"));
    assert!(lines[4].ends_with(",failed,官网返回 HTTP 500"));
    assert_eq!(lines[5], "任务,No Site,Shop,,5 Side St,,,,,,,,,");
}

#[test]
fn short_records_are_padded_to_the_headers() {
    let csv = format!("{HEADER}\n任务,Only Name\n");
    let plan = prepare_scrape(&csv).unwrap();
    let out = finish_scrape(plan, &Vec::new()).unwrap();
    let lines: Vec<&str> = out.csv.trim_start_matches('\u{feff}').lines().collect();
    assert_eq!(lines[1], "任务,Only Name,,,,,,,,,,,,");
}

#[test]
fn chooses_the_best_matching_address() {
    let emails = vec![
        "marketing@sunnybakery.com".to_string(),
        "info@sunnybakery.com".to_string(),
        "owner@gmail.com".to_string(),
        "x@unrelated.org".to_string(),
    ];
    assert_eq!(
        choose_email(&emails, "https://www.sunnybakery.com", "Sunny Bakery", "", ""),
        Some("info@sunnybakery.com".to_string())
    );
    assert_eq!(
        choose_email(&vec!["x@unrelated.org".to_string()], "https://sunnybakery.com", "", "", ""),
        None
    );
    assert_eq!(choose_email(&Vec::new(), "https://sunnybakery.com", "", "", ""), None);
    assert_eq!(
        choose_email(
            &vec!["a@gmail.com".to_string(), "b@gmail.com".to_string()],
            "",
            "",
            "",
            ""
        ),
        Some("b@gmail.com".to_string())
    );
}

#[test]
fn compact_keeps_ascii_letters_and_digits() {
    let v: Vec<char> = "a-b.C 1_中".chars().collect();
    assert_eq!(compact(&v).into_iter().collect::<String>(), "abC1");
}

fn header_cells() -> Vec<String> {
    HEADER.split(',').map(|c| c.to_string()).collect()
}

#[test]
fn plans_from_each_kind_of_read() {
    let err = plan_from_read(CsvRead::HeaderError("bad quote".to_string())).err().unwrap();
    assert_eq!(err, "无法读取 CSV 表头：bad quote");
    let err = plan_from_read(CsvRead::RecordError {
        headers: header_cells(),
        message: "line 3".to_string(),
    })
    .err()
    .unwrap();
    assert_eq!(err, "CSV 数据格式错误：line 3");
    let err = plan_from_read(CsvRead::RecordError {
        headers: vec!["来源任务".to_string(), "名称".to_string()],
        message: "line 3".to_string(),
    })
    .err()
    .unwrap();
    assert_eq!(err, "文件不是工具导出的 CSV，缺少“官网”列");
    let row: Vec<String> = vec!["任务", "商家", "分类", "", "", "https://shop.example.net", ""]
        .into_iter()
        .map(|c| c.to_string())
        .collect();
    let plan = plan_from_read(CsvRead::Table { headers: header_cells(), records: vec![row] }).unwrap();
    assert_eq!(plan.group_urls(), vec!["https://shop.example.net".to_string()]);
}
