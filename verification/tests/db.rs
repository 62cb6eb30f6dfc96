use rusqlite::Connection;
use yingfeng_data::db::{email_update, mark_exported_sql, stored_emails, stored_list, website_lists};
use yingfeng_data::models::WebsiteResult;

fn mark_businesses_exported(connection: &Connection, ids: &[i64]) {
    let Some(sql) = mark_exported_sql(ids.len()) else {
        return;
    };
    let now = "2026-03-01T00:00:00+00:00".to_string();
    let mut values: Vec<&dyn rusqlite::ToSql> = vec![&now, &now];
    for id in ids {
        values.push(id);
    }
    connection
        .execute(&sql, rusqlite::params_from_iter(values))
        .expect("mark businesses");
}

#[test]
fn marks_selected_businesses_as_exported() {
    let connection = Connection::open_in_memory().expect("open database");
    connection
        .execute_batch(
            "CREATE TABLE businesses (
               id INTEGER PRIMARY KEY,
               exported_at TEXT,
               updated_at TEXT NOT NULL
             );
             INSERT INTO businesses (id, updated_at) VALUES (1, 'old'), (2, 'old');",
        )
        .expect("create fixture");

    mark_businesses_exported(&connection, &[1]);

    let exported: Option<String> = connection
        .query_row(
            "SELECT exported_at FROM businesses WHERE id = 1",
            [],
            |row| row.get(0),
        )
        .expect("read marked business");
    let untouched: Option<String> = connection
        .query_row(
            "SELECT exported_at FROM businesses WHERE id = 2",
            [],
            |row| row.get(0),
        )
        .expect("read untouched business");
    assert!(exported.is_some());
    assert!(untouched.is_none());
}

#[test]
fn mark_statement_lists_one_placeholder_per_business() {
    assert_eq!(mark_exported_sql(0), None);
    assert_eq!(
        mark_exported_sql(1).unwrap(),
        "UPDATE businesses SET exported_at = ?1, updated_at = ?2 WHERE id IN (?)"
    );
    assert_eq!(
        mark_exported_sql(3).unwrap(),
        "UPDATE businesses SET exported_at = ?1, updated_at = ?2 WHERE id IN (?, ?, ?)"
    );
}

#[test]
fn saved_lists_read_back() {
    assert_eq!(stored_list(r#"["a","b"]"#), vec!["a".to_string(), "b".to_string()]);
    assert!(stored_list("not json").is_empty());
    assert!(stored_list(r#"[1, 2]"#).is_empty());
    assert_eq!(
        stored_emails(r#"["x@example.com","B@Shop.com; a@shop.com"]"#),
        vec!["a@shop.com".to_string(), "b@shop.com".to_string()]
    );
}

#[test]
fn edited_address_lists() {
    let (emails, text) = email_update(vec![" B@shop.com ".to_string(), "a@shop.com".to_string()]).unwrap();
    assert_eq!(emails, vec!["a@shop.com".to_string(), "b@shop.com".to_string()]);
    assert_eq!(text, r#"["a@shop.com","b@shop.com"]"#);
    let (emails, text) = email_update(vec!["  ".to_string()]).unwrap();
    assert!(emails.is_empty());
    assert_eq!(text, "[]");
    assert_eq!(
        email_update(vec!["not an address".to_string()]).unwrap_err(),
        "请输入有效的邮箱地址"
    );
}

#[test]
fn website_lists_are_json() {
    let result = WebsiteResult {
        summary: String::new(),
        emails: vec!["a@shop.com".to_string()],
        source_urls: vec!["https://shop.com/".to_string()],
        source_by_email: Vec::new(),
        facebook_urls: Vec::new(),
        status: "completed".to_string(),
        error: String::new(),
    };
    let (a, b, c) = website_lists(&result).unwrap();
    assert_eq!(a, r#"["a@shop.com"]"#);
    assert_eq!(b, r#"["https://shop.com/"]"#);
    assert_eq!(c, "[]");
}
