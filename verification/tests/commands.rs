use yingfeng_data::commands::{
    business_deletion_result, diagnostic_entry, ensure_no_active_job, new_job_id, normalize_device_id,
    resolve_device_id, search_deletion_result, selected_job_id, validate_request, ControlAction,
};
use yingfeng_data::models::SearchRequest;

fn request(keyword: &str, location: &str, max_results: u32, language: &str) -> SearchRequest {
    SearchRequest {
        keyword: keyword.to_string(),
        location: location.to_string(),
        max_results,
        language: language.to_string(),
        headless: true,
    }
}

#[test]
fn accepts_existing_device_ids() {
    assert_eq!(
        normalize_device_id(" 6a8bc927-0872-4a5b-8ca4-9e226e41d53b "),
        Some("6a8bc927-0872-4a5b-8ca4-9e226e41d53b".to_string())
    );
    assert_eq!(
        normalize_device_id("device-12345678"),
        Some("device-12345678".to_string())
    );
}

#[test]
fn rejects_unsafe_device_ids() {
    assert_eq!(normalize_device_id("short"), None);
    assert_eq!(normalize_device_id("device id with spaces"), None);
    assert_eq!(normalize_device_id("设备-12345678"), None);
}

#[test]
fn device_id_length_limits() {
    assert_eq!(normalize_device_id("abcdefgh"), Some("abcdefgh".to_string()));
    assert_eq!(normalize_device_id("abcdefg"), None);
    let long = "a".repeat(128);
    assert_eq!(normalize_device_id(&long), Some(long.clone()));
    assert_eq!(normalize_device_id(&"a".repeat(129)), None);
}

#[test]
fn normalizing_a_device_id_twice_changes_nothing() {
    let once = normalize_device_id("  device:01.ab_cd  ").unwrap();
    assert_eq!(normalize_device_id(&once), Some(once.clone()));
}

#[test]
fn stored_device_id_wins_and_needs_no_saving() {
    let choice = resolve_device_id(Some(" stored-device-01 "), Some("legacy-device-02"));
    assert_eq!(choice.device_id, "stored-device-01");
    assert!(!choice.needs_saving);
}

#[test]
fn legacy_device_id_is_saved_when_nothing_valid_is_stored() {
    let choice = resolve_device_id(Some("bad"), Some("legacy-device-02"));
    assert_eq!(choice.device_id, "legacy-device-02");
    assert!(choice.needs_saving);
}

#[test]
fn fresh_device_id_is_a_valid_uuid() {
    let choice = resolve_device_id(None, Some("no"));
    assert!(choice.needs_saving);
    assert_eq!(choice.device_id.len(), 36);
    assert_eq!(normalize_device_id(&choice.device_id), Some(choice.device_id.clone()));
    let other = resolve_device_id(None, None);
    assert_ne!(other.device_id, choice.device_id);
}

#[test]
fn validation_trims_and_defaults_language() {
    let r = validate_request(request("  咖啡店 ", " 上海 ", 20, "  ")).unwrap();
    assert_eq!(r.keyword, "咖啡店");
    assert_eq!(r.location, "上海");
    assert_eq!(r.max_results, 20);
    assert_eq!(r.language, "zh-CN");
    assert!(r.headless);
    let r = validate_request(request("dentist", "Toronto", 1, " en ")).unwrap();
    assert_eq!(r.language, "en");
}

#[test]
fn validation_refuses_blank_terms_first() {
    assert_eq!(
        validate_request(request("  ", "上海", 0, "")).unwrap_err(),
        "关键词和地区不能为空"
    );
    assert_eq!(
        validate_request(request("咖啡", "\t", 20, "")).unwrap_err(),
        "关键词和地区不能为空"
    );
}

#[test]
fn validation_refuses_result_counts_out_of_range() {
    assert_eq!(
        validate_request(request("咖啡", "上海", 0, "")).unwrap_err(),
        "结果数量必须在 1 到 200 之间"
    );
    assert_eq!(
        validate_request(request("咖啡", "上海", 201, "")).unwrap_err(),
        "结果数量必须在 1 到 200 之间"
    );
    assert!(validate_request(request("咖啡", "上海", 200, "")).is_ok());
}

#[test]
fn validated_request_validates_to_itself() {
    let once = validate_request(request(" bakery ", " Paris ", 50, "")).unwrap();
    let twice = validate_request(once.clone()).unwrap();
    assert_eq!(twice.keyword, once.keyword);
    assert_eq!(twice.location, once.location);
    assert_eq!(twice.language, once.language);
    assert_eq!(twice.max_results, once.max_results);
}

#[test]
fn control_actions_round_trip() {
    for action in [ControlAction::Pause, ControlAction::Cancel] {
        let name = action.as_str();
        assert_eq!(ControlAction::try_from(name).unwrap().as_str(), name);
    }
    assert_eq!(ControlAction::Pause.status(), "paused");
    assert_eq!(ControlAction::Cancel.status(), "cancelled");
    assert_eq!(ControlAction::Pause.message(), "任务已暂停，可从现有结果继续");
    assert_eq!(ControlAction::Cancel.message(), "任务已取消");
    assert!(ControlAction::try_from("stop").is_err());
}

#[test]
fn only_one_search_at_a_time() {
    assert!(ensure_no_active_job(0).is_ok());
    assert_eq!(
        ensure_no_active_job(1).unwrap_err(),
        "当前已有采集任务运行，请先暂停或取消该任务"
    );
}

#[test]
fn deletion_results() {
    assert!(business_deletion_result(true).is_ok());
    assert!(business_deletion_result(false).is_err());
    assert!(search_deletion_result(true).is_ok());
    assert!(search_deletion_result(false).is_err());
}

#[test]
fn selected_job_falls_back_to_first_listed() {
    assert_eq!(selected_job_id(Some("x".to_string()), &Vec::new()), Some("x".to_string()));
    assert_eq!(selected_job_id(None, &Vec::new()), None);
}

#[test]
fn diagnostic_entries_are_clipped() {
    let (source, message) = diagnostic_entry(&"s".repeat(100), "short");
    assert_eq!(source.chars().count(), 80);
    assert_eq!(message, "short");
    let (_, message) = diagnostic_entry("ui", &"m".repeat(20_005));
    assert_eq!(message.chars().count(), 20_000);
}

#[test]
fn job_ids_are_fresh_uuids() {
    let a = new_job_id();
    let b = new_job_id();
    assert_eq!(a.len(), 36);
    assert_ne!(a, b);
    assert!(a.chars().all(|c| c.is_ascii_hexdigit() && !c.is_ascii_uppercase() || c == '-'));
}
