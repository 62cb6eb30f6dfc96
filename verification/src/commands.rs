//! The decisions behind the desktop commands: which device identifier to
//! keep, whether a search request is acceptable, and which task controls
//! exist.
use vstd::prelude::*;

use crate::models::{SearchJob, SearchRequest};
use crate::text::{
    ascii_alnum, chars_of, eq_str, is_ascii_alnum, is_ascii_digit, is_blank, is_ws, lemma_trim_idempotent,
    owned, string_from_chars, sub_chars, trim, trim_chars, trim_str,
};

verus! {

// ---------------------------------------------------------------------------
// Device identifiers
// ---------------------------------------------------------------------------

pub open spec fn is_device_id_char(c: char) -> bool {
    is_ascii_alnum(c) || c == '-' || c == '_' || c == '.' || c == ':'
}

/// A device identifier is the trimmed value when that holds 8 to 128
/// characters, all ASCII letters, digits, `-`, `_`, `.` or `:`.
/// (Such a value is ASCII, so its length in bytes is its length in characters.)
pub open spec fn device_id_of(s: Seq<char>) -> Option<Seq<char>> {
    let t = trim(s);
    if 8 <= t.len() <= 128 && forall|i: int| 0 <= i < t.len() ==> is_device_id_char(#[trigger] t[i]) {
        Some(t)
    } else {
        None
    }
}

pub fn normalize_device_id(value: &str) -> (res: Option<String>)
    ensures
        match res {
            Some(v) => device_id_of(value@) == Some(v@),
            None => device_id_of(value@).is_none(),
        },
{
    let cs = chars_of(value);
    let t = trim_chars(&cs);
    if t.len() < 8 || t.len() > 128 {
        return None;
    }
    let mut i: usize = 0;
    while i < t.len()
        invariant
            i <= t.len(),
            t@ == trim(value@),
            forall|j: int| 0 <= j < i ==> is_device_id_char(#[trigger] t@[j]),
        decreases t.len() - i,
    {
        let c = t[i];
        if !(ascii_alnum(c) || c == '-' || c == '_' || c == '.' || c == ':') {
            assert(!is_device_id_char(t@[i as int]));
            assert(!(forall|j: int| 0 <= j < t@.len() ==> is_device_id_char(#[trigger] t@[j])));
            return None;
        }
        i = i + 1;
    }
    Some(string_from_chars(&t))
}

/// Normalizing an accepted identifier gives it back unchanged.
pub proof fn lemma_device_id_idempotent(s: Seq<char>)
    ensures
        device_id_of(s) matches Some(v) ==> device_id_of(v) == Some(v),
{
    lemma_trim_idempotent(s);
}

/// A hyphenated lower-case UUID: 36 characters, each a digit, `a` to `f` or `-`.
pub open spec fn is_uuid_text(s: Seq<char>) -> bool {
    s.len() == 36 && forall|i: int|
        0 <= i < s.len() ==> (is_ascii_digit(#[trigger] s[i]) || 0x61 <= (s[i] as u32) <= 0x66
            || s[i] == '-')
}

/// `uuid::Uuid::new_v4()` rendered with `to_string`. The value is random; the
/// contract states only its shape, which the `Display` impl of `Uuid` in the
/// crate's source fixes: the hyphenated lower-case form, 36 characters.
#[verifier::external_body]
fn new_uuid_string() -> (res: String)
    ensures
        is_uuid_text(res@),
{
    uuid::Uuid::new_v4().to_string()
}

/// A fresh task identifier: a random UUID in its hyphenated lower-case
/// form.
pub fn new_job_id() -> (res: String)
    ensures
        is_uuid_text(res@),
{
    new_uuid_string()
}

/// Which identifier a device keeps, and whether it has to be saved.
pub struct DeviceIdChoice {
    pub device_id: String,
    pub needs_saving: bool,
}

/// The stored identifier wins when it is valid; else the identifier the
/// window still holds from earlier versions; else a fresh random UUID. Only
/// a stored valid identifier needs no saving.
pub fn resolve_device_id(stored: Option<&str>, legacy_device_id: Option<&str>) -> (res:
    DeviceIdChoice)
    ensures
        match stored {
            Some(s) if device_id_of(s@) is Some => res.device_id@ == device_id_of(s@)->0
                && !res.needs_saving,
            _ => match legacy_device_id {
                Some(l) if device_id_of(l@) is Some => res.device_id@ == device_id_of(l@)->0
                    && res.needs_saving,
                _ => is_uuid_text(res.device_id@) && res.needs_saving,
            },
        },
        device_id_of(res.device_id@) == Some(res.device_id@),
{
    if let Some(s) = stored {
        if let Some(id) = normalize_device_id(s) {
            proof {
                lemma_device_id_idempotent(s@);
            }
            return DeviceIdChoice { device_id: id, needs_saving: false };
        }
    }
    if let Some(l) = legacy_device_id {
        if let Some(id) = normalize_device_id(l) {
            proof {
                lemma_device_id_idempotent(l@);
            }
            return DeviceIdChoice { device_id: id, needs_saving: true };
        }
    }
    let id = new_uuid_string();
    proof {
        lemma_uuid_is_device_id(id@);
    }
    DeviceIdChoice { device_id: id, needs_saving: true }
}

/// Every generated UUID is itself a valid device identifier.
pub proof fn lemma_uuid_is_device_id(s: Seq<char>)
    requires
        is_uuid_text(s),
    ensures
        device_id_of(s) == Some(s),
{
    assert forall|i: int| 0 <= i < s.len() implies !is_ws(s[i]) && is_device_id_char(
        #[trigger] s[i],
    ) by {}
    lemma_no_ws_trim(s);
}

/// Trimming a string without any whitespace leaves it unchanged.
pub proof fn lemma_no_ws_trim(s: Seq<char>)
    requires
        forall|i: int| 0 <= i < s.len() ==> !is_ws(#[trigger] s[i]),
    ensures
        trim(s) == s,
{
    if s.len() > 0 {
        assert(!is_ws(s[0]));
        assert(!is_ws(s[s.len() - 1]));
    }
}

// ---------------------------------------------------------------------------
// Search requests
// ---------------------------------------------------------------------------

pub open spec fn empty_terms_message() -> Seq<char> {
    "关键词和地区不能为空"@
}

pub open spec fn result_range_message() -> Seq<char> {
    "结果数量必须在 1 到 200 之间"@
}

/// Why a request is refused, if it is: a blank keyword or location first,
/// then a result count outside 1 to 200.
pub open spec fn request_error(keyword: Seq<char>, location: Seq<char>, max_results: u32) -> Option<
    Seq<char>,
> {
    if is_blank(keyword) || is_blank(location) {
        Some(empty_terms_message())
    } else if !(1 <= max_results <= 200) {
        Some(result_range_message())
    } else {
        None
    }
}

/// Trims keyword, location and language; refuses a request whose keyword or
/// location is blank, then one that asks for fewer than 1 or more than 200
/// results; a blank language becomes `zh-CN`.
pub fn validate_request(request: SearchRequest) -> (res: Result<SearchRequest, String>)
    ensures
        match res {
            Ok(r) => {
                &&& request_error(request.keyword@, request.location@, request.max_results) is None
                &&& r.keyword@ == trim(request.keyword@)
                &&& r.location@ == trim(request.location@)
                &&& r.max_results == request.max_results
                &&& r.headless == request.headless
                &&& r.language@ == validated_language(request.language@)
            },
            Err(m) => request_error(request.keyword@, request.location@, request.max_results)
                == Some(m@),
        },
{
    let keyword = trim_str(request.keyword.as_str());
    let location = trim_str(request.location.as_str());
    let language = trim_str(request.language.as_str());
    proof {
        lemma_trim_idempotent(request.keyword@);
        lemma_trim_idempotent(request.location@);
        lemma_trim_idempotent(request.language@);
    }
    if keyword.as_str().is_empty() || location.as_str().is_empty() {
        return Err(owned("关键词和地区不能为空"));
    }
    if !(1 <= request.max_results && request.max_results <= 200) {
        return Err(owned("结果数量必须在 1 到 200 之间"));
    }
    let language = if language.as_str().is_empty() {
        owned("zh-CN")
    } else {
        language
    };
    Ok(SearchRequest {
        keyword,
        location,
        max_results: request.max_results,
        language,
        headless: request.headless,
    })
}

/// The language a request is stored with.
pub open spec fn validated_language(language: Seq<char>) -> Seq<char> {
    if is_blank(language) {
        "zh-CN"@
    } else {
        trim(language)
    }
}

/// A request that passed validation passes again unchanged: resuming a
/// stored task validates to the same parameters.
pub proof fn lemma_validation_idempotent(keyword: Seq<char>, location: Seq<char>, max_results: u32, language: Seq<char>)
    requires
        request_error(keyword, location, max_results) is None,
    ensures
        request_error(trim(keyword), trim(location), max_results) is None,
        trim(trim(keyword)) == trim(keyword),
        trim(trim(location)) == trim(location),
        validated_language(validated_language(language)) == validated_language(language),
{
    lemma_trim_idempotent(keyword);
    lemma_trim_idempotent(location);
    lemma_trim_idempotent(language);
    reveal_strlit("zh-CN");
    let z = "zh-CN"@;
    assert forall|i: int| 0 <= i < z.len() implies !is_ws(#[trigger] z[i]) by {}
    lemma_no_ws_trim(z);
}

/// The request that resumes a stored task: the task's own parameters.
pub fn request_for_job(job: &SearchJob) -> (res: SearchRequest)
    ensures
        res.keyword@ == job.keyword@,
        res.location@ == job.location@,
        res.max_results == job.max_results,
        res.language@ == job.language@,
        res.headless == job.headless,
{
    SearchRequest {
        keyword: job.keyword.clone(),
        location: job.location.clone(),
        max_results: job.max_results,
        language: job.language.clone(),
        headless: job.headless,
    }
}

/// The task whose businesses the window shows: the one asked for, else the
/// first listed task, else none.
pub fn selected_job_id(job_id: Option<String>, jobs: &Vec<SearchJob>) -> (res: Option<String>)
    ensures
        match job_id {
            Some(id) => res == Some(id),
            None => if jobs.len() > 0 {
                res matches Some(r) && r@ == jobs@[0].id@
            } else {
                res is None
            },
        },
{
    match job_id {
        Some(id) => Some(id),
        None => {
            if jobs.len() > 0 {
                Some(jobs[0].id.clone())
            } else {
                None
            }
        },
    }
}

/// A new task may start only while no task is running.
pub fn ensure_no_active_job(active_jobs: usize) -> (res: Result<(), String>)
    ensures
        active_jobs == 0 <==> res is Ok,
        res matches Err(m) ==> m@ == "当前已有采集任务运行，请先暂停或取消该任务"@,
{
    if active_jobs == 0 {
        Ok(())
    } else {
        Err(owned("当前已有采集任务运行，请先暂停或取消该任务"))
    }
}

/// Deleting a business that is not there is an error.
pub fn business_deletion_result(deleted: bool) -> (res: Result<(), String>)
    ensures
        deleted <==> res is Ok,
        res matches Err(m) ==> m@ == "商家记录不存在或已经被删除"@,
{
    if deleted {
        Ok(())
    } else {
        Err(owned("商家记录不存在或已经被删除"))
    }
}

/// Deleting a task that is not there is an error.
pub fn search_deletion_result(deleted: bool) -> (res: Result<(), String>)
    ensures
        deleted <==> res is Ok,
        res matches Err(m) ==> m@ == "任务不存在或已经被删除"@,
{
    if deleted {
        Ok(())
    } else {
        Err(owned("任务不存在或已经被删除"))
    }
}

/// The first `max` characters of `value`, as the diagnostic log keeps them.
pub fn clip_chars(value: &str, max: usize) -> (res: String)
    ensures
        res@ == (if value@.len() <= max {
            value@
        } else {
            value@.take(max as int)
        }),
{
    let cs = chars_of(value);
    if cs.len() <= max {
        string_from_chars(&cs)
    } else {
        let t = sub_chars(&cs, 0, max);
        assert(t@ =~= value@.take(max as int));
        string_from_chars(&t)
    }
}

/// The source and message a diagnostic entry keeps: at most 80 and 20 000
/// characters.
pub fn diagnostic_entry(source: &str, message: &str) -> (res: (String, String))
    ensures
        res.0@ == (if source@.len() <= 80 {
            source@
        } else {
            source@.take(80)
        }),
        res.1@ == (if message@.len() <= 20000 {
            message@
        } else {
            message@.take(20000)
        }),
{
    (clip_chars(source, 80), clip_chars(message, 20000))
}

// ---------------------------------------------------------------------------
// Task controls
// ---------------------------------------------------------------------------

/// What the user can do to a running task.
#[derive(Debug, Clone, Copy, PartialEq, Eq)]
pub enum ControlAction {
    Pause,
    Cancel,
}

pub open spec fn action_name(a: ControlAction) -> Seq<char> {
    match a {
        ControlAction::Pause => "pause"@,
        ControlAction::Cancel => "cancel"@,
    }
}

/// The action a control word names, if any.
pub open spec fn action_of(s: Seq<char>) -> Option<ControlAction> {
    if s == "pause"@ {
        Some(ControlAction::Pause)
    } else if s == "cancel"@ {
        Some(ControlAction::Cancel)
    } else {
        None
    }
}

impl ControlAction {
    pub fn as_str(&self) -> (res: &'static str)
        ensures
            res@ == action_name(*self),
    {
        match self {
            ControlAction::Pause => "pause",
            ControlAction::Cancel => "cancel",
        }
    }

    /// The status a task takes when the action is applied.
    pub fn status(&self) -> (res: &'static str)
        ensures
            res@ == (match *self {
                ControlAction::Pause => "paused"@,
                ControlAction::Cancel => "cancelled"@,
            }),
    {
        match self {
            ControlAction::Pause => "paused",
            ControlAction::Cancel => "cancelled",
        }
    }

    /// The message a task shows when the action is applied.
    pub fn message(&self) -> (res: &'static str)
        ensures
            res@ == (match *self {
                ControlAction::Pause => "任务已暂停，可从现有结果继续"@,
                ControlAction::Cancel => "任务已取消"@,
            }),
    {
        match self {
            ControlAction::Pause => "任务已暂停，可从现有结果继续",
            ControlAction::Cancel => "任务已取消",
        }
    }

    /// Reads a control word: `pause` or `cancel`.
    pub fn try_from(value: &str) -> (res: Result<ControlAction, String>)
        ensures
            match action_of(value@) {
                Some(a) => res == Ok::<ControlAction, String>(a),
                None => res matches Err(m) && m@ == "不支持的任务操作"@,
            },
    {
        let cs = chars_of(value);
        if eq_str(&cs, "pause") {
            Ok(ControlAction::Pause)
        } else if eq_str(&cs, "cancel") {
            Ok(ControlAction::Cancel)
        } else {
            Err(owned("不支持的任务操作"))
        }
    }
}

/// Reading back the word of an action gives the action.
pub proof fn lemma_action_roundtrip(a: ControlAction)
    ensures
        action_of(action_name(a)) == Some(a),
{
    reveal_strlit("pause");
    reveal_strlit("cancel");
    assert("pause"@.len() != "cancel"@.len());
}

} // verus!
