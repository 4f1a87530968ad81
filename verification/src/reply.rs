//! Reading a model's answer: the JSON object it contains and the
//! classification record built from it.
use vstd::prelude::*;

use crate::category::{Category, RecordStatus, category_of_name, normalize_category};
use crate::fence::{fence_stripped, strip_code_fence};
use crate::json::{
    json_bool_member, json_get_bool, json_get_str, json_get_str_array, json_is_valid, json_parses,
    json_str_array_member, json_str_member, opt_view, opt_views,
};
use crate::retry::{ApiError, ErrorKind, kind_of, message_of};
use crate::text::{chars_of, string_of_range, trim, trim_str};

verus! {

/// The classification of one delegate. (The model's confidence, a float, is
/// kept beside it by the caller.)
#[derive(Debug)]
pub struct LlmResult {
    pub name: String,
    pub province: String,
    pub primary_category: Category,
    pub is_political_business_combo: bool,
    pub combo_brief: String,
    pub reason: String,
    pub sources: Vec<String>,
    pub status: RecordStatus,
}

/// A record built from a model answer, with the JSON text it was read from.
#[derive(Debug)]
pub struct ParsedReply {
    pub result: LlmResult,
    pub json_text: String,
}

/// The first position of `c` in `s`.
#[verifier::opaque]
pub open spec fn first_index(s: Seq<char>, c: char) -> Option<int> {
    if exists|i: int| 0 <= i < s.len() && s[i] == c {
        Some(choose|i: int| 0 <= i < s.len() && s[i] == c && forall|j: int| 0 <= j < i ==> s[j] != c)
    } else {
        None
    }
}

/// The last position of `c` in `s`.
#[verifier::opaque]
pub open spec fn last_index(s: Seq<char>, c: char) -> Option<int> {
    if exists|i: int| 0 <= i < s.len() && s[i] == c {
        Some(
            choose|i: int|
                0 <= i < s.len() && s[i] == c && forall|j: int| i < j < s.len() ==> s[j] != c,
        )
    } else {
        None
    }
}

/// When the cleaned answer is not JSON itself and other text stands between
/// its last `}` and its later first `{`: the span from the first `{` to the
/// last `}` runs backwards and cannot be taken. (When the two braces touch,
/// the span is empty.)
pub open spec fn span_reversed(t: Seq<char>) -> bool {
    &&& !json_parses(t)
    &&& first_index(t, '{') is Some
    &&& last_index(t, '}') is Some
    &&& last_index(t, '}')->0 + 1 < first_index(t, '{')->0
}

/// The JSON text read from a cleaned answer: the whole answer when it parses,
/// else the span from its first `{` to its last `}` (empty when the `}`
/// directly precedes the `{`) when that parses.
pub open spec fn json_text_of(t: Seq<char>) -> Option<Seq<char>> {
    if json_parses(t) {
        Some(t)
    } else {
        match (first_index(t, '{'), last_index(t, '}')) {
            (Some(a), Some(b)) => {
                let sub = t.subrange(a, b + 1);
                if a <= b + 1 && json_parses(sub) {
                    Some(sub)
                } else {
                    None
                }
            },
            _ => None,
        }
    }
}

/// The strings among the items, in order.
pub open spec fn keep_strings(items: Seq<Option<Seq<char>>>) -> Seq<Seq<char>>
    decreases items.len(),
{
    if items.len() == 0 {
        Seq::empty()
    } else {
        let rest = keep_strings(items.drop_last());
        match items.last() {
            Some(s) => rest.push(s),
            None => rest,
        }
    }
}

pub open spec fn or_default(o: Option<Seq<char>>, d: Seq<char>) -> Seq<char> {
    match o {
        Some(s) => s,
        None => d,
    }
}

pub open spec fn string_views(v: Seq<String>) -> Seq<Seq<char>> {
    v.map_values(|s: String| s@)
}

/// The record read from the JSON text `j`: each missing or mistyped member
/// falls back to the delegate's own name and province, to `未知` for the
/// category, to `false` and to empty texts and lists.
pub open spec fn record_matches(r: LlmResult, j: Seq<char>, name: Seq<char>, province: Seq<char>) -> bool {
    &&& r.name@ == or_default(json_str_member(j, "name"@), name)
    &&& r.province@ == or_default(json_str_member(j, "province"@), province)
    &&& r.primary_category == category_of_name(
        trim(or_default(json_str_member(j, "primary_category"@), "未知"@)),
    )
    &&& r.is_political_business_combo == match json_bool_member(j, "is_political_business_combo"@) {
        Some(b) => b,
        None => false,
    }
    &&& r.combo_brief@ == or_default(json_str_member(j, "combo_brief"@), Seq::empty())
    &&& r.reason@ == or_default(json_str_member(j, "reason"@), Seq::empty())
    &&& string_views(r.sources@) == match json_str_array_member(j, "sources"@) {
        Some(items) => keep_strings(items),
        None => Seq::empty(),
    }
    &&& r.status == RecordStatus::Success
}

pub open spec fn invalid_reply_message() -> Seq<char> {
    "解析模型输出失败: 模型输出不是合法 JSON"@
}

fn first_index_exec(v: &[char], c: char) -> (r: Option<usize>)
    ensures
        match r {
            Some(i) => first_index(v@, c) == Some(i as int),
            None => first_index(v@, c) is None,
        },
{
    let mut i: usize = 0;
    while i < v.len()
        invariant
            i <= v@.len(),
            forall|j: int| 0 <= j < i ==> v@[j] != c,
        decreases v@.len() - i,
    {
        if v[i] == c {
            proof {
                lemma_first_index(v@, c, i as int);
            }
            return Some(i);
        }
        i = i + 1;
    }
    proof {
        lemma_index_none(v@, c);
    }
    None
}

fn last_index_exec(v: &[char], c: char) -> (r: Option<usize>)
    ensures
        match r {
            Some(i) => last_index(v@, c) == Some(i as int),
            None => last_index(v@, c) is None,
        },
{
    let mut i: usize = v.len();
    while i > 0
        invariant
            i <= v@.len(),
            forall|j: int| i <= j < v@.len() ==> v@[j] != c,
        decreases i,
    {
        if v[i - 1] == c {
            proof {
                lemma_last_index(v@, c, i - 1);
            }
            return Some(i - 1);
        }
        i = i - 1;
    }
    proof {
        lemma_index_none(v@, c);
    }
    None
}

/// The first position is a position of `c`, and no earlier one is.
pub proof fn lemma_first_index(s: Seq<char>, c: char, i: int)
    requires
        0 <= i < s.len(),
        s[i] == c,
        forall|j: int| 0 <= j < i ==> s[j] != c,
    ensures
        first_index(s, c) == Some(i),
{
    reveal(first_index);
    let k = choose|k: int| 0 <= k < s.len() && s[k] == c && forall|j: int| 0 <= j < k ==> s[j] != c;
    assert(0 <= k < s.len() && s[k] == c && forall|j: int| 0 <= j < k ==> s[j] != c);
    if k < i {
    } else if k > i {
        assert(s[i] != c);
    }
}

/// The last position is a position of `c`, and no later one is.
pub proof fn lemma_last_index(s: Seq<char>, c: char, i: int)
    requires
        0 <= i < s.len(),
        s[i] == c,
        forall|j: int| i < j < s.len() ==> s[j] != c,
    ensures
        last_index(s, c) == Some(i),
{
    reveal(last_index);
    let k = choose|k: int|
        0 <= k < s.len() && s[k] == c && forall|j: int| k < j < s.len() ==> s[j] != c;
    assert(0 <= k < s.len() && s[k] == c && forall|j: int| k < j < s.len() ==> s[j] != c);
    if k > i {
    } else if k < i {
        assert(s[i] != c);
    }
}

pub proof fn lemma_index_none(s: Seq<char>, c: char)
    requires
        forall|j: int| 0 <= j < s.len() ==> s[j] != c,
    ensures
        first_index(s, c) is None,
        last_index(s, c) is None,
{
    reveal(first_index);
    reveal(last_index);
}

/// A position found is inside the text.
pub proof fn lemma_index_bounds(s: Seq<char>, c: char)
    ensures
        first_index(s, c) matches Some(i) ==> 0 <= i < s.len() && s[i] == c,
        last_index(s, c) matches Some(i) ==> 0 <= i < s.len() && s[i] == c,
{
    reveal(first_index);
    reveal(last_index);
    if exists|i: int| 0 <= i < s.len() && s[i] == c {
        let i0 = choose|i: int| 0 <= i < s.len() && s[i] == c;
        lemma_first_exists(s, c, i0);
        lemma_last_exists(s, c, i0);
    }
}

proof fn lemma_first_exists(s: Seq<char>, c: char, i0: int)
    requires
        0 <= i0 < s.len(),
        s[i0] == c,
    ensures
        exists|i: int| 0 <= i < s.len() && s[i] == c && forall|j: int| 0 <= j < i ==> s[j] != c,
    decreases i0,
{
    if exists|j: int| 0 <= j < i0 && s[j] == c {
        let j = choose|j: int| 0 <= j < i0 && s[j] == c;
        lemma_first_exists(s, c, j);
    }
}

proof fn lemma_last_exists(s: Seq<char>, c: char, i0: int)
    requires
        0 <= i0 < s.len(),
        s[i0] == c,
    ensures
        exists|i: int| 0 <= i < s.len() && s[i] == c && forall|j: int| i < j < s.len() ==> s[j] != c,
    decreases s.len() - i0,
{
    if exists|j: int| i0 < j < s.len() && s[j] == c {
        let j = choose|j: int| i0 < j < s.len() && s[j] == c;
        lemma_last_exists(s, c, j);
    }
}

/// The strings among the items.
fn strings_only(items: Vec<Option<String>>) -> (r: Vec<String>)
    ensures
        string_views(r@) == keep_strings(opt_views(items@)),
{
    let mut out: Vec<String> = Vec::new();
    let mut i: usize = 0;
    assert(opt_views(items@).take(0) =~= Seq::<Option<Seq<char>>>::empty());
    while i < items.len()
        invariant
            i <= items@.len(),
            string_views(out@) == keep_strings(opt_views(items@).take(i as int)),
        decreases items@.len() - i,
    {
        let ghost taken = opt_views(items@).take(i + 1);
        assert(taken.drop_last() =~= opt_views(items@).take(i as int));
        match &items[i] {
            Some(s) => {
                let ghost before = out@;
                out.push(s.clone());
                assert(string_views(out@) =~= string_views(before).push(s@));
            },
            None => {},
        }
        i = i + 1;
    }
    assert(opt_views(items@).take(items@.len() as int) =~= opt_views(items@));
    out
}

/// Where the JSON object of an answer that is not JSON as a whole lies.
#[derive(Debug)]
pub enum BraceSpan {
    /// The answer has no `{` or no `}`.
    Missing,
    /// Other text stands between the last `}` and the later first `{`.
    Reversed,
    /// The text from the first `{` to the last `}` (empty when the `}`
    /// directly precedes the `{`).
    Span(String),
}

/// The span of `t` from its first `{` to its last `}`.
pub open spec fn brace_span_of(t: Seq<char>) -> Option<Option<Seq<char>>> {
    match (first_index(t, '{'), last_index(t, '}')) {
        (Some(a), Some(b)) => if b + 1 < a {
            Some(None)
        } else {
            Some(Some(t.subrange(a, b + 1)))
        },
        _ => None,
    }
}

/// Finds the span from the first `{` to the last `}` (see `brace_span_of`:
/// `None` is `Missing`, `Some(None)` is `Reversed`).
pub fn brace_span(t: &str) -> (r: BraceSpan)
    ensures
        match brace_span_of(t@) {
            None => r is Missing,
            Some(None) => r is Reversed,
            Some(Some(sub)) => r matches BraceSpan::Span(s) && s@ == sub,
        },
{
    let v = chars_of(t);
    let a = first_index_exec(v.as_slice(), '{');
    let b = last_index_exec(v.as_slice(), '}');
    match (a, b) {
        (Some(a), Some(b)) => {
            if b < a && a - b > 1 {
                return BraceSpan::Reversed;
            }
            proof {
                lemma_index_bounds(v@, '}');
            }
            assert(b < v.len());
            BraceSpan::Span(string_of_range(v.as_slice(), a, b + 1))
        },
        _ => BraceSpan::Missing,
    }
}

/// The JSON text of a cleaned answer (see `json_text_of`).
fn json_text_exec(t: &str) -> (r: Option<String>)
    requires
        !span_reversed(t@),
    ensures
        match r {
            Some(j) => json_text_of(t@) == Some(j@),
            None => json_text_of(t@) is None,
        },
{
    if json_is_valid(t) {
        return Some(copy_str(t));
    }
    match brace_span(t) {
        BraceSpan::Span(sub) => {
            if json_is_valid(sub.as_str()) {
                Some(sub)
            } else {
                None
            }
        },
        _ => None,
    }
}

/// A copy of the text.
fn copy_str(t: &str) -> (r: String)
    ensures
        r@ == t@,
{
    let v = chars_of(t);
    let r = string_of_range(v.as_slice(), 0, v.len());
    assert(v@.subrange(0, v@.len() as int) =~= v@);
    r
}

/// The members of an answer's JSON object that a record is built from, each
/// `None` when missing or of another type (`sources` lists each item as its
/// string value or `None`).
#[derive(Debug)]
pub struct ReplyMembers {
    pub name: Option<String>,
    pub province: Option<String>,
    pub primary_category: Option<String>,
    pub is_political_business_combo: Option<bool>,
    pub combo_brief: Option<String>,
    pub reason: Option<String>,
    pub sources: Option<Vec<Option<String>>>,
}

pub open spec fn sources_view(s: Option<Vec<Option<String>>>) -> Option<Seq<Option<Seq<char>>>> {
    match s {
        Some(v) => Some(opt_views(v@)),
        None => None,
    }
}

/// The members as read from the JSON text `j`.
pub open spec fn members_of(m: ReplyMembers, j: Seq<char>) -> bool {
    &&& opt_view(m.name) == json_str_member(j, "name"@)
    &&& opt_view(m.province) == json_str_member(j, "province"@)
    &&& opt_view(m.primary_category) == json_str_member(j, "primary_category"@)
    &&& m.is_political_business_combo == json_bool_member(j, "is_political_business_combo"@)
    &&& opt_view(m.combo_brief) == json_str_member(j, "combo_brief"@)
    &&& opt_view(m.reason) == json_str_member(j, "reason"@)
    &&& sources_view(m.sources) == json_str_array_member(j, "sources"@)
}

/// The record built from the members: each missing member falls back to the
/// delegate's own name and province, to `未知` for the category, to `false`
/// and to empty texts and lists; the status is `Success`.
pub open spec fn record_from(r: LlmResult, m: ReplyMembers, name: Seq<char>, province: Seq<char>) -> bool {
    &&& r.name@ == or_default(opt_view(m.name), name)
    &&& r.province@ == or_default(opt_view(m.province), province)
    &&& r.primary_category == category_of_name(trim(or_default(opt_view(m.primary_category), "未知"@)))
    &&& r.is_political_business_combo == match m.is_political_business_combo {
        Some(b) => b,
        None => false,
    }
    &&& r.combo_brief@ == or_default(opt_view(m.combo_brief), Seq::empty())
    &&& r.reason@ == or_default(opt_view(m.reason), Seq::empty())
    &&& string_views(r.sources@) == match sources_view(m.sources) {
        Some(items) => keep_strings(items),
        None => Seq::empty(),
    }
    &&& r.status == RecordStatus::Success
}

/// Reads the members from the JSON text.
fn read_members(j: &str) -> (m: ReplyMembers)
    ensures
        members_of(m, j@),
{
    ReplyMembers {
        name: json_get_str(j, "name"),
        province: json_get_str(j, "province"),
        primary_category: json_get_str(j, "primary_category"),
        is_political_business_combo: json_get_bool(j, "is_political_business_combo"),
        combo_brief: json_get_str(j, "combo_brief"),
        reason: json_get_str(j, "reason"),
        sources: json_get_str_array(j, "sources"),
    }
}

fn text_or(o: Option<String>, d: &str) -> (r: String)
    ensures
        r@ == or_default(opt_view(o), d@),
{
    match o {
        Some(s) => s,
        None => String::from_str(d),
    }
}

/// Builds the record of a delegate from the members of the model's answer
/// (see `record_from`).
pub fn record_from_members(m: ReplyMembers, fallback_name: &str, fallback_province: &str) -> (r:
    LlmResult)
    ensures
        record_from(r, m, fallback_name@, fallback_province@),
        m.is_political_business_combo matches Some(b) ==> r.is_political_business_combo == b,
        m.is_political_business_combo is None ==> !r.is_political_business_combo,
{
    let ghost m0 = m;
    let primary_category = match &m.primary_category {
        Some(s) => normalize_category(s.as_str()),
        None => normalize_category("未知"),
    };
    let is_political_business_combo = match m.is_political_business_combo {
        Some(b) => b,
        None => false,
    };
    let sources = match m.sources {
        Some(items) => strings_only(items),
        None => Vec::new(),
    };
    proof {
        assert(string_views(Seq::<String>::empty()) =~= Seq::<Seq<char>>::empty());
        reveal_strlit("");
    }
    let r = LlmResult {
        name: text_or(m.name, fallback_name),
        province: text_or(m.province, fallback_province),
        primary_category,
        is_political_business_combo,
        combo_brief: text_or(m.combo_brief, ""),
        reason: text_or(m.reason, ""),
        sources,
        status: RecordStatus::Success,
    };
    proof {
        assert(r.name@ == or_default(opt_view(m0.name), fallback_name@));
        assert(r.province@ == or_default(opt_view(m0.province), fallback_province@));
        assert(r.combo_brief@ == or_default(opt_view(m0.combo_brief), Seq::empty()));
        assert(r.reason@ == or_default(opt_view(m0.reason), Seq::empty()));
        assert(string_views(r.sources@) == match sources_view(m0.sources) {
            Some(items) => keep_strings(items),
            None => Seq::empty(),
        });
    }
    r
}

/// Builds the classification record from a model answer. The answer may be
/// wrapped in a code fence (see `fence_stripped`); the JSON text is the whole
/// cleaned answer, or the span from its first `{` to its last `}` (see
/// `json_text_of`). When there is no such JSON text the call fails with a
/// non-retryable error. Members that are missing fall back as `record_matches`
/// says. Answers whose span would run backwards are left out (see `span_reversed`).
pub fn parse_model_reply(content: &str, fallback_name: &str, fallback_province: &str) -> (r: Result<
    ParsedReply,
    ApiError,
>)
    requires
        !span_reversed(fence_stripped(content@)),
    ensures
        match json_text_of(fence_stripped(content@)) {
            Some(j) => r matches Ok(p) && p.json_text@ == j && record_matches(
                p.result,
                j,
                fallback_name@,
                fallback_province@,
            ),
            None => r matches Err(e) && kind_of(e) == ErrorKind::NonRetryable && message_of(e)
                == invalid_reply_message(),
        },
        r matches Ok(p) ==> (p.result.is_political_business_combo <==> json_bool_member(
            p.json_text@,
            "is_political_business_combo"@,
        ) == Some(true)),
{
    let cleaned = strip_code_fence(content);
    let text = match json_text_exec(cleaned.as_str()) {
        Some(j) => j,
        None => {
            return Err(ApiError::NonRetryable(String::from_str("解析模型输出失败: 模型输出不是合法 JSON")));
        },
    };
    let members = read_members(text.as_str());
    let result = record_from_members(members, fallback_name, fallback_province);
    Ok(ParsedReply { result, json_text: text })
}

/// The political–business flag of a record is the boolean the model gave for
/// `is_political_business_combo`: `true` flags the delegate, `false` or a
/// missing or non-boolean member does not.
pub proof fn law_combo_flag_follows_answer(r: LlmResult, j: Seq<char>, name: Seq<char>, province: Seq<char>)
    requires
        record_matches(r, j, name, province),
    ensures
        json_bool_member(j, "is_political_business_combo"@) == Some(true) ==> r.is_political_business_combo,
        json_bool_member(j, "is_political_business_combo"@) == Some(false) ==> !r.is_political_business_combo,
        json_bool_member(j, "is_political_business_combo"@) is None ==> !r.is_political_business_combo,
        r.is_political_business_combo ==> json_bool_member(j, "is_political_business_combo"@) == Some(true),
{
}

/// The same for a record built from members.
pub proof fn law_combo_flag_follows_members(r: LlmResult, m: ReplyMembers, name: Seq<char>, province: Seq<char>)
    requires
        record_from(r, m, name, province),
    ensures
        r.is_political_business_combo <==> m.is_political_business_combo == Some(true),
{
}

/// `parse_model_reply` where the answer allows it: `None` exactly for the
/// answers it leaves out (whose `{`…`}` span would run backwards).
pub fn try_parse_model_reply(content: &str, fallback_name: &str, fallback_province: &str) -> (r:
    Option<Result<ParsedReply, ApiError>>)
    ensures
        r is None <==> span_reversed(fence_stripped(content@)),
        r matches Some(res) ==> match json_text_of(fence_stripped(content@)) {
            Some(j) => res matches Ok(p) && p.json_text@ == j && record_matches(
                p.result,
                j,
                fallback_name@,
                fallback_province@,
            ),
            None => res matches Err(e) && kind_of(e) == ErrorKind::NonRetryable && message_of(e)
                == invalid_reply_message(),
        },
{
    let cleaned = strip_code_fence(content);
    if !json_is_valid(cleaned.as_str()) {
        if let BraceSpan::Reversed = brace_span(cleaned.as_str()) {
            return None;
        }
    }
    Some(parse_model_reply(content, fallback_name, fallback_province))
}

/// The text of the model's answer in a chat completion (its first choice's
/// message content), trimmed; a response without one is a non-retryable error.
pub fn reply_content(content: Option<&str>) -> (r: Result<String, ApiError>)
    ensures
        match content {
            Some(c) => r matches Ok(s) && s@ == trim(c@),
            None => r matches Err(e) && kind_of(e) == ErrorKind::NonRetryable && message_of(e)
                == "未找到模型输出内容"@,
        },
{
    match content {
        Some(c) => Ok(trim_str(c)),
        None => Err(ApiError::NonRetryable(String::from_str("未找到模型输出内容"))),
    }
}

} // verus!
