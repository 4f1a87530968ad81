//! The six identity categories of a delegate, their Chinese names, and the
//! status of a classification record.
use vstd::prelude::*;

use crate::text::{is_ws, trim, trim_str, str_eq};

verus! {

/// The primary identity of a delegate. Exactly one is chosen per delegate.
#[derive(Clone, Copy, Debug, PartialEq, Eq, Structural)]
pub enum Category {
    PartyGovernmentCadre,
    Entrepreneur,
    GrassrootsWorkerFarmer,
    MilitaryArmedPolice,
    OtherRepresentative,
    Unknown,
}

/// The Chinese name of each category, as it appears in the outputs.
pub open spec fn cn_name(c: Category) -> Seq<char> {
    match c {
        Category::PartyGovernmentCadre => "党政干部"@,
        Category::Entrepreneur => "企业家"@,
        Category::GrassrootsWorkerFarmer => "工农基层代表"@,
        Category::MilitaryArmedPolice => "解放军和武警系统代表"@,
        Category::OtherRepresentative => "其他各行业各领域代表"@,
        Category::Unknown => "未知"@,
    }
}

/// All categories, in the order in which the tool lists and charts them.
pub open spec fn all_categories() -> Seq<Category> {
    seq![
        Category::PartyGovernmentCadre,
        Category::Entrepreneur,
        Category::GrassrootsWorkerFarmer,
        Category::MilitaryArmedPolice,
        Category::OtherRepresentative,
        Category::Unknown,
    ]
}

/// The category a (trimmed) name stands for; any other text means `Unknown`.
pub open spec fn category_of_name(t: Seq<char>) -> Category {
    if t == cn_name(Category::PartyGovernmentCadre) {
        Category::PartyGovernmentCadre
    } else if t == cn_name(Category::Entrepreneur) {
        Category::Entrepreneur
    } else if t == cn_name(Category::GrassrootsWorkerFarmer) {
        Category::GrassrootsWorkerFarmer
    } else if t == cn_name(Category::MilitaryArmedPolice) {
        Category::MilitaryArmedPolice
    } else if t == cn_name(Category::OtherRepresentative) {
        Category::OtherRepresentative
    } else {
        Category::Unknown
    }
}

impl Category {
    /// The Chinese name of the category.
    pub fn as_cn(&self) -> (r: &'static str)
        ensures
            r@ == cn_name(*self),
    {
        match self {
            Category::PartyGovernmentCadre => "党政干部",
            Category::Entrepreneur => "企业家",
            Category::GrassrootsWorkerFarmer => "工农基层代表",
            Category::MilitaryArmedPolice => "解放军和武警系统代表",
            Category::OtherRepresentative => "其他各行业各领域代表",
            Category::Unknown => "未知",
        }
    }

    /// The Chinese names of all categories, in listing order.
    pub fn all_cn() -> (r: Vec<&'static str>)
        ensures
            r@.len() == all_categories().len(),
            forall|i: int| 0 <= i < r@.len() ==> (#[trigger] r@[i])@ == cn_name(all_categories()[i]),
    {
        let mut v: Vec<&'static str> = Vec::new();
        v.push("党政干部");
        v.push("企业家");
        v.push("工农基层代表");
        v.push("解放军和武警系统代表");
        v.push("其他各行业各领域代表");
        v.push("未知");
        v
    }
}

/// Maps a category name given by the model to a category: surrounding whitespace
/// is ignored, and any text that is not one of the five named categories is `Unknown`.
pub fn normalize_category(s: &str) -> (r: Category)
    ensures
        r == category_of_name(trim(s@)),
{
    let t = trim_str(s);
    let t = t.as_str();
    if str_eq(t, "党政干部") {
        Category::PartyGovernmentCadre
    } else if str_eq(t, "企业家") {
        Category::Entrepreneur
    } else if str_eq(t, "工农基层代表") {
        Category::GrassrootsWorkerFarmer
    } else if str_eq(t, "解放军和武警系统代表") {
        Category::MilitaryArmedPolice
    } else if str_eq(t, "其他各行业各领域代表") {
        Category::OtherRepresentative
    } else {
        Category::Unknown
    }
}

/// How a classification record came about.
#[derive(Clone, Copy, Debug, PartialEq, Eq, Structural)]
pub enum RecordStatus {
    Success,
    InsufficientInfo,
    LlmError,
}

/// The name of a status as written to the outputs.
pub open spec fn status_name(s: RecordStatus) -> Seq<char> {
    match s {
        RecordStatus::Success => "success"@,
        RecordStatus::InsufficientInfo => "insufficient_info"@,
        RecordStatus::LlmError => "llm_error"@,
    }
}

impl RecordStatus {
    /// The name of the status as written to the outputs.
    pub fn as_str(&self) -> (r: &'static str)
        ensures
            r@ == status_name(*self),
    {
        match self {
            RecordStatus::Success => "success",
            RecordStatus::InsufficientInfo => "insufficient_info",
            RecordStatus::LlmError => "llm_error",
        }
    }
}

/// A classification counts as "not enough information" when the model chose
/// `Unknown`, was not confident (confidence absent or at most 0.35, which the
/// caller decides as `low_confidence`) and saw no political–business overlap.
pub open spec fn insufficient_info(c: Category, combo: bool, low_confidence: bool) -> bool {
    c == Category::Unknown && low_confidence && !combo
}

pub fn is_insufficient_info(category: Category, combo: bool, low_confidence: bool) -> (r: bool)
    ensures
        r == insufficient_info(category, combo, low_confidence),
        r ==> category == Category::Unknown && low_confidence && !combo,
        category == Category::Unknown && low_confidence && !combo ==> r,
{
    category == Category::Unknown && low_confidence && !combo
}

/// The status a successful model call ends with.
pub open spec fn status_after_call(c: Category, combo: bool, low_confidence: bool) -> RecordStatus {
    if insufficient_info(c, combo, low_confidence) {
        RecordStatus::InsufficientInfo
    } else {
        RecordStatus::Success
    }
}

pub fn call_status(category: Category, combo: bool, low_confidence: bool) -> (r: RecordStatus)
    ensures
        r == status_after_call(category, combo, low_confidence),
        r == RecordStatus::Success || r == RecordStatus::InsufficientInfo,
        category != Category::Unknown ==> r == RecordStatus::Success,
        (r == RecordStatus::InsufficientInfo) == (category == Category::Unknown && low_confidence
            && !combo),
{
    if is_insufficient_info(category, combo, low_confidence) {
        RecordStatus::InsufficientInfo
    } else {
        RecordStatus::Success
    }
}

/// Only a record the model could not place (`Unknown`), given with low
/// confidence and no political–business overlap, lacks information; a record
/// in any of the five named categories always ends as a success, whatever the
/// confidence, and a call never ends as an error.
pub proof fn law_named_categories_succeed(c: Category, combo: bool, low_confidence: bool)
    ensures
        c != Category::Unknown ==> status_after_call(c, combo, low_confidence) == RecordStatus::Success,
        !low_confidence ==> status_after_call(c, combo, low_confidence) == RecordStatus::Success,
        combo ==> status_after_call(c, combo, low_confidence) == RecordStatus::Success,
        c == Category::Unknown && low_confidence && !combo ==> status_after_call(c, combo, low_confidence)
            == RecordStatus::InsufficientInfo,
        status_after_call(c, combo, low_confidence) != RecordStatus::LlmError,
{
}

/// The category names are pairwise distinct and contain no whitespace.
pub proof fn lemma_names_distinct_and_clean()
    ensures
        forall|c1: Category, c2: Category|
            c1 != c2 ==> #[trigger] cn_name(c1) != #[trigger] cn_name(c2),
        forall|c: Category| #![trigger cn_name(c)] forall|k: int|
            0 <= k < cn_name(c).len() ==> !is_ws(#[trigger] cn_name(c)[k]),
{
    reveal_strlit("党政干部");
    reveal_strlit("企业家");
    reveal_strlit("工农基层代表");
    reveal_strlit("解放军和武警系统代表");
    reveal_strlit("其他各行业各领域代表");
    reveal_strlit("未知");
    assert forall|c1: Category, c2: Category|
        c1 != c2 implies #[trigger] cn_name(c1) != #[trigger] cn_name(c2) by {
        assert(cn_name(c1)[0] != cn_name(c2)[0]);
    }
}

/// Reading back the Chinese name of a category gives the category again,
/// even with whitespace around the name.
pub proof fn law_name_round_trip(c: Category, before: Seq<char>, after: Seq<char>)
    requires
        forall|k: int| 0 <= k < before.len() ==> is_ws(#[trigger] before[k]),
        forall|k: int| 0 <= k < after.len() ==> is_ws(#[trigger] after[k]),
    ensures
        category_of_name(trim(cn_name(c))) == c,
        category_of_name(trim(before + cn_name(c) + after)) == c,
{
    lemma_names_distinct_and_clean();
    let n = cn_name(c);
    assert(n.len() > 0) by {
        reveal_strlit("党政干部");
        reveal_strlit("企业家");
        reveal_strlit("工农基层代表");
        reveal_strlit("解放军和武警系统代表");
        reveal_strlit("其他各行业各领域代表");
        reveal_strlit("未知");
    }
    lemma_trim_padded(before, n, after);
    assert(before.len() == 0 && after.len() == 0 ==> before + n + after =~= n);
    lemma_trim_padded(Seq::empty(), n, Seq::empty());
    assert(Seq::<char>::empty() + n + Seq::<char>::empty() =~= n);
}

/// Trimming whitespace padding off a text that has none at its ends gives the text back.
pub proof fn lemma_trim_padded(before: Seq<char>, n: Seq<char>, after: Seq<char>)
    requires
        n.len() > 0,
        !is_ws(n[0]),
        !is_ws(n.last()),
        forall|k: int| 0 <= k < before.len() ==> is_ws(#[trigger] before[k]),
        forall|k: int| 0 <= k < after.len() ==> is_ws(#[trigger] after[k]),
    ensures
        trim(before + n + after) == n,
{
    let s = before + n + after;
    crate::text::lemma_trim_start_skip(s, before.len() as int);
    let st = s.skip(before.len() as int);
    assert(st =~= n + after);
    assert(crate::text::trim_start(st) == st);
    crate::text::lemma_trim_end_take(st, n.len() as int);
    assert(st.take(n.len() as int) =~= n);
}

} // verus!
