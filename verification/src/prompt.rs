//! What is sent to the model: the instructions, the question about one
//! delegate and the address of the chat completion service.
use vstd::prelude::*;

use crate::text::{append_str, trim_end_char, trim_end_matches_char};

verus! {

/// The instructions given to the model before every question.
pub open spec fn system_prompt_text() -> Seq<char> {
    SYSTEM_PROMPT@
}

/// The model's instructions: search public sources first, choose exactly one
/// of the six categories, flag political–business overlap, and answer with
/// one JSON object of a fixed shape.
pub const SYSTEM_PROMPT: &'static str = r#"你是一个严谨的信息分类助手。
任务：
请对“人大代表”进行身份识别。你必须优先联网搜索公开资料（官方简历、政府网站、新闻报道、权威媒体等），再给出结论。

分类规则（primary_category 只能从以下六类中选一个）：
1. 党政干部
2. 企业家
3. 工农基层代表
4. 解放军和武警系统代表
5. 其他各行业各领域代表
6. 未知

判定要求：
- 若此人同时具有党政/人大/政协/政府系统身份和明显企业经营者/企业控制人/董事长/总裁等商界身份，请：
  - 仍然只选择一个“主要身份”写入 primary_category
  - 但必须将 is_political_business_combo 设为 true
  - 并在 combo_brief 中简要说明其“政商合一”情况
- 若资料不足，选择“未知”
- 尽量基于最近、明确、可核验的信息
- reason 中用简洁中文写出判断依据
- sources 给出你参考的网站标题或链接摘要，最多 5 条

输出要求：
只输出一个 JSON 对象，不要输出 markdown，不要输出代码块，不要输出多余解释。
JSON 格式必须严格如下：

{
  "name": "{name}",
  "province": "{province}",
  "primary_category": "党政干部|企业家|工农基层代表|解放军和武警系统代表|其他各行业各领域代表|未知",
  "is_political_business_combo": true,
  "combo_brief": "若非政商合一可写空字符串",
  "reason": "简要说明",
  "confidence": 0.0,
  "sources": ["来源1", "来源2"]
}

注意：
- confidence 取值 0 到 1
- 如果无法确认，请降低 confidence
- 必须保证 JSON 合法"#;

/// The instructions as an owned text.
pub fn system_prompt() -> (r: String)
    ensures
        r@ == system_prompt_text(),
{
    String::from_str(SYSTEM_PROMPT)
}

/// The question about one delegate.
pub open spec fn prompt_text(name: Seq<char>, province: Seq<char>) -> Seq<char> {
    "输入信息：\n- 人名："@ + name + "\n- 省份/代表团："@ + province + "\n"@
}

/// The question about one delegate: the name and the province or delegation.
pub fn build_prompt(name: &str, province: &str) -> (r: String)
    ensures
        r@ == prompt_text(name@, province@),
{
    let mut s = String::new();
    append_str(&mut s, "输入信息：\n- 人名：");
    append_str(&mut s, name);
    append_str(&mut s, "\n- 省份/代表团：");
    append_str(&mut s, province);
    append_str(&mut s, "\n");
    assert(s@ =~= prompt_text(name@, province@));
    s
}

/// The service used when the configuration names none.
pub open spec fn default_base_url() -> Seq<char> {
    "https://api.deepseek.com"@
}

/// The chat completion endpoint under a base address: trailing slashes of the
/// base are dropped before `/chat/completions` is appended.
pub open spec fn completions_url(base: Option<Seq<char>>) -> Seq<char> {
    let b = match base {
        Some(b) => b,
        None => default_base_url(),
    };
    trim_end_char(b, '/') + "/chat/completions"@
}

pub fn chat_completions_url(base_url: Option<&str>) -> (r: String)
    ensures
        r@ == completions_url(match base_url {
            Some(b) => Some(b@),
            None => None,
        }),
{
    let base = match base_url {
        Some(b) => b,
        None => "https://api.deepseek.com",
    };
    let mut s = trim_end_matches_char(base, '/');
    append_str(&mut s, "/chat/completions");
    s
}

} // verus!
