//! The AI secretary's decisions: when an idea is worth a reply, and the
//! offline ("mock") replies, chosen from templates by the idea's tone.

use vstd::prelude::*;
use std::collections::hash_map::DefaultHasher;
use std::hash::{Hash, Hasher};
use crate::config::AIConfig;
use crate::text::{byte_len, chars_of, same_text};

verus! {

/// What std's default hasher gives for a text: a `DefaultHasher` made with
/// `DefaultHasher::new`, fed the text by `<str as Hash>::hash`, then
/// `finish`ed. std documents that every hasher made with `new` is the same,
/// so the result depends on the text alone (for a given build of std).
pub uninterp spec fn default_hash(text: Seq<char>) -> u64;

/// Makes a `DefaultHasher` with `DefaultHasher::new`, hashes the text into
/// it with `<str as Hash>::hash` and returns `finish`. The contract claims
/// that the result is the default hash of the text, a function of the text
/// alone.
#[verifier::external_body]
fn default_hash_of(text: &str) -> (h: u64)
    ensures
        h == default_hash(text@),
{
    let mut hasher = DefaultHasher::new();
    text.hash(&mut hasher);
    hasher.finish()
}

/// The offline secretary is chosen by the provider `mock`, or by the API
/// key `mock` (as `STEPFUN_API_KEY=mock` gives it).
pub open spec fn is_mock_provider(config: AIConfig) -> bool {
    ||| config.provider@ == "mock"@
    ||| config.api_key matches Some(k) && k@ == "mock"@
}

/// Whether the offline secretary answers.
pub fn is_mock(config: &AIConfig) -> (b: bool)
    ensures
        b == is_mock_provider(*config),
{
    if same_text(config.provider.as_str(), "mock") {
        return true;
    }
    match &config.api_key {
        Some(k) => same_text(k.as_str(), "mock"),
        None => false,
    }
}

/// An idea gets a reply when the secretary is enabled and the idea is at
/// least three bytes long.
pub open spec fn wants_reply(config: AIConfig, text: Seq<char>) -> bool {
    config.enabled && vstd::utf8::encode_utf8(text).len() >= 3
}

/// Whether to ask the secretary about `text`.
pub fn should_request_analysis(config: &AIConfig, text: &str) -> (b: bool)
    ensures
        b == wants_reply(*config, text@),
{
    if !config.enabled {
        return false;
    }
    byte_len(text) >= 3
}

/// The tone of an idea, which picks the template family.
#[derive(Debug, Clone, Copy, PartialEq, Eq, Structural)]
pub enum Tone {
    Question,
    Exclaim,
    Short,
    Long,
    Plain,
}

/// A question mark (ASCII or full width) makes a question; otherwise an
/// exclamation mark an exclamation; otherwise fewer than 10 bytes is short
/// and more than 50 long.
pub open spec fn tone_of(text: Seq<char>) -> Tone {
    let len = vstd::utf8::encode_utf8(text).len();
    if text.contains('?') || text.contains('？') {
        Tone::Question
    } else if text.contains('!') || text.contains('！') {
        Tone::Exclaim
    } else if len < 10 {
        Tone::Short
    } else if len > 50 {
        Tone::Long
    } else {
        Tone::Plain
    }
}

/// The replies of each tone.
pub open spec fn templates(t: Tone) -> Seq<Seq<char>> {
    match t {
        Tone::Question => seq![
            "这个问题值得想想。"@,
            "追问本身就是答案。"@,
            "疑问中藏着光。"@,
            "你提出了一个好问题。"@,
        ],
        Tone::Exclaim => seq![
            "能感受到这份心情。"@,
            "强烈的感受值得记录。"@,
            "这份热情很珍贵。"@,
            "情绪流动起来了。"@,
        ],
        Tone::Short => seq!["简短却有力量。"@, "言简意赅。"@, "有时候一字千金。"@, "留白也是表达。"@],
        Tone::Long => seq![
            "思绪很长，慢慢说。"@,
            "长文载着深想。"@,
            "娓娓道来，很好。"@,
            " detailed 的思考。"@,
        ],
        Tone::Plain => seq![
            "也许的确是这样。"@,
            "这种感觉很难得。"@,
            "我懂你的意思。"@,
            "值得记下来。"@,
            "时光会记住的。"@,
            "这样的想法很特别。"@,
            "有时候就是这样。"@,
            "嗯，是这样。"@,
            "记下这个想法真好。"@,
            "我也有过类似的感受。"@,
            "平淡中见真意。"@,
            "这一刻的想法很真实。"@,
        ],
    }
}

/// The offline reply to `text` for a given hash of it: the template of the
/// text's tone at the hash (as a `usize`) modulo the number of templates.
pub open spec fn mock_reply(text: Seq<char>, hash: u64) -> Seq<char> {
    let ts = templates(tone_of(text));
    ts[((hash as usize) as int) % (ts.len() as int)]
}

/// Whether `text` holds `c`.
fn has_char(text: &str, c: char) -> (b: bool)
    ensures
        b == text@.contains(c),
{
    let v = chars_of(text);
    let mut i: usize = 0;
    while i < v.len()
        invariant
            v@ == text@,
            i <= v.len(),
            forall|j: int| 0 <= j < i ==> v@[j] != c,
        decreases v.len() - i,
    {
        if v[i] == c {
            assert(text@[i as int] == c);
            return true;
        }
        i = i + 1;
    }
    false
}

/// The tone of `text`.
pub fn tone(text: &str) -> (t: Tone)
    ensures
        t == tone_of(text@),
{
    let len = byte_len(text);
    if has_char(text, '?') || has_char(text, '？') {
        Tone::Question
    } else if has_char(text, '!') || has_char(text, '！') {
        Tone::Exclaim
    } else if len < 10 {
        Tone::Short
    } else if len > 50 {
        Tone::Long
    } else {
        Tone::Plain
    }
}

/// The templates of a tone.
fn templates_of(t: Tone) -> (v: Vec<&'static str>)
    ensures
        v@.map_values(|s: &str| s@) == templates(t),
{
    let v = match t {
        Tone::Question => vec!["这个问题值得想想。", "追问本身就是答案。", "疑问中藏着光。", "你提出了一个好问题。"],
        Tone::Exclaim => vec!["能感受到这份心情。", "强烈的感受值得记录。", "这份热情很珍贵。", "情绪流动起来了。"],
        Tone::Short => vec!["简短却有力量。", "言简意赅。", "有时候一字千金。", "留白也是表达。"],
        Tone::Long => vec!["思绪很长，慢慢说。", "长文载着深想。", "娓娓道来，很好。", " detailed 的思考。"],
        Tone::Plain => vec![
            "也许的确是这样。",
            "这种感觉很难得。",
            "我懂你的意思。",
            "值得记下来。",
            "时光会记住的。",
            "这样的想法很特别。",
            "有时候就是这样。",
            "嗯，是这样。",
            "记下这个想法真好。",
            "我也有过类似的感受。",
            "平淡中见真意。",
            "这一刻的想法很真实。",
        ],
    };
    assert(v@.map_values(|s: &str| s@) =~= templates(t));
    v
}

/// The offline reply to `text` for the hash `hash` (see `mock_reply`).
pub fn mock_response(text: &str, hash: u64) -> (r: String)
    ensures
        r@ == mock_reply(text@, hash),
{
    let ts = templates_of(tone(text));
    assert(ts@.map_values(|s: &str| s@).len() >= 4);
    let i = (#[verifier::truncate] (hash as usize)) % ts.len();
    assert(ts@.map_values(|s: &str| s@)[i as int] == ts@[i as int]@);
    String::from_str(ts[i])
}

/// The offline reply to `text`: the template of its tone picked by std's
/// default hash of the text.
pub fn generate_mock_response(text: &str) -> (r: String)
    ensures
        r@ == mock_reply(text@, default_hash(text@)),
{
    let h = default_hash_of(text);
    mock_response(text, h)
}

/// Every offline reply is a short exclamation of at most 20 characters.
pub proof fn law_mock_reply_short(text: Seq<char>, hash: u64)
    ensures
        mock_reply(text, hash).len() <= 20,
{
    reveal_strlit("这个问题值得想想。");
    reveal_strlit("追问本身就是答案。");
    reveal_strlit("疑问中藏着光。");
    reveal_strlit("你提出了一个好问题。");
    reveal_strlit("能感受到这份心情。");
    reveal_strlit("强烈的感受值得记录。");
    reveal_strlit("这份热情很珍贵。");
    reveal_strlit("情绪流动起来了。");
    reveal_strlit("简短却有力量。");
    reveal_strlit("言简意赅。");
    reveal_strlit("有时候一字千金。");
    reveal_strlit("留白也是表达。");
    reveal_strlit("思绪很长，慢慢说。");
    reveal_strlit("长文载着深想。");
    reveal_strlit("娓娓道来，很好。");
    reveal_strlit(" detailed 的思考。");
    reveal_strlit("也许的确是这样。");
    reveal_strlit("这种感觉很难得。");
    reveal_strlit("我懂你的意思。");
    reveal_strlit("值得记下来。");
    reveal_strlit("时光会记住的。");
    reveal_strlit("这样的想法很特别。");
    reveal_strlit("有时候就是这样。");
    reveal_strlit("嗯，是这样。");
    reveal_strlit("记下这个想法真好。");
    reveal_strlit("我也有过类似的感受。");
    reveal_strlit("平淡中见真意。");
    reveal_strlit("这一刻的想法很真实。");
    let ts = templates(tone_of(text));
    let i = ((hash as usize) as int) % (ts.len() as int);
    assert(0 <= i < ts.len());
    assert(forall|k: int| 0 <= k < ts.len() ==> (#[trigger] ts[k]).len() <= 20);
}

// ---------------------------------------------------------------------------
// Calling an OpenAI-compatible chat API
// ---------------------------------------------------------------------------

/// What a chat-completions call sends: where, with which key, the model and
/// its limits, and the system and user messages.
#[derive(Debug, Clone)]
pub struct ChatCall {
    pub url: String,
    /// The `Authorization` header's value: `Bearer ` and the key.
    pub authorization: String,
    pub model: String,
    pub system: String,
    pub user: String,
    pub max_tokens: u32,
    pub temperature_bits: u32,
}

/// The endpoint used when the configuration names none.
pub open spec fn fallback_url() -> Seq<char> {
    "https://api.deepseek.com/v1/chat/completions"@
}

/// The user message: the idea and the request for a short echo.
pub open spec fn user_prompt(text: Seq<char>) -> Seq<char> {
    "用户刚记录的想法："@ + text + "\n\n请简短回应（20字以内），表达共鸣或感叹即可。"@
}

/// The call for an idea: `None` without an API key; otherwise the
/// configured endpoint (or the fallback), the key as a bearer token, the
/// model, the persona as the system message and the prompt as the user one.
pub fn plan_chat(config: &AIConfig, text: &str) -> (r: Option<ChatCall>)
    ensures
        r is None <==> config.api_key is None,
        r matches Some(c) ==> {
            &&& c.url@ == match config.base_url {
                Some(u) => u@,
                None => fallback_url(),
            }
            &&& c.authorization@ == "Bearer "@ + config.api_key->0@
            &&& c.model@ == config.model@
            &&& c.system@ == config.soul@
            &&& c.user@ == user_prompt(text@)
            &&& c.max_tokens == config.max_tokens
            &&& c.temperature_bits == config.temperature_bits
        },
{
    let key = match &config.api_key {
        Some(k) => k,
        None => {
            return None;
        },
    };
    let url = match &config.base_url {
        Some(u) => u.clone(),
        None => String::from_str("https://api.deepseek.com/v1/chat/completions"),
    };
    let mut authorization = String::from_str("Bearer ");
    authorization.append(key.as_str());
    let mut user = String::from_str("用户刚记录的想法：");
    user.append(text);
    user.append("\n\n请简短回应（20字以内），表达共鸣或感叹即可。");
    Some(
        ChatCall {
            url,
            authorization,
            model: config.model.clone(),
            system: config.soul.clone(),
            user,
            max_tokens: config.max_tokens,
            temperature_bits: config.temperature_bits,
        },
    )
}

/// The secretary's reply: the first choice's message, or 💭 when the API
/// returned no choice.
pub fn reply_text(choices: &Vec<String>) -> (r: String)
    ensures
        r@ == if choices@.len() > 0 { choices@[0]@ } else { "💭"@ },
{
    if choices.len() > 0 {
        choices[0].clone()
    } else {
        String::from_str("💭")
    }
}

/// The error of a chat call that the API answered with a failure status:
/// `API error: ` and the body of the answer.
pub fn api_error_text(body: &str) -> (r: String)
    ensures
        r@ == "API error: "@ + body@,
{
    let mut r = String::from_str("API error: ");
    r.append(body);
    r
}

/// What the desk shows when the secretary could not be reached.
pub fn offline_message(error: &str) -> (r: String)
    ensures
        r@ == "💤 秘书暂时离线: "@ + error@,
{
    let mut r = String::from_str("💤 秘书暂时离线: ");
    r.append(error);
    r
}

} // verus!
