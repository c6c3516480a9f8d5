use std::collections::hash_map::DefaultHasher;
use std::hash::{Hash, Hasher};
use pi_capture::ai::{
    generate_mock_response, is_mock, mock_response, offline_message, plan_chat, reply_text,
    should_request_analysis, tone, Tone,
};
use pi_capture::config::{Config, DEFAULT_SOUL};

const QUESTIONS: [&str; 4] = ["这个问题值得想想。", "追问本身就是答案。", "疑问中藏着光。", "你提出了一个好问题。"];

#[test]
fn mock_secretary_is_chosen_by_provider_or_key() {
    let mut c = Config::default().ai;
    assert!(!is_mock(&c));
    c.api_key = Some("mock".to_string());
    assert!(is_mock(&c));
    c.api_key = None;
    assert!(!is_mock(&c));
    c.provider = "mock".to_string();
    assert!(is_mock(&c));
}

#[test]
fn short_ideas_get_no_reply() {
    let mut c = Config::default().ai;
    assert!(!should_request_analysis(&c, "ab"));
    assert!(should_request_analysis(&c, "abc"));
    assert!(should_request_analysis(&c, "你"));
    c.enabled = false;
    assert!(!should_request_analysis(&c, "a longer idea"));
}

#[test]
fn tones() {
    assert_eq!(tone("why?"), Tone::Question);
    assert_eq!(tone("真的吗？"), Tone::Question);
    assert_eq!(tone("wow!"), Tone::Exclaim);
    assert_eq!(tone("太好了！"), Tone::Exclaim);
    assert_eq!(tone("what?!"), Tone::Question);
    assert_eq!(tone("短"), Tone::Short);
    assert_eq!(tone(&"a".repeat(60)), Tone::Long);
    assert_eq!(tone("a moderately long line"), Tone::Plain);
    assert_eq!(tone("123456789"), Tone::Short);
    assert_eq!(tone("1234567890"), Tone::Plain);
}

#[test]
fn mock_replies_follow_the_hash() {
    assert_eq!(mock_response("why?", 0), "这个问题值得想想。");
    assert_eq!(mock_response("why?", 5), "追问本身就是答案。");
    assert_eq!(mock_response("wow!", 2), "这份热情很珍贵。");
    assert_eq!(mock_response("短", 7), "留白也是表达。");
    assert_eq!(mock_response(&"a".repeat(60), 3), " detailed 的思考。");
    assert_eq!(mock_response("a moderately long line", 13), "这种感觉很难得。");
    let r = generate_mock_response("why?");
    let mut hasher = DefaultHasher::new();
    "why?".hash(&mut hasher);
    assert_eq!(r, mock_response("why?", hasher.finish()));
    assert!(QUESTIONS.contains(&r.as_str()));
    assert!(r.chars().count() <= 20);
}

#[test]
fn chat_call_for_an_idea() {
    let c = Config::default().ai;
    let call = plan_chat(&c, "idea").unwrap();
    assert_eq!(call.url, "https://api.stepfun.com/v1/chat/completions");
    assert_eq!(call.authorization, "Bearer ${STEPFUN_API_KEY}");
    assert_eq!(call.model, "step-1-8k");
    assert_eq!(call.system, DEFAULT_SOUL);
    assert_eq!(call.user, "用户刚记录的想法：idea\n\n请简短回应（20字以内），表达共鸣或感叹即可。");
    assert_eq!(call.max_tokens, 50);
    assert_eq!(call.temperature_bits, 0.7f32.to_bits());

    let mut other = c.clone();
    other.base_url = None;
    other.api_key = Some("sk-1".to_string());
    let call = plan_chat(&other, "x").unwrap();
    assert_eq!(call.url, "https://api.deepseek.com/v1/chat/completions");
    assert_eq!(call.authorization, "Bearer sk-1");

    other.api_key = None;
    assert!(plan_chat(&other, "x").is_none());
}

#[test]
fn replies_and_failures() {
    assert_eq!(reply_text(&vec![]), "💭");
    assert_eq!(reply_text(&vec!["也许的确是这样".to_string(), "x".to_string()]), "也许的确是这样");
    assert_eq!(offline_message("API key not set"), "💤 秘书暂时离线: API key not set");
}
