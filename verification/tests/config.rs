use pi_capture::config::{
    default_desk_name, default_max_tokens, default_secretary_name, default_soul, default_temperature_bits,
    env_placeholder_name, parse_dotenv, replace_env_placeholder, tilde_suffix, Config, DEFAULT_SOUL,
};

fn pairs(v: &[(&str, &str)]) -> Vec<(String, String)> {
    v.iter().map(|(a, b)| (a.to_string(), b.to_string())).collect()
}

#[test]
fn default_configuration() {
    let c = Config::default();
    assert_eq!(c.capture_path, "~/Documents/PNote/Inbox.md");
    assert_eq!(c.ai.provider, "stepfun");
    assert_eq!(c.ai.api_key.as_deref(), Some("${STEPFUN_API_KEY}"));
    assert_eq!(c.ai.model, "step-1-8k");
    assert_eq!(c.ai.base_url.as_deref(), Some("https://api.stepfun.com/v1/chat/completions"));
    assert!(c.ai.enabled);
    assert_eq!(c.ai.soul, DEFAULT_SOUL);
    assert_eq!(c.ai.max_tokens, 50);
    assert_eq!(f32::from_bits(c.ai.temperature_bits), 0.7f32);
    assert_eq!(c.ai.desk_name, "秘书台");
    assert_eq!(c.ai.secretary_name, "小墨");
}

#[test]
fn field_defaults() {
    assert_eq!(default_soul(), DEFAULT_SOUL);
    assert!(default_soul().starts_with("你是一位温和的秘书，名字叫「墨」。\n"));
    assert!(default_soul().ends_with("- \"时光会记住的\"\n"));
    assert_eq!(default_max_tokens(), 50);
    assert_eq!(default_temperature_bits(), 0.7f32.to_bits());
    assert_eq!(default_desk_name(), "秘书台");
    assert_eq!(default_secretary_name(), "小墨");
}

#[test]
fn placeholder_names() {
    assert_eq!(env_placeholder_name("${STEPFUN_API_KEY}").as_deref(), Some("STEPFUN_API_KEY"));
    assert_eq!(env_placeholder_name("x${A}y${B}").as_deref(), Some("A"));
    assert_eq!(env_placeholder_name("}${A}").as_deref(), Some("A"));
    assert_eq!(env_placeholder_name("${}").as_deref(), Some(""));
    assert_eq!(env_placeholder_name("sk-plain"), None);
    assert_eq!(env_placeholder_name("${OPEN"), None);
    assert_eq!(env_placeholder_name("$A").as_deref(), Some("A"));
    assert_eq!(env_placeholder_name("$MY_KEY").as_deref(), Some("MY_KEY"));
    assert_eq!(env_placeholder_name("key-$MY_KEY!").as_deref(), Some("MY_KEY"));
    assert_eq!(env_placeholder_name("${OPEN $B2").as_deref(), Some("B2"));
    assert_eq!(env_placeholder_name("a$"), None);
    assert_eq!(env_placeholder_name("$-x"), None);
}

#[test]
fn placeholders_are_replaced_one_at_a_time() {
    assert_eq!(replace_env_placeholder("${STEPFUN_API_KEY}", "sk-123"), "sk-123");
    assert_eq!(replace_env_placeholder("x${A}y${B}z", "1"), "x1y${B}z");
    assert_eq!(replace_env_placeholder("x${A}y", ""), "xy");
    assert_eq!(replace_env_placeholder("密${钥}码", "值"), "密值码");
    assert_eq!(replace_env_placeholder("$MY_KEY", "abc"), "abc");
    assert_eq!(replace_env_placeholder("x$A-y", "1"), "x1-y");
    assert_eq!(replace_env_placeholder("$A${B}", "1"), "1${B}");
}

#[test]
fn tilde_paths() {
    assert_eq!(tilde_suffix("~/Documents/PNote/Inbox.md").as_deref(), Some("Documents/PNote/Inbox.md"));
    assert_eq!(tilde_suffix("~/").as_deref(), Some(""));
    assert_eq!(tilde_suffix("/tmp/Inbox.md"), None);
    assert_eq!(tilde_suffix("~"), None);
    assert_eq!(tilde_suffix("~user/x"), None);
}

#[test]
fn dotenv_settings() {
    let text = "# comment\nSTEPFUN_API_KEY=mock\n\n  KEY = \"quoted value\" \nSINGLE='v'\nnoequals\nA=b=c\r\n   # indented comment\nMIX=\"'x'\"\nEMPTY=\n";
    assert_eq!(
        parse_dotenv(text),
        pairs(&[
            ("STEPFUN_API_KEY", "mock"),
            ("KEY", "quoted value"),
            ("SINGLE", "v"),
            ("A", "b=c"),
            ("MIX", "x"),
            ("EMPTY", ""),
        ])
    );
    assert_eq!(parse_dotenv(""), pairs(&[]));
}
