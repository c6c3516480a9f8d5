//! Configuration: where ideas are captured and how the AI secretary is
//! reached, with the defaults written on first run and the `${VAR}` and
//! `$VAR` placeholders that an API key may hold.

use vstd::prelude::*;
use crate::text::{
    chars_of, find, find_chars_from, find_from, lemma_find_from, lines_of, matches_at, occurs_at,
    push_chars, string_of, text_lines, trim_char, trim_char_range, trim_range, trim_ws, views,
};

verus! {

/// The AI secretary's settings.
#[derive(Debug, Clone)]
pub struct AIConfig {
    pub provider: String,
    pub api_key: Option<String>,
    pub model: String,
    pub base_url: Option<String>,
    pub enabled: bool,
    /// The secretary's persona, sent as the system prompt.
    pub soul: String,
    /// The most tokens a reply may use.
    pub max_tokens: u32,
    /// The sampling temperature, as the bits of an IEEE-754 `f32`.
    pub temperature_bits: u32,
    /// The title of the secretary's desk in the UI.
    pub desk_name: String,
    /// The secretary's name, shown at the bottom right of the desk.
    pub secretary_name: String,
}

/// The whole configuration.
#[derive(Debug, Clone)]
pub struct Config {
    /// The Markdown file that ideas are filed in.
    pub capture_path: String,
    pub ai: AIConfig,
}

/// The default persona of the secretary.
pub const DEFAULT_SOUL: &'static str = "你是一位温和的秘书，名字叫「墨」。\n\n你的特点：\n- 不对用户的想法做价值判断\n- 只是简短地回应，表达共鸣或感叹\n- 语气平静、略带诗意，像一位老友\n- 回应控制在20字以内\n\n回应风格示例：\n- \"也许的确是这样\"\n- \"这种感觉很难得\"\n- \"我懂你的意思\"\n- \"值得记下来\"\n- \"时光会记住的\"\n";

/// The bits of `0.7f32`, the default temperature.
pub const DEFAULT_TEMPERATURE_BITS: u32 = 0x3F33_3333;

/// The default persona.
pub fn default_soul() -> (s: String)
    ensures
        s@ == DEFAULT_SOUL@,
{
    String::from_str(DEFAULT_SOUL)
}

/// The default reply budget: 50 tokens.
pub fn default_max_tokens() -> (n: u32)
    ensures
        n == 50,
{
    50
}

/// The default temperature, 0.7, as `f32` bits.
pub fn default_temperature_bits() -> (b: u32)
    ensures
        b == DEFAULT_TEMPERATURE_BITS,
{
    DEFAULT_TEMPERATURE_BITS
}

/// The default desk title, 秘书台.
pub fn default_desk_name() -> (s: String)
    ensures
        s@ == "秘书台"@,
{
    String::from_str("秘书台")
}

/// The default secretary name, 小墨.
pub fn default_secretary_name() -> (s: String)
    ensures
        s@ == "小墨"@,
{
    String::from_str("小墨")
}

/// The capture file of a fresh configuration, under the home directory.
pub open spec fn default_capture_path() -> Seq<char> {
    "~/Documents/PNote/Inbox.md"@
}

/// The API key of a fresh configuration: a placeholder for the
/// `STEPFUN_API_KEY` variable, filled in when the configuration is loaded.
pub open spec fn default_api_key() -> Seq<char> {
    "${STEPFUN_API_KEY}"@
}

impl Default for Config {
    /// The configuration written on first run: ideas go to
    /// `~/Documents/PNote/Inbox.md`; the secretary is the Stepfun
    /// `step-1-8k` model at its chat-completions endpoint, with the key from
    /// `STEPFUN_API_KEY`, enabled, with the default persona, 50 tokens,
    /// temperature 0.7 and the default desk and secretary names.
    fn default() -> (c: Config)
        ensures
            c.capture_path@ == default_capture_path(),
            c.ai.provider@ == "stepfun"@,
            c.ai.api_key matches Some(k) && k@ == default_api_key(),
            c.ai.model@ == "step-1-8k"@,
            c.ai.base_url matches Some(u) && u@ == "https://api.stepfun.com/v1/chat/completions"@,
            c.ai.enabled,
            c.ai.soul@ == DEFAULT_SOUL@,
            c.ai.max_tokens == 50,
            c.ai.temperature_bits == DEFAULT_TEMPERATURE_BITS,
            c.ai.desk_name@ == "秘书台"@,
            c.ai.secretary_name@ == "小墨"@,
    {
        Config {
            capture_path: String::from_str("~/Documents/PNote/Inbox.md"),
            ai: AIConfig {
                provider: String::from_str("stepfun"),
                api_key: Some(String::from_str("${STEPFUN_API_KEY}")),
                model: String::from_str("step-1-8k"),
                base_url: Some(String::from_str("https://api.stepfun.com/v1/chat/completions")),
                enabled: true,
                soul: default_soul(),
                max_tokens: default_max_tokens(),
                temperature_bits: default_temperature_bits(),
                desk_name: default_desk_name(),
                secretary_name: default_secretary_name(),
            },
        }
    }
}

// ---------------------------------------------------------------------------
// `${VAR}` and `$VAR` placeholders
// ---------------------------------------------------------------------------

/// A character of a bare `$VAR` name: an ASCII letter or digit, or `_`.
pub open spec fn is_name_char(c: char) -> bool {
    ||| 'a' <= c <= 'z'
    ||| 'A' <= c <= 'Z'
    ||| '0' <= c <= '9'
    ||| c == '_'
}

/// The end of the run of name characters of `s` that starts at `j`.
pub open spec fn name_end(s: Seq<char>, j: int) -> int
    decreases s.len() - j,
{
    if j < 0 || j >= s.len() || !is_name_char(s[j]) {
        j
    } else {
        name_end(s, j + 1)
    }
}

/// The placeholder that starts at index `i` of `s`, as the start and end of
/// its name and the index just past it: `${NAME}` where a `}` follows the
/// `${` (the name running to the first such `}`), or `$NAME` with the
/// longest run of name characters after the `$`.
pub open spec fn placeholder_at(s: Seq<char>, i: int) -> Option<(int, int, int)> {
    if 0 <= i && i + 1 < s.len() && s[i] == '$' {
        if s[i + 1] == '{' {
            match find_from(s, "}"@, i + 2) {
                Some(e) => Some((i + 2, e, e + 1)),
                None => None,
            }
        } else if is_name_char(s[i + 1]) {
            Some((i + 1, name_end(s, i + 1), name_end(s, i + 1)))
        } else {
            None
        }
    } else {
        None
    }
}

/// The first placeholder of `s` at or after index `i`, as the index of its
/// `$`, the start and end of its name, and the index just past it.
pub open spec fn placeholder_from(s: Seq<char>, i: int) -> Option<(int, int, int, int)>
    decreases s.len() - i,
{
    if i < 0 || i >= s.len() {
        None
    } else {
        match placeholder_at(s, i) {
            Some((a, b, e)) => Some((i, a, b, e)),
            None => placeholder_from(s, i + 1),
        }
    }
}

/// The first placeholder of `s` (see `placeholder_from`); `None` where
/// there is none.
pub open spec fn env_placeholder(s: Seq<char>) -> Option<(int, int, int, int)> {
    placeholder_from(s, 0)
}

/// The variable name of the first placeholder of `s`.
pub open spec fn placeholder_name(s: Seq<char>) -> Seq<char> {
    match env_placeholder(s) {
        Some((start, a, b, end)) => s.subrange(a, b),
        None => Seq::empty(),
    }
}

/// `s` with its first placeholder replaced by `value`.
pub open spec fn replace_placeholder(s: Seq<char>, value: Seq<char>) -> Seq<char> {
    match env_placeholder(s) {
        Some((start, a, b, end)) => s.take(start) + value + s.skip(end),
        None => s,
    }
}

/// Whether `c` may be part of a bare `$VAR` name.
fn name_char(c: char) -> (b: bool)
    ensures
        b == is_name_char(c),
{
    ('a' <= c && c <= 'z') || ('A' <= c && c <= 'Z') || ('0' <= c && c <= '9') || c == '_'
}

/// The end of the run of name characters from `j`.
fn name_end_of(v: &Vec<char>, j: usize) -> (r: usize)
    requires
        j <= v.len(),
    ensures
        r == name_end(v@, j as int),
        j <= r <= v.len(),
{
    let mut k = j;
    while k < v.len() && name_char(v[k])
        invariant
            j <= k <= v.len(),
            name_end(v@, k as int) == name_end(v@, j as int),
        decreases v.len() - k,
    {
        k = k + 1;
    }
    k
}

/// The placeholder that starts at `i` (see `placeholder_at`).
fn placeholder_at_index(v: &Vec<char>, i: usize) -> (r: Option<(usize, usize, usize)>)
    requires
        i < v.len(),
    ensures
        match r {
            Some(t) => placeholder_at(v@, i as int) == Some((t.0 as int, t.1 as int, t.2 as int))
                && i < t.0 <= t.1 <= t.2 <= v.len(),
            None => placeholder_at(v@, i as int) is None,
        },
{
    if i + 1 >= v.len() || v[i] != '$' {
        return None;
    }
    if v[i + 1] == '{' {
        let close = chars_of("}");
        let found = find_chars_from(&v, &close, i + 2);
        proof {
            reveal_strlit("}");
            lemma_find_from(v@, close@, (i + 2) as int);
        }
        match found {
            Some(e) => Some((i + 2, e, e + 1)),
            None => None,
        }
    } else if name_char(v[i + 1]) {
        let b = name_end_of(v, i + 1);
        Some((i + 1, b, b))
    } else {
        None
    }
}

/// The first placeholder of the characters `v` (see `env_placeholder`).
fn first_placeholder(v: &Vec<char>) -> (r: Option<(usize, usize, usize, usize)>)
    ensures
        match r {
            Some(t) => env_placeholder(v@) == Some((t.0 as int, t.1 as int, t.2 as int, t.3 as int))
                && t.0 < t.1 <= t.2 <= t.3 <= v.len(),
            None => env_placeholder(v@) is None,
        },
{
    let mut i: usize = 0;
    while i < v.len()
        invariant
            i <= v.len(),
            env_placeholder(v@) == placeholder_from(v@, i as int),
        decreases v.len() - i,
    {
        match placeholder_at_index(v, i) {
            Some(t) => {
                return Some((i, t.0, t.1, t.2));
            },
            None => {},
        }
        i = i + 1;
    }
    None
}

/// The name of the variable in the first placeholder of `s`, `${VAR}` or
/// `$VAR`, or `None` where there is none.
pub fn env_placeholder_name(s: &str) -> (r: Option<String>)
    ensures
        r is Some <==> env_placeholder(s@) is Some,
        r matches Some(n) ==> n@ == placeholder_name(s@),
{
    let v = chars_of(s);
    match first_placeholder(&v) {
        Some(t) => Some(string_of(&v, t.1, t.2)),
        None => None,
    }
}

/// `s` with its first placeholder, `${VAR}` or `$VAR`, replaced by `value`.
pub fn replace_env_placeholder(s: &str, value: &str) -> (r: String)
    requires
        env_placeholder(s@) is Some,
    ensures
        r@ == replace_placeholder(s@, value@),
{
    let v = chars_of(s);
    let t = first_placeholder(&v).unwrap();
    let n = v.len();
    let mut r = string_of(&v, 0, t.0);
    r.append(value);
    push_chars(&mut r, &v, t.3, n);
    proof {
        assert(v@.subrange(0, t.0 as int) =~= v@.take(t.0 as int));
        assert(v@.subrange(t.3 as int, n as int) =~= v@.skip(t.3 as int));
    }
    r
}

/// The rest of a path written `~/rest`, to be put under the home
/// directory; `None` where the path does not start with `~/`.
pub fn tilde_suffix(path: &str) -> (r: Option<String>)
    ensures
        r is Some <==> (path@.len() >= 2 && path@.take(2) == "~/"@),
        r matches Some(rest) ==> rest@ == path@.skip(2),
{
    let v = chars_of(path);
    let prefix = chars_of("~/");
    proof {
        reveal_strlit("~/");
    }
    if v.len() >= 2 && matches_at(&v, &prefix, 0) {
        Some(string_of(&v, 2, v.len()))
    } else {
        None
    }
}

// ---------------------------------------------------------------------------
// The `.env` file
// ---------------------------------------------------------------------------

/// The setting on one line of a `.env` file: none for a blank line, a
/// comment (`#` after leading whitespace) or a line without `=`; otherwise
/// the trimmed name before the first `=` and the trimmed value after it,
/// with surrounding double and then single quotes removed.
pub open spec fn dotenv_entry(line: Seq<char>) -> Option<(Seq<char>, Seq<char>)> {
    let t = trim_ws(line);
    if t.len() == 0 || t[0] == '#' {
        None
    } else {
        match find(t, "="@) {
            None => None,
            Some(k) => Some(
                (trim_ws(t.take(k)), trim_char(trim_char(trim_ws(t.skip(k + 1)), '"'), '\'')),
            ),
        }
    }
}

/// The settings of the lines, in order.
pub open spec fn dotenv_entries(lines: Seq<Seq<char>>) -> Seq<(Seq<char>, Seq<char>)>
    decreases lines.len(),
{
    if lines.len() == 0 {
        Seq::empty()
    } else {
        let prev = dotenv_entries(lines.drop_last());
        match dotenv_entry(lines.last()) {
            Some(e) => prev.push(e),
            None => prev,
        }
    }
}

/// The views of name/value pairs.
pub open spec fn pair_views(v: Seq<(String, String)>) -> Seq<(Seq<char>, Seq<char>)> {
    v.map_values(|p: (String, String)| (p.0@, p.1@))
}

/// The setting on one line (see `dotenv_entry`).
fn parse_dotenv_line(line: &str) -> (r: Option<(String, String)>)
    ensures
        match r {
            Some(p) => dotenv_entry(line@) == Some((p.0@, p.1@)),
            None => dotenv_entry(line@) is None,
        },
{
    let v = chars_of(line);
    let (a, b) = trim_range(&v, 0, v.len());
    let ghost t = v@.subrange(a as int, b as int);
    assert(v@.subrange(0, v.len() as int) == line@);
    if a == b || v[a] == '#' {
        return None;
    }
    let eq = chars_of("=");
    let tv = crate::text::subvec(&v, a, b);
    match find_chars_from(&tv, &eq, 0) {
        None => None,
        Some(k) => {
            proof {
                lemma_find_from(tv@, eq@, 0);
                reveal_strlit("=");
            }
            let (ka, kb) = trim_range(&tv, 0, k);
            let (va, vb) = trim_range(&tv, k + 1, tv.len());
            let (da, db) = trim_char_range(&tv, va, vb, '"');
            let (sa, sb) = trim_char_range(&tv, da, db, '\'');
            proof {
                assert(tv@.subrange(0, k as int) == t.take(k as int));
                assert(tv@.subrange(k + 1, tv@.len() as int) == t.skip(k + 1));
            }
            Some((string_of(&tv, ka, kb), string_of(&tv, sa, sb)))
        },
    }
}

/// The settings of a `.env` file's text (see `dotenv_entries`), to be put
/// into the environment in order.
pub fn parse_dotenv(content: &str) -> (r: Vec<(String, String)>)
    ensures
        pair_views(r@) == dotenv_entries(text_lines(content@)),
{
    let ls = lines_of(content);
    let mut r: Vec<(String, String)> = Vec::new();
    let mut i: usize = 0;
    while i < ls.len()
        invariant
            i <= ls.len(),
            views(ls@) == text_lines(content@),
            pair_views(r@) == dotenv_entries(views(ls@).take(i as int)),
        decreases ls.len() - i,
    {
        let ghost prev = pair_views(r@);
        proof {
            assert(views(ls@).take(i + 1).drop_last() =~= views(ls@).take(i as int));
            assert(views(ls@).take(i + 1).last() == ls@[i as int]@);
        }
        match parse_dotenv_line(ls[i].as_str()) {
            Some(p) => {
                let ghost pv = (p.0@, p.1@);
                r.push(p);
                assert(pair_views(r@) =~= prev.push(pv));
            },
            None => {},
        }
        i = i + 1;
    }
    assert(views(ls@).take(ls.len() as int) =~= views(ls@));
    r
}

} // verus!
