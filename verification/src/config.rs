//! Persistent application configuration and its normalisation.
//!
//! The JSON mapping (camelCase keys with legacy aliases) lives with the
//! program that reads and writes `Config.json`; this module holds the
//! settings themselves and the rules that make them safe to use.

use vstd::prelude::*;
use crate::text::{
    char_is_ascii_alnum, char_lower, chars_are, chars_of, is_ascii_alnum, is_ascii_upper, lower,
    lower_char, lower_chars, starts_with, starts_with_exec, string_of_all, trim, trim_bounds,
    trim_end, trim_start, trimmed,
};

verus! {

/// Channel selection strategy for CFG mode.
///
/// CFG mode rewrites a single dispatch cfg at runtime; this decides
/// whether the produced line is `say "..."` (global), `say_team "..."`
/// (team), or randomised on each death.
#[derive(Debug, Clone, Copy, PartialEq, Eq, Structural)]
pub enum CfgChatMode {
    /// Always send to global chat (`say`).
    Global,
    /// Always send to team chat (`say_team`).
    Team,
    /// Pick global or team randomly per death.
    Random,
}

impl Default for CfgChatMode {
    fn default() -> (r: Self)
        ensures
            r == CfgChatMode::Global,
    {
        CfgChatMode::Global
    }
}

/// Persistent settings for the ImLag application.
#[derive(Debug)]
pub struct AppConfig {
    /// Display names of the players whose deaths should trigger a chat
    /// reply when `only_self_death` is `true`.
    pub player_names: Vec<String>,
    /// If `true`, only fire when one of `player_names` is the dying player.
    pub only_self_death: bool,
    /// Deprecated multi-key pool, read only to migrate into `trigger_key`.
    pub bind_keys: Vec<String>,
    /// Deprecated team multi-key pool, read only to migrate into `trigger_key`.
    pub team_bind_keys: Vec<String>,
    /// Single key bound to `exec imlag_say` in CFG mode.
    pub trigger_key: String,
    /// Channel selection strategy for CFG mode dispatches.
    pub cfg_chat_mode: CfgChatMode,
    /// Counter-Strike 2 install directory; empty for auto-detection.
    pub cs2_path: String,
    /// `true`: CFG (bind-key) mode; `false`: type into the chat box.
    pub use_cfg_mode: bool,
    /// Key that opens the chat box (`"y"` global, `"u"` team).
    pub chat_key: String,
    /// Skip the foreground-window check before sending a message.
    pub skip_window_check: bool,
    /// Press the chat-open key three times instead of once.
    pub force_mode: bool,
    /// Inter-key delay in milliseconds (normalised into 30..=1000).
    pub key_delay: u32,
    /// UI language (`"zh-CN"`, `"zh-TW"` or `"en"`).
    pub language: String,
    /// Auto-start the GSI listener on launch.
    pub auto_start_gsi: bool,
    /// Deprecated; `true` migrates to `CfgChatMode::Team`.
    pub prefer_team_chat: bool,
}

/// The mathematical value of an [`AppConfig`]: strings as character
/// sequences.
#[verifier::ext_equal]
pub struct AppConfigView {
    pub player_names: Seq<Seq<char>>,
    pub only_self_death: bool,
    pub bind_keys: Seq<Seq<char>>,
    pub team_bind_keys: Seq<Seq<char>>,
    pub trigger_key: Seq<char>,
    pub cfg_chat_mode: CfgChatMode,
    pub cs2_path: Seq<char>,
    pub use_cfg_mode: bool,
    pub chat_key: Seq<char>,
    pub skip_window_check: bool,
    pub force_mode: bool,
    pub key_delay: u32,
    pub language: Seq<char>,
    pub auto_start_gsi: bool,
    pub prefer_team_chat: bool,
}

impl View for AppConfig {
    type V = AppConfigView;

    open spec fn view(&self) -> AppConfigView {
        AppConfigView {
            player_names: self.player_names.deep_view(),
            only_self_death: self.only_self_death,
            bind_keys: self.bind_keys.deep_view(),
            team_bind_keys: self.team_bind_keys.deep_view(),
            trigger_key: self.trigger_key@,
            cfg_chat_mode: self.cfg_chat_mode,
            cs2_path: self.cs2_path@,
            use_cfg_mode: self.use_cfg_mode,
            chat_key: self.chat_key@,
            skip_window_check: self.skip_window_check,
            force_mode: self.force_mode,
            key_delay: self.key_delay,
            language: self.language@,
            auto_start_gsi: self.auto_start_gsi,
            prefer_team_chat: self.prefer_team_chat,
        }
    }
}

// ---------------------------------------------------------------------
// Specification of normalisation
// ---------------------------------------------------------------------

/// Default trigger key.
pub open spec fn default_trigger_key_spec() -> Seq<char> {
    "k"@
}

/// Default chat-open key.
pub open spec fn default_chat_key_spec() -> Seq<char> {
    "y"@
}

/// Default inter-key delay in milliseconds.
pub open spec fn default_key_delay_spec() -> u32 {
    100
}

/// Default UI language.
pub open spec fn default_language_spec() -> Seq<char> {
    "zh-CN"@
}

/// The language tag that `raw` normalises to.
pub open spec fn normalize_language_spec(raw: Seq<char>) -> Seq<char> {
    let l = lower(raw);
    if l == "zh-tw"@ || l == "zh-hk"@ || l == "zh-mo"@ {
        "zh-TW"@
    } else if starts_with(l, "en"@) {
        "en"@
    } else {
        "zh-CN"@
    }
}

/// The first key of `keys` that is not blank, trimmed.
pub open spec fn first_nonblank(keys: Seq<Seq<char>>) -> Option<Seq<char>>
    decreases keys.len(),
{
    if keys.len() == 0 {
        None
    } else if trim(keys[0]).len() > 0 {
        Some(trim(keys[0]))
    } else {
        first_nonblank(keys.drop_first())
    }
}

/// The trigger key after migrating the legacy pools: kept when it is not
/// blank, otherwise the first non-blank legacy key, else the default.
pub open spec fn migrated_trigger_key(c: AppConfigView) -> Seq<char> {
    if trim(c.trigger_key).len() == 0 {
        match first_nonblank(c.bind_keys + c.team_bind_keys) {
            Some(k) => k,
            None => default_trigger_key_spec(),
        }
    } else {
        c.trigger_key
    }
}

/// A key constrained to a single lower-case ASCII alphanumeric character:
/// the first character of the trimmed, lower-cased key, or the default.
pub open spec fn single_key(k: Seq<char>) -> Seq<char> {
    let raw = lower(trim(k));
    if raw.len() > 0 && is_ascii_alnum(raw[0]) {
        seq![raw[0]]
    } else {
        default_trigger_key_spec()
    }
}

/// The chat mode after migrating `prefer_team_chat`.
pub open spec fn migrated_chat_mode(c: AppConfigView) -> CfgChatMode {
    if c.prefer_team_chat && c.cfg_chat_mode == CfgChatMode::Global {
        CfgChatMode::Team
    } else {
        c.cfg_chat_mode
    }
}

/// What `AppConfig::normalize` makes of a configuration.
pub open spec fn normalize_spec(c: AppConfigView) -> AppConfigView {
    AppConfigView {
        trigger_key: single_key(migrated_trigger_key(c)),
        cfg_chat_mode: migrated_chat_mode(c),
        chat_key: if trim(c.chat_key).len() == 0 {
            default_chat_key_spec()
        } else {
            c.chat_key
        },
        key_delay: if 30 <= c.key_delay <= 1000 {
            c.key_delay
        } else {
            default_key_delay_spec()
        },
        language: normalize_language_spec(c.language),
        ..c
    }
}

/// A configuration whose values are all in their safe ranges.
pub open spec fn is_normalized(c: AppConfigView) -> bool {
    &&& c.trigger_key.len() == 1
    &&& is_ascii_alnum(c.trigger_key[0])
    &&& !is_ascii_upper(c.trigger_key[0])
    &&& trim(c.chat_key).len() > 0
    &&& 30 <= c.key_delay <= 1000
    &&& (c.language == "zh-CN"@ || c.language == "zh-TW"@ || c.language == "en"@)
    &&& !(c.prefer_team_chat && c.cfg_chat_mode == CfgChatMode::Global)
}

// ---------------------------------------------------------------------
// Laws
// ---------------------------------------------------------------------

/// Every normalised configuration has its values in their safe ranges:
/// a single lower-case alphanumeric trigger key, a non-blank chat key, a
/// key delay in 30..=1000 and one of the three supported languages.
pub proof fn lemma_normalize_is_normalized(c: AppConfigView)
    ensures
        is_normalized(normalize_spec(c)),
{
    reveal_strlit("k");
    reveal_strlit("y");
    reveal_strlit("zh-CN");
    reveal_strlit("zh-TW");
    reveal_strlit("en");
    let raw = lower(trim(migrated_trigger_key(c)));
    if raw.len() > 0 && is_ascii_alnum(raw[0]) {
        let t = trim(migrated_trigger_key(c));
        assert(raw[0] == lower_char(t[0]));
    }
    assert(trim("y"@) == "y"@) by {
        assert(trim_start("y"@) == "y"@);
        assert(trim_end("y"@) == "y"@);
    }
}

/// A normalised configuration is left as it is by normalisation.
pub proof fn lemma_normalized_is_fixed(c: AppConfigView)
    requires
        is_normalized(c),
    ensures
        normalize_spec(c) == c,
{
    reveal_strlit("k");
    reveal_strlit("zh-CN");
    reveal_strlit("zh-TW");
    reveal_strlit("en");
    reveal_strlit("zh-tw");
    reveal_strlit("zh-hk");
    reveal_strlit("zh-mo");
    let k = c.trigger_key;
    assert(trim_start(k) == k);
    assert(trim_end(k) == k);
    assert(trim(k) == k);
    assert(migrated_trigger_key(c) == k);
    assert(lower(k) =~= k);
    assert(single_key(k) =~= k);
    if c.language == "zh-CN"@ {
        assert(lower(c.language) =~= "zh-cn"@) by {
            reveal_strlit("zh-cn");
        }
        reveal_strlit("zh-cn");
        assert(lower(c.language)[4] != "zh-tw"@[4]);
        assert(lower(c.language)[3] != "zh-hk"@[3]);
        assert(lower(c.language)[3] != "zh-mo"@[3]);
        assert(lower(c.language).take(2)[0] != "en"@[0]);
    } else if c.language == "zh-TW"@ {
        assert(lower(c.language) =~= "zh-tw"@);
    } else {
        assert(lower(c.language) =~= "en"@);
        assert(lower(c.language)[0] != "zh-tw"@[0]);
        assert(lower(c.language)[0] != "zh-hk"@[0]);
        assert(lower(c.language)[0] != "zh-mo"@[0]);
        assert(lower(c.language).take(2) =~= "en"@);
    }
}

/// Normalising twice is normalising once.
pub proof fn lemma_normalize_idempotent(c: AppConfigView)
    ensures
        normalize_spec(normalize_spec(c)) == normalize_spec(c),
{
    lemma_normalize_is_normalized(c);
    lemma_normalized_is_fixed(normalize_spec(c));
}

// ---------------------------------------------------------------------
// Exec
// ---------------------------------------------------------------------

/// `true`, the default of every boolean that defaults on.
pub fn default_true() -> (r: bool)
    ensures
        r,
{
    true
}

/// The default trigger key, `"k"`.
pub fn default_trigger_key() -> (r: String)
    ensures
        r@ == default_trigger_key_spec(),
{
    String::from_str("k")
}

/// The default chat-open key, `"y"`.
pub fn default_chat_key() -> (r: String)
    ensures
        r@ == default_chat_key_spec(),
{
    String::from_str("y")
}

/// The default inter-key delay, 100 ms.
pub fn default_key_delay() -> (r: u32)
    ensures
        r == default_key_delay_spec(),
{
    100
}

/// The default UI language, `"zh-CN"`.
pub fn default_language() -> (r: String)
    ensures
        r@ == default_language_spec(),
{
    String::from_str("zh-CN")
}

impl Default for AppConfig {
    fn default() -> (r: Self)
        ensures
            r@.player_names.len() == 0,
            r@.only_self_death,
            r@.bind_keys.len() == 0,
            r@.team_bind_keys.len() == 0,
            r@.trigger_key == default_trigger_key_spec(),
            r@.cfg_chat_mode == CfgChatMode::Global,
            r@.cs2_path.len() == 0,
            r@.use_cfg_mode,
            r@.chat_key == default_chat_key_spec(),
            !r@.skip_window_check,
            !r@.force_mode,
            r@.key_delay == default_key_delay_spec(),
            r@.language == default_language_spec(),
            r@.auto_start_gsi,
            !r@.prefer_team_chat,
    {
        AppConfig {
            player_names: Vec::new(),
            only_self_death: default_true(),
            bind_keys: Vec::new(),
            team_bind_keys: Vec::new(),
            trigger_key: default_trigger_key(),
            cfg_chat_mode: CfgChatMode::Global,
            cs2_path: String::new(),
            use_cfg_mode: default_true(),
            chat_key: default_chat_key(),
            skip_window_check: false,
            force_mode: false,
            key_delay: default_key_delay(),
            language: default_language(),
            auto_start_gsi: default_true(),
            prefer_team_chat: false,
        }
    }
}

/// The first key of `keys` that is not blank, trimmed.
fn first_nonblank_exec(keys: &Vec<String>) -> (r: Option<String>)
    ensures
        match r {
            Some(k) => first_nonblank(keys.deep_view()) == Some(k@),
            None => first_nonblank(keys.deep_view()) is None,
        },
{
    let ghost d = keys.deep_view();
    let mut i: usize = 0;
    assert(d.skip(0) == d);
    while i < keys.len()
        invariant
            i <= keys@.len(),
            d == keys.deep_view(),
            first_nonblank(d) == first_nonblank(d.skip(i as int)),
        decreases keys@.len() - i,
    {
        let t = trimmed(keys[i].as_str());
        assert(d.skip(i as int)[0] == d[i as int]);
        if t.unicode_len() > 0 {
            return Some(t);
        }
        assert(d.skip(i as int).drop_first() == d.skip(i + 1));
        i = i + 1;
    }
    None
}

/// `first_nonblank` of two pools in a row.
proof fn lemma_first_nonblank_concat(a: Seq<Seq<char>>, b: Seq<Seq<char>>)
    ensures
        first_nonblank(a + b) == match first_nonblank(a) {
            Some(k) => Some(k),
            None => first_nonblank(b),
        },
    decreases a.len(),
{
    if a.len() == 0 {
        assert(a + b == b);
    } else {
        assert((a + b)[0] == a[0]);
        assert((a + b).drop_first() == a.drop_first() + b);
        lemma_first_nonblank_concat(a.drop_first(), b);
    }
}

/// Normalise an arbitrary language tag down to `"zh-TW"`, `"en"` or
/// `"zh-CN"`.
pub fn normalize_language(raw: &str) -> (r: String)
    ensures
        r@ == normalize_language_spec(raw@),
{
    let v = chars_of(raw);
    let l = lower_chars(v.as_slice());
    if chars_are(l.as_slice(), "zh-tw") || chars_are(l.as_slice(), "zh-hk") || chars_are(
        l.as_slice(),
        "zh-mo",
    ) {
        String::from_str("zh-TW")
    } else {
        let en = chars_of("en");
        if starts_with_exec(l.as_slice(), en.as_slice()) {
            String::from_str("en")
        } else {
            String::from_str("zh-CN")
        }
    }
}

impl Clone for AppConfig {
    fn clone(&self) -> (r: Self)
        ensures
            r@ == self@,
    {
        let r = AppConfig {
            player_names: self.player_names.clone(),
            only_self_death: self.only_self_death,
            bind_keys: self.bind_keys.clone(),
            team_bind_keys: self.team_bind_keys.clone(),
            trigger_key: self.trigger_key.clone(),
            cfg_chat_mode: self.cfg_chat_mode,
            cs2_path: self.cs2_path.clone(),
            use_cfg_mode: self.use_cfg_mode,
            chat_key: self.chat_key.clone(),
            skip_window_check: self.skip_window_check,
            force_mode: self.force_mode,
            key_delay: self.key_delay,
            language: self.language.clone(),
            auto_start_gsi: self.auto_start_gsi,
            prefer_team_chat: self.prefer_team_chat,
        };
        assert(r.player_names.deep_view() =~= self.player_names.deep_view());
        assert(r.bind_keys.deep_view() =~= self.bind_keys.deep_view());
        assert(r.team_bind_keys.deep_view() =~= self.team_bind_keys.deep_view());
        r
    }
}

impl AppConfig {
    /// Coerce out-of-range / nonsense values back into safe defaults and
    /// migrate deprecated fields into their replacements.
    pub fn normalize(&mut self)
        ensures
            final(self)@ == normalize_spec(old(self)@),
            is_normalized(final(self)@),
    {
        let ghost c = self@;
        // Migrate legacy multi-key pools into `trigger_key`.
        let tk = trimmed(self.trigger_key.as_str());
        let migrated: String = if tk.unicode_len() == 0 {
            let first = first_nonblank_exec(&self.bind_keys);
            match first {
                Some(k) => {
                    proof {
                        lemma_first_nonblank_concat(c.bind_keys, c.team_bind_keys);
                    }
                    k
                },
                None => {
                    proof {
                        lemma_first_nonblank_concat(c.bind_keys, c.team_bind_keys);
                    }
                    match first_nonblank_exec(&self.team_bind_keys) {
                        Some(k) => k,
                        None => default_trigger_key(),
                    }
                },
            }
        } else {
            self.trigger_key.clone()
        };
        assert(migrated@ == migrated_trigger_key(c));
        // Migrate `prefer_team_chat = true` into `CfgChatMode::Team` once.
        if self.prefer_team_chat && self.cfg_chat_mode == CfgChatMode::Global {
            self.cfg_chat_mode = CfgChatMode::Team;
        }
        let ck = trimmed(self.chat_key.as_str());
        if ck.unicode_len() == 0 {
            self.chat_key = default_chat_key();
        }
        if !(30 <= self.key_delay && self.key_delay <= 1000) {
            self.key_delay = default_key_delay();
        }
        self.language = normalize_language(self.language.as_str());
        // Constrain trigger_key to a single ASCII alphanumeric character.
        let mv = chars_of(migrated.as_str());
        let (a, b) = trim_bounds(mv.as_slice());
        let mut key = default_trigger_key();
        if a < b {
            let ch = char_lower(mv[a]);
            assert(lower(trim(migrated@))[0] == ch);
            if char_is_ascii_alnum(ch) {
                key = String::new();
                let one = vec![ch];
                key = string_of_all(one.as_slice());
                assert(key@ =~= seq![ch]);
            }
        }
        self.trigger_key = key;
        proof {
            lemma_normalize_is_normalized(c);
            assert(self@.player_names == c.player_names);
            assert(self@.bind_keys == c.bind_keys);
            assert(self@.team_bind_keys == c.team_bind_keys);
            assert(self@ == normalize_spec(c));
        }
    }

    /// The configuration that loading yields: the parsed configuration,
    /// normalised, or the defaults when there was none or it was malformed.
    pub fn from_loaded(parsed: Option<AppConfig>) -> (r: AppConfig)
        ensures
            match parsed {
                Some(c) => r@ == normalize_spec(c@),
                None => r@ == AppConfig::default_view(),
            },
    {
        match parsed {
            Some(c0) => {
                let mut c = c0;
                c.normalize();
                c
            },
            None => {
                let d = AppConfig::default();
                assert(d@.player_names =~= Seq::empty());
                assert(d@.bind_keys =~= Seq::empty());
                assert(d@.team_bind_keys =~= Seq::empty());
                assert(d@.cs2_path =~= Seq::empty());
                d
            },
        }
    }

    /// The value of `AppConfig::default()`.
    pub open spec fn default_view() -> AppConfigView {
        AppConfigView {
            player_names: Seq::empty(),
            only_self_death: true,
            bind_keys: Seq::empty(),
            team_bind_keys: Seq::empty(),
            trigger_key: default_trigger_key_spec(),
            cfg_chat_mode: CfgChatMode::Global,
            cs2_path: Seq::empty(),
            use_cfg_mode: true,
            chat_key: default_chat_key_spec(),
            skip_window_check: false,
            force_mode: false,
            key_delay: default_key_delay_spec(),
            language: default_language_spec(),
            auto_start_gsi: true,
            prefer_team_chat: false,
        }
    }
}

} // verus!
