//! The engine's decisions: which game events get a chat reply, how the
//! reply is routed, and what the user is told about it.
//!
//! The program around this library owns the GSI listener, the shared
//! state and the UI channel; on each event it asks this module what to
//! do, does it, and reports the outcome through it.

use vstd::prelude::*;
use crate::cfg_manager::select_in_team_chat;
use crate::chat::{ChatMessageManager, ImportResult};
use crate::config::{AppConfig, CfgChatMode};
use crate::events::{UiEvent, UiKind, UiLevel};
use crate::i18n::{
    args_view, current_language_spec, substitute, t, t_args, template_spec, Locale,
};
use crate::text::{chars_of, decimal, decimal_string, lower, lower_chars, same_chars, trim, trim_bounds};

verus! {

/// Default port the GSI listener binds to.
pub const DEFAULT_PORT: u16 = 57534;

/// How many ports immediately above [`DEFAULT_PORT`] are tried before the
/// OS is asked to assign one.
pub const PORT_FALLBACK_COUNT: u16 = 5;

/// Internal name used for the auto-generated GSI cfg file.
pub const GSI_SERVICE_NAME: &'static str = "ImLag";

/// The ports tried after [`DEFAULT_PORT`]: the next five, then 0 (any
/// free port the OS picks).
pub fn fallback_ports() -> (r: Vec<u16>)
    ensures
        r@ == seq![57535u16, 57536u16, 57537u16, 57538u16, 57539u16, 0u16],
{
    let mut r: Vec<u16> = Vec::new();
    let mut offset: u16 = 1;
    while offset <= PORT_FALLBACK_COUNT
        invariant
            1 <= offset <= PORT_FALLBACK_COUNT + 1,
            r@.len() == offset - 1,
            forall|i: int| 0 <= i < r@.len() ==> #[trigger] r@[i] == DEFAULT_PORT + 1 + i,
        decreases PORT_FALLBACK_COUNT + 1 - offset,
    {
        r.push(DEFAULT_PORT + offset);
        offset = offset + 1;
    }
    r.push(0);
    assert(r@ =~= seq![57535u16, 57536u16, 57537u16, 57538u16, 57539u16, 0u16]);
    r
}

/// What set a reply off.
#[derive(Debug, Clone, Copy, PartialEq, Eq, Structural)]
pub enum DispatchTrigger {
    /// A watched player died.
    Death,
    /// A player got a kill.
    Kill,
}

impl DispatchTrigger {
    /// Message key of the human-readable label of this trigger.
    pub fn label_key(self) -> (r: &'static str)
        ensures
            r@ == match self {
                DispatchTrigger::Death => "trigger.death"@,
                DispatchTrigger::Kill => "trigger.kill"@,
            },
    {
        match self {
            DispatchTrigger::Death => "trigger.death",
            DispatchTrigger::Kill => "trigger.kill",
        }
    }
}

/// A game event reported by the GSI listener.
#[derive(Debug, Clone, PartialEq, Eq)]
pub enum GameEvent {
    /// The GSI-visible player died; the player's name.
    PlayerDied(String),
    /// The GSI-visible player got a kill; the player's name.
    PlayerGotKill(String),
}

/// `name` compared as a watched name: trimmed and ASCII lower-cased.
pub open spec fn name_key(name: Seq<char>) -> Seq<char> {
    lower(trim(name))
}

/// Whether `name` is one of the watched names.
pub open spec fn is_watched(names: Seq<Seq<char>>, name: Seq<char>) -> bool {
    exists|i: int| 0 <= i < names.len() && #[trigger] name_key(names[i]) == name_key(name)
}

/// The reply a game event calls for.
pub open spec fn reply_for(c: crate::config::AppConfigView, e: GameEvent) -> Option<DispatchTrigger> {
    match e {
        GameEvent::PlayerDied(name) => if !c.only_self_death || is_watched(
            c.player_names,
            name@,
        ) {
            Some(DispatchTrigger::Death)
        } else {
            None
        },
        GameEvent::PlayerGotKill(_) => if c.only_self_death {
            None
        } else {
            Some(DispatchTrigger::Kill)
        },
    }
}

/// What the engine does on a game event: an optional status event for
/// the UI, and the reply to send, if any.
pub struct Reaction {
    /// Status to show.
    pub status: Option<UiEvent>,
    /// Reply to dispatch.
    pub reply: Option<DispatchTrigger>,
}

/// `name` compared as a watched name.
fn name_key_exec(name: &str) -> (r: Vec<char>)
    ensures
        r@ == name_key(name@),
{
    let v = chars_of(name);
    let (a, b) = trim_bounds(v.as_slice());
    assert(v@.subrange(a as int, b as int) == trim(name@));
    lower_chars(&v.as_slice()[a..b])
}

/// Whether `name` is one of the watched names.
pub fn watched(names: &Vec<String>, name: &str) -> (r: bool)
    ensures
        r == is_watched(names.deep_view(), name@),
{
    let key = name_key_exec(name);
    let ghost d = names.deep_view();
    let mut i: usize = 0;
    while i < names.len()
        invariant
            i <= names@.len(),
            d == names.deep_view(),
            key@ == name_key(name@),
            forall|k: int| 0 <= k < i ==> #[trigger] name_key(d[k]) != name_key(name@),
        decreases names@.len() - i,
    {
        let w = name_key_exec(names[i].as_str());
        assert(d[i as int] == names@[i as int]@);
        if same_chars(w.as_slice(), key.as_slice()) {
            return true;
        }
        i = i + 1;
    }
    false
}

/// A name is watched exactly when, trimmed and ASCII lower-cased, it
/// equals one of the watched names trimmed and lower-cased the same way.
pub proof fn lemma_watched_iff_same_key(names: Seq<Seq<char>>, name: Seq<char>)
    ensures
        is_watched(names, name) <==> exists|i: int|
            0 <= i < names.len() && lower(trim(#[trigger] names[i])) == lower(trim(name)),
{
    if is_watched(names, name) {
        let i = choose|i: int| 0 <= i < names.len() && #[trigger] name_key(names[i]) == name_key(name);
        assert(lower(trim(names[i])) == lower(trim(name)));
    }
    if exists|i: int| 0 <= i < names.len() && lower(trim(#[trigger] names[i])) == lower(trim(name)) {
        let i = choose|i: int| 0 <= i < names.len() && lower(trim(#[trigger] names[i])) == lower(trim(name));
        assert(name_key(names[i]) == name_key(name));
    }
}

/// With only watched deaths answered, a death gets a reply exactly when
/// the dead player's name, trimmed and ASCII lower-cased, equals a
/// watched name treated the same way; a kill then gets none.
pub proof fn lemma_death_reply_only_for_watched(c: crate::config::AppConfigView, name: String)
    requires
        c.only_self_death,
    ensures
        reply_for(c, GameEvent::PlayerDied(name)) is Some <==> exists|i: int|
            0 <= i < c.player_names.len() && lower(trim(#[trigger] c.player_names[i])) == lower(
                trim(name@),
            ),
        reply_for(c, GameEvent::PlayerDied(name)) is Some ==> reply_for(
            c,
            GameEvent::PlayerDied(name),
        ) == Some(DispatchTrigger::Death),
        reply_for(c, GameEvent::PlayerGotKill(name)) is None,
{
    lemma_watched_iff_same_key(c.player_names, name@);
}

/// React to a game event. A death is always shown, and answered unless
/// only watched deaths count and the player is not watched. A kill is
/// shown and answered only when not restricted to watched deaths.
pub fn on_game_event(cfg: &AppConfig, locale: &Locale, event: &GameEvent) -> (r: Reaction)
    ensures
        r.reply == reply_for(cfg@, *event),
        match *event {
            GameEvent::PlayerDied(name) => (r.status matches Some(s) && s.level == UiLevel::Info
                && s.kind == UiKind::PlayerDeath && s.message@ == substitute(
                template_spec(current_language_spec(*locale), "status.player_dead"@),
                seq![name@],
            )),
            GameEvent::PlayerGotKill(name) => if cfg@.only_self_death {
                r.status is None
            } else {
                (r.status matches Some(s) && s.level == UiLevel::Info && s.kind
                    == UiKind::PlayerDeath && s.message@ == substitute(
                    template_spec(current_language_spec(*locale), "status.player_kill"@),
                    seq![name@],
                ))
            },
        },
{
    match event {
        GameEvent::PlayerDied(name) => {
            let args = [name.as_str()];
            assert(args_view(args@) =~= seq![name@]);
            let msg = t_args(locale, "status.player_dead", &args);
            let status = UiEvent::info(UiKind::PlayerDeath, msg);
            let reply = if !cfg.only_self_death || watched(&cfg.player_names, name.as_str()) {
                Some(DispatchTrigger::Death)
            } else {
                None
            };
            Reaction { status: Some(status), reply }
        },
        GameEvent::PlayerGotKill(name) => {
            if cfg.only_self_death {
                return Reaction { status: None, reply: None };
            }
            let args = [name.as_str()];
            assert(args_view(args@) =~= seq![name@]);
            let msg = t_args(locale, "status.player_kill", &args);
            Reaction { status: Some(UiEvent::info(UiKind::PlayerDeath, msg)), reply: Some(DispatchTrigger::Kill) }
        },
    }
}

/// How a reply goes out.
#[derive(Debug, PartialEq, Eq)]
pub enum ReplyRoute {
    /// There is nothing to send.
    CorpusEmpty,
    /// Through the dispatch cfg, to team chat or global chat.
    Cfg { message: String, in_team_chat: bool },
    /// By typing into the chat box.
    Chat { message: String },
}

/// Pick a corpus line and the delivery path: the cfg slot in CFG mode,
/// else typing into the chat box. The line is chosen at random, and so is
/// the channel in `Random` chat mode.
pub fn route_reply(cfg: &AppConfig, corpus: &ChatMessageManager) -> (r: ReplyRoute)
    ensures
        r is CorpusEmpty <==> corpus@.len() == 0,
        r is Cfg ==> cfg@.use_cfg_mode,
        r is Chat ==> !cfg@.use_cfg_mode,
        corpus@.len() > 0 && cfg@.use_cfg_mode ==> r is Cfg,
        corpus@.len() > 0 && !cfg@.use_cfg_mode ==> r is Chat,
        r matches ReplyRoute::Cfg { message, in_team_chat } ==> corpus@.contains(message@) && (
        cfg@.cfg_chat_mode == CfgChatMode::Global ==> !in_team_chat) && (cfg@.cfg_chat_mode
            == CfgChatMode::Team ==> in_team_chat),
        r matches ReplyRoute::Chat { message } ==> corpus@.contains(message@),
{
    match corpus.random() {
        None => ReplyRoute::CorpusEmpty,
        Some(message) => {
            if cfg.use_cfg_mode {
                let in_team_chat = select_in_team_chat(cfg.cfg_chat_mode);
                ReplyRoute::Cfg { message, in_team_chat }
            } else {
                ReplyRoute::Chat { message }
            }
        },
    }
}

/// The warning shown when the corpus is empty.
pub fn corpus_empty_event(locale: &Locale) -> (r: UiEvent)
    ensures
        r.level == UiLevel::Warn,
        r.kind == UiKind::ChatSent,
        r.message@ == template_spec(current_language_spec(*locale), "status.corpus_empty"@),
{
    UiEvent::warn(UiKind::ChatSent, t(locale, "status.corpus_empty"))
}

/// What the user is told once a reply went out or failed: the message
/// sent, or the failure with the trigger's label and the error.
pub fn dispatch_outcome_event(
    locale: &Locale,
    trigger: DispatchTrigger,
    via_cfg: bool,
    message: &str,
    outcome: &Result<(), String>,
) -> (r: UiEvent)
    ensures
        outcome is Ok ==> r.level == UiLevel::Info && r.kind == UiKind::ChatSent && r.message@
            == substitute(
            template_spec(current_language_spec(*locale), "status.message_sent"@),
            seq![message@],
        ),
        outcome matches Err(e) ==> r.level == UiLevel::Error && r.kind == (if via_cfg {
            UiKind::Cfg
        } else {
            UiKind::ChatSent
        }) && r.message@ == substitute(
            template_spec(
                current_language_spec(*locale),
                if via_cfg {
                    "dispatch.cfg_failed"@
                } else {
                    "dispatch.chat_failed"@
                },
            ),
            seq![
                template_spec(
                    current_language_spec(*locale),
                    match trigger {
                        DispatchTrigger::Death => "trigger.death"@,
                        DispatchTrigger::Kill => "trigger.kill"@,
                    },
                ),
                e@,
            ],
        ),
{
    match outcome {
        Ok(()) => {
            let args = [message];
            assert(args_view(args@) =~= seq![message@]);
            UiEvent::info(UiKind::ChatSent, t_args(locale, "status.message_sent", &args))
        },
        Err(e) => {
            let label = t(locale, trigger.label_key());
            let key = if via_cfg {
                "dispatch.cfg_failed"
            } else {
                "dispatch.chat_failed"
            };
            let args = [label.as_str(), e.as_str()];
            assert(args_view(args@) =~= seq![label@, e@]);
            let kind = if via_cfg {
                UiKind::Cfg
            } else {
                UiKind::ChatSent
            };
            UiEvent::error(kind, t_args(locale, key, &args))
        },
    }
}

/// The warning shown when the listener could not bind the default port.
pub fn port_fallback_warning(bound_port: u16) -> (r: Option<String>)
    ensures
        bound_port == DEFAULT_PORT ==> r is None,
        bound_port != DEFAULT_PORT ==> r is Some && r->0@ == "\u{9996}\u{9009}\u{7aef}\u{53e3} "@
            + decimal(DEFAULT_PORT as nat) + " \u{88ab}\u{5360}\u{7528}\u{ff0c}\u{5df2}\u{5207}\u{6362}\u{5230} "@
            + decimal(bound_port as nat)
            + "\u{ff08}CS2 cfg \u{540c}\u{6b65}\u{66f4}\u{65b0}\u{ff09}"@,
{
    if bound_port == DEFAULT_PORT {
        return None;
    }
    let m = String::from_str("\u{9996}\u{9009}\u{7aef}\u{53e3} ");
    let m = m.concat(decimal_string(DEFAULT_PORT as u64).as_str());
    let m = m.concat(" \u{88ab}\u{5360}\u{7528}\u{ff0c}\u{5df2}\u{5207}\u{6362}\u{5230} ");
    let m = m.concat(decimal_string(bound_port as u64).as_str());
    let m = m.concat("\u{ff08}CS2 cfg \u{540c}\u{6b65}\u{66f4}\u{65b0}\u{ff09}");
    Some(m)
}

/// The note shown once the GSI cfg was written.
pub fn gsi_cfg_written_message(path: &str, bound_port: u16) -> (r: String)
    ensures
        r@ == "\u{5199}\u{5165} GSI cfg: "@ + path@ + " (\u{7aef}\u{53e3} "@ + decimal(bound_port as nat) + ")"@,
{
    String::from_str("\u{5199}\u{5165} GSI cfg: ").concat(path).concat(" (\u{7aef}\u{53e3} ").concat(
        decimal_string(bound_port as u64).as_str(),
    ).concat(")")
}

/// The warning shown when the GSI cfg could not be written.
pub fn gsi_cfg_failed_message(error: &str) -> (r: String)
    ensures
        r@ == "GSI cfg \u{81ea}\u{52a8}\u{5199}\u{5165}\u{5931}\u{8d25} (\u{53ef}\u{624b}\u{52a8}\u{653e}\u{7f6e}): "@ + error@,
{
    String::from_str("GSI cfg \u{81ea}\u{52a8}\u{5199}\u{5165}\u{5931}\u{8d25} (\u{53ef}\u{624b}\u{52a8}\u{653e}\u{7f6e}): ").concat(error)
}

/// The notice shown after an import: the counts, when anything was added.
pub fn import_summary_event(locale: &Locale, result: ImportResult) -> (r: Option<UiEvent>)
    ensures
        result.added == 0 ==> r is None,
        result.added > 0 ==> (r matches Some(e) && e.level == UiLevel::Info && e.kind
            == UiKind::Corpus && e.message@ == substitute(
            template_spec(current_language_spec(*locale), "status.corpus_imported"@),
            seq![decimal(result.added as nat), decimal(result.skipped as nat)],
        )),
{
    if result.added == 0 {
        return None;
    }
    let added = decimal_string(result.added as u64);
    let skipped = decimal_string(result.skipped as u64);
    let args = [added.as_str(), skipped.as_str()];
    assert(args_view(args@) =~= seq![added@, skipped@]);
    Some(UiEvent::info(UiKind::Corpus, t_args(locale, "status.corpus_imported", &args)))
}

/// Where `Config.json` and `Messages.txt` live: the working directory if
/// it already holds either file, else the per-user config directory, else
/// the working directory.
pub fn data_dir_choice(cwd: String, cwd_has_data: bool, config_dir: Option<String>) -> (r: String)
    ensures
        r@ == if cwd_has_data {
            cwd@
        } else {
            match config_dir {
                Some(d) => d@,
                None => cwd@,
            }
        },
{
    if cwd_has_data {
        return cwd;
    }
    match config_dir {
        Some(d) => d,
        None => cwd,
    }
}

/// Aggregate counters shown in the status bar.
#[derive(Debug, Clone, Copy, PartialEq, Eq, Structural)]
pub struct StatsSummary {
    /// Total entries in the corpus.
    pub corpus_count: usize,
    /// Whether the dispatch cfg and the autoexec block are installed.
    pub cfg_installed: bool,
}

} // verus!
