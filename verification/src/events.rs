//! Application-level UI events: status-bar / toast items produced by the
//! engine, and their wire form for the webview.

use vstd::prelude::*;
use std::time::{Duration, SystemTime};

verus! {

/// `std::time::SystemTime`, carried through as an opaque value.
#[verifier::external_type_specification]
#[verifier::external_body]
pub struct ExSystemTime(SystemTime);

/// `SystemTime::now()`. The current time depends on the clock; nothing is
/// stated of it.
#[verifier::external_body]
fn system_time_now() -> SystemTime {
    SystemTime::now()
}

/// What `at.duration_since(UNIX_EPOCH)` gives, or `None` when `at` lies
/// before the epoch.
pub uninterp spec fn since_epoch_of(at: SystemTime) -> Option<Duration>;

/// `SystemTime::duration_since(UNIX_EPOCH)`; the error case (a time before
/// the epoch) becomes `None`. Its result is named `since_epoch_of`.
#[verifier::external_body]
fn since_epoch(at: &SystemTime) -> (r: Option<Duration>)
    ensures
        r == since_epoch_of(*at),
{
    at.duration_since(std::time::UNIX_EPOCH).ok()
}

/// What `d.as_millis()` gives: the whole milliseconds of `d`.
pub uninterp spec fn millis_of(d: Duration) -> u128;

/// `Duration::as_millis`; its result is named `millis_of`.
#[verifier::external_body]
fn as_millis(d: &Duration) -> (r: u128)
    ensures
        r == millis_of(*d),
{
    d.as_millis()
}

/// Milliseconds since the epoch of a point in time, or `None` before it.
pub open spec fn unix_millis_of(at: SystemTime) -> Option<u128> {
    match since_epoch_of(at) {
        Some(d) => Some(millis_of(d)),
        None => None,
    }
}

/// Milliseconds since the epoch of `at`, or `None` when it lies before.
fn unix_millis(at: &SystemTime) -> (r: Option<u128>)
    ensures
        r == unix_millis_of(*at),
{
    match since_epoch(at) {
        Some(d) => Some(as_millis(&d)),
        None => None,
    }
}

/// Severity of a [`UiEvent`].
#[derive(Debug, Clone, Copy, PartialEq, Eq, Structural)]
pub enum UiLevel {
    /// Info / status update.
    Info,
    /// Warning: recoverable problem.
    Warn,
    /// Error: operation failed.
    Error,
}

/// Domain category of a [`UiEvent`].
#[derive(Debug, Clone, Copy, PartialEq, Eq, Structural)]
pub enum UiKind {
    /// GSI listener lifecycle / connectivity.
    Gsi,
    /// Player death observed.
    PlayerDeath,
    /// Chat message sent.
    ChatSent,
    /// CFG mode (file generation, autoexec patching).
    Cfg,
    /// Corpus changed (added / removed / imported).
    Corpus,
    /// Configuration changed.
    Config,
    /// Generic / unknown.
    Other,
}

/// One status-bar / toast item produced by the engine.
#[derive(Debug)]
pub struct UiEvent {
    /// When the event was produced.
    pub at: SystemTime,
    /// Severity level: drives icon / colour in the UI.
    pub level: UiLevel,
    /// Human-readable text (already localised).
    pub message: String,
    /// Tag the GUI can use to deduplicate / route the event.
    pub kind: UiKind,
}

impl Clone for UiEvent {
    fn clone(&self) -> (r: Self)
        ensures
            r.at == self.at,
            r.level == self.level,
            r.kind == self.kind,
            r.message@ == self.message@,
    {
        UiEvent { at: self.at, level: self.level, message: self.message.clone(), kind: self.kind }
    }
}

impl UiEvent {
    /// Create an event of the given level, stamped with the current time.
    pub fn new(level: UiLevel, kind: UiKind, message: String) -> (r: Self)
        ensures
            r.level == level,
            r.kind == kind,
            r.message@ == message@,
    {
        UiEvent { at: system_time_now(), level, message, kind }
    }

    /// Create an info-level event.
    pub fn info(kind: UiKind, message: String) -> (r: Self)
        ensures
            r.level == UiLevel::Info,
            r.kind == kind,
            r.message@ == message@,
    {
        UiEvent::new(UiLevel::Info, kind, message)
    }

    /// Create a warn-level event.
    pub fn warn(kind: UiKind, message: String) -> (r: Self)
        ensures
            r.level == UiLevel::Warn,
            r.kind == kind,
            r.message@ == message@,
    {
        UiEvent::new(UiLevel::Warn, kind, message)
    }

    /// Create an error-level event.
    pub fn error(kind: UiKind, message: String) -> (r: Self)
        ensures
            r.level == UiLevel::Error,
            r.kind == kind,
            r.message@ == message@,
    {
        UiEvent::new(UiLevel::Error, kind, message)
    }
}

/// Wire name of a level.
pub open spec fn level_name_spec(l: UiLevel) -> Seq<char> {
    match l {
        UiLevel::Info => "info"@,
        UiLevel::Warn => "warn"@,
        UiLevel::Error => "error"@,
    }
}

/// Wire name of a kind.
pub open spec fn kind_name_spec(k: UiKind) -> Seq<char> {
    match k {
        UiKind::Gsi => "gsi"@,
        UiKind::PlayerDeath => "playerDeath"@,
        UiKind::ChatSent => "chatSent"@,
        UiKind::Cfg => "cfg"@,
        UiKind::Corpus => "corpus"@,
        UiKind::Config => "config"@,
        UiKind::Other => "other"@,
    }
}

/// Milliseconds since the epoch as sent to the webview: the elapsed time
/// truncated to 64 bits, or 0 for a time before the epoch.
pub open spec fn timestamp_spec(elapsed: Option<u128>) -> u64 {
    match elapsed {
        Some(ms) => (ms % 0x1_0000_0000_0000_0000) as u64,
        None => 0,
    }
}

/// Wire-format mirror of [`UiEvent`]: strings instead of enums so that
/// the webview can switch on them directly.
#[derive(Debug)]
pub struct UiEventDto {
    /// Unix epoch milliseconds the event was produced.
    pub timestamp_ms: u64,
    /// `"info" | "warn" | "error"`.
    pub level: &'static str,
    /// Domain category, see [`UiKind`].
    pub kind: &'static str,
    /// Already-localised human text.
    pub message: String,
}

/// Wire name of a level.
pub fn level_name(l: UiLevel) -> (r: &'static str)
    ensures
        r@ == level_name_spec(l),
{
    match l {
        UiLevel::Info => "info",
        UiLevel::Warn => "warn",
        UiLevel::Error => "error",
    }
}

/// Wire name of a kind.
pub fn kind_name(k: UiKind) -> (r: &'static str)
    ensures
        r@ == kind_name_spec(k),
{
    match k {
        UiKind::Gsi => "gsi",
        UiKind::PlayerDeath => "playerDeath",
        UiKind::ChatSent => "chatSent",
        UiKind::Cfg => "cfg",
        UiKind::Corpus => "corpus",
        UiKind::Config => "config",
        UiKind::Other => "other",
    }
}

/// Milliseconds since the epoch, truncated to 64 bits, or 0.
pub fn timestamp_ms(elapsed: Option<u128>) -> (r: u64)
    ensures
        r == timestamp_spec(elapsed),
{
    match elapsed {
        Some(ms) => {
            let r = (ms % 0x1_0000_0000_0000_0000u128) as u64;
            r
        },
        None => 0,
    }
}

impl UiEventDto {
    /// The wire form of an event.
    pub fn from_event(e: UiEvent) -> (r: Self)
        ensures
            r.timestamp_ms == timestamp_spec(unix_millis_of(e.at)),
            r.level@ == level_name_spec(e.level),
            r.kind@ == kind_name_spec(e.kind),
            r.message@ == e.message@,
    {
        let elapsed = unix_millis(&e.at);
        UiEventDto {
            timestamp_ms: timestamp_ms(elapsed),
            level: level_name(e.level),
            kind: kind_name(e.kind),
            message: e.message,
        }
    }
}

} // verus!
