//! Chat mode: the decisions behind typing a message into the CS2 chat
//! box by simulated keystrokes.
//!
//! The program around this library checks the foreground window, waits
//! for the user to be idle, handles the clipboard and injects the key
//! steps; this module decides whether to go ahead, which key opens the
//! chat, how often, with which delays, and what the keyboard does.

use vstd::prelude::*;
use core::time::Duration;
use crate::config::AppConfig;
use crate::platform::{
    at_least_spec, char_to_vk_spec, clear_input, key_tap_spec, paste_clipboard, press_enter,
    press_key, press_spec, KeyStep, VirtualKey, MIN_KEY_INTERVAL_MS, VK_A, VK_CONTROL, VK_DELETE,
    VK_RETURN, VK_V,
};

verus! {

/// Hard floor between simulated keystrokes, in milliseconds.
pub const MIN_STEP_MS: u64 = 15;

/// Idle time the user must show before typing starts, in milliseconds.
pub const IDLE_THRESHOLD_MS: u64 = 150;

/// Longest wait for the user to become idle, in milliseconds.
pub const IDLE_WAIT_BUDGET_MS: u64 = 1000;

/// Poll interval while waiting for the user to become idle.
pub const IDLE_POLL_INTERVAL_MS: u64 = 25;

/// Errors produced while sending a chat message.
#[derive(Debug, PartialEq, Eq)]
pub enum SendError {
    /// The CS2 window check failed.
    NotForeground,
    /// Clipboard could not be written.
    Clipboard(String),
    /// The blocking task could not be joined.
    Join(String),
}

/// The message of a [`SendError`].
pub open spec fn send_error_message(e: SendError) -> Seq<char> {
    match e {
        SendError::NotForeground => "CS2 window not found in foreground"@,
        SendError::Clipboard(m) => "clipboard write failed: "@ + m@,
        SendError::Join(m) => "blocking task join error: "@ + m@,
    }
}

impl SendError {
    /// Human-readable message, as displayed to the user.
    pub fn message(&self) -> (r: String)
        ensures
            r@ == send_error_message(*self),
    {
        match self {
            SendError::NotForeground => String::from_str("CS2 window not found in foreground"),
            SendError::Clipboard(m) => String::from_str("clipboard write failed: ").concat(
                m.as_str(),
            ),
            SendError::Join(m) => String::from_str("blocking task join error: ").concat(
                m.as_str(),
            ),
        }
    }
}

/// What `Duration::from_millis` gives for `ms`.
pub uninterp spec fn millis_duration(ms: u64) -> Duration;

/// `Duration::from_millis`; its result is named `millis_duration`.
#[verifier::external_body]
fn duration_from_millis(ms: u64) -> (d: Duration)
    ensures
        d == millis_duration(ms),
{
    Duration::from_millis(ms)
}

/// The inter-key delay in milliseconds: the configured value, floored at
/// [`MIN_STEP_MS`].
pub open spec fn step_delay_ms_spec(configured_ms: u32) -> u64 {
    if (configured_ms as u64) < MIN_STEP_MS {
        MIN_STEP_MS
    } else {
        configured_ms as u64
    }
}

/// The inter-key delay in milliseconds.
pub fn step_delay_ms(configured_ms: u32) -> (r: u64)
    ensures
        r == step_delay_ms_spec(configured_ms),
{
    let raw = configured_ms as u64;
    if raw < MIN_STEP_MS {
        MIN_STEP_MS
    } else {
        raw
    }
}

/// The inter-key delay: the configured value, floored at 15 ms.
pub fn step_delay(configured_ms: u32) -> (r: Duration)
    ensures
        r == millis_duration(step_delay_ms_spec(configured_ms)),
{
    duration_from_millis(step_delay_ms(configured_ms))
}

/// The first character of `s`, or `fallback` when `s` is empty.
pub fn first_char_or(s: &str, fallback: char) -> (r: char)
    ensures
        r == if s@.len() > 0 {
            s@[0]
        } else {
            fallback
        },
{
    if s.unicode_len() > 0 {
        s.get_char(0)
    } else {
        fallback
    }
}

/// How a message is to be typed.
#[derive(Debug, Clone, Copy, PartialEq, Eq, Structural)]
pub struct SendPlan {
    /// Inter-key delay in milliseconds.
    pub key_delay_ms: u64,
    /// Key that opens the chat box.
    pub chat_key: char,
    /// How many times the chat key is pressed (three in force mode).
    pub opens: u32,
}

/// The plan for a configuration.
pub open spec fn send_plan_spec(c: crate::config::AppConfigView) -> SendPlan {
    SendPlan {
        key_delay_ms: step_delay_ms_spec(c.key_delay),
        chat_key: if c.chat_key.len() > 0 {
            c.chat_key[0]
        } else {
            'y'
        },
        opens: if c.force_mode {
            3
        } else {
            1
        },
    }
}

/// Whether to type at all: refused with `NotForeground` when the window
/// check is on and CS2 is not in the foreground; otherwise the plan.
pub fn send_decision(cfg: &AppConfig, cs2_active: bool) -> (r: Result<SendPlan, SendError>)
    ensures
        (!cfg@.skip_window_check && !cs2_active) <==> r is Err,
        r matches Err(e) ==> e == SendError::NotForeground,
        r matches Ok(p) ==> p == send_plan_spec(cfg@),
{
    if !cfg.skip_window_check && !cs2_active {
        return Err(SendError::NotForeground);
    }
    let key_delay_ms = step_delay_ms(cfg.key_delay);
    let chat_key = first_char_or(cfg.chat_key.as_str(), 'y');
    let opens: u32 = if cfg.force_mode {
        3
    } else {
        1
    };
    Ok(SendPlan { key_delay_ms, chat_key, opens })
}

/// The larger of two pauses.
pub open spec fn max_ms(a: u64, b: u64) -> u64 {
    if a < b {
        b
    } else {
        a
    }
}

/// The chat-open presses: `opens` times a press of the chat key followed
/// by the floor.
pub open spec fn open_presses(p: SendPlan, n: nat) -> Seq<KeyStep>
    decreases n,
{
    if n == 0 {
        Seq::empty()
    } else {
        open_presses(p, (n - 1) as nat) + press_spec(char_to_vk_spec(p.chat_key), p.key_delay_ms)
            + seq![KeyStep::Pause(MIN_STEP_MS)]
    }
}

/// The keys typed once the message is on the clipboard: open the chat
/// box, give it time to take focus, clear it, paste, press Enter.
pub open spec fn typing_spec(p: SendPlan) -> Seq<KeyStep> {
    open_presses(p, p.opens as nat) + seq![KeyStep::Pause(max_ms(p.key_delay_ms, 120))] + seq![
        KeyStep::Down(VirtualKey::Code(VK_CONTROL)),
        KeyStep::Pause(MIN_KEY_INTERVAL_MS),
    ] + key_tap_spec(VirtualKey::Code(VK_A), at_least_spec(p.key_delay_ms)) + seq![
        KeyStep::Up(VirtualKey::Code(VK_CONTROL)),
        KeyStep::Pause(MIN_KEY_INTERVAL_MS),
    ] + key_tap_spec(VirtualKey::Code(VK_DELETE), at_least_spec(p.key_delay_ms)) + seq![
        KeyStep::Pause(max_ms(MIN_STEP_MS, p.key_delay_ms)),
    ] + seq![
        KeyStep::Down(VirtualKey::Code(VK_CONTROL)),
        KeyStep::Pause(MIN_KEY_INTERVAL_MS),
        KeyStep::Down(VirtualKey::Code(VK_V)),
        KeyStep::Pause(MIN_KEY_INTERVAL_MS),
        KeyStep::Up(VirtualKey::Code(VK_V)),
        KeyStep::Up(VirtualKey::Code(VK_CONTROL)),
        KeyStep::Pause(MIN_KEY_INTERVAL_MS),
    ] + seq![KeyStep::Pause(max_ms(MIN_STEP_MS, p.key_delay_ms))] + key_tap_spec(
        VirtualKey::Code(VK_RETURN),
        MIN_KEY_INTERVAL_MS,
    )
}

/// Each chat-open press is five steps: down, hold, up, the key delay and
/// the floor; the first opens with the chat key.
proof fn lemma_open_presses(p: SendPlan, n: nat)
    ensures
        open_presses(p, n).len() == 5 * n,
        n > 0 ==> open_presses(p, n)[0] == KeyStep::Down(char_to_vk_spec(p.chat_key)),
    decreases n,
{
    if n > 0 {
        lemma_open_presses(p, (n - 1) as nat);
    }
}

/// The typing sequence opens the chat box, then clears it, then pastes
/// the message with Ctrl held, and sends it last: it ends with the Enter
/// tap, the paste (Ctrl down, V down, V up, Ctrl up) comes before it, the
/// clearing Delete tap before the paste, and no Enter is pressed between
/// the paste and that final tap.
pub proof fn lemma_typing_pastes_then_sends(p: SendPlan)
    ensures
        ({
            let s = typing_spec(p);
            let n = s.len() as int;
            &&& n == 5 * p.opens + 23
            &&& p.opens > 0 ==> s[0] == KeyStep::Down(char_to_vk_spec(p.chat_key))
            &&& s[n - 3] == KeyStep::Down(VirtualKey::Code(VK_RETURN))
            &&& s[n - 2] == KeyStep::Pause(MIN_KEY_INTERVAL_MS)
            &&& s[n - 1] == KeyStep::Up(VirtualKey::Code(VK_RETURN))
            &&& s[n - 15] == KeyStep::Down(VirtualKey::Code(VK_DELETE))
            &&& s[n - 13] == KeyStep::Up(VirtualKey::Code(VK_DELETE))
            &&& s[n - 11] == KeyStep::Down(VirtualKey::Code(VK_CONTROL))
            &&& s[n - 9] == KeyStep::Down(VirtualKey::Code(VK_V))
            &&& s[n - 7] == KeyStep::Up(VirtualKey::Code(VK_V))
            &&& s[n - 6] == KeyStep::Up(VirtualKey::Code(VK_CONTROL))
            &&& forall|j: int|
                n - 15 <= j < n - 3 ==> #[trigger] s[j] != KeyStep::Down(
                    VirtualKey::Code(VK_RETURN),
                )
        }),
{
    lemma_open_presses(p, p.opens as nat);
    let s = typing_spec(p);
    let n = s.len() as int;
    if p.opens > 0 {
        assert(s[0] == open_presses(p, p.opens as nat)[0]);
    }
    assert forall|j: int| n - 15 <= j < n - 3 implies #[trigger] s[j] != KeyStep::Down(
        VirtualKey::Code(VK_RETURN),
    ) by {
        assert(VK_DELETE != VK_RETURN);
        assert(VK_CONTROL != VK_RETURN);
        assert(VK_V != VK_RETURN);
    }
}

fn append_steps(r: &mut Vec<KeyStep>, steps: Vec<KeyStep>)
    ensures
        final(r)@ == old(r)@ + steps@,
{
    let mut s = steps;
    r.append(&mut s);
}

/// The keys typed once the message is on the clipboard.
pub fn typing_steps(p: SendPlan) -> (r: Vec<KeyStep>)
    ensures
        r@ == typing_spec(p),
{
    let mut r: Vec<KeyStep> = Vec::new();
    let mut k: u32 = 0;
    assert(r@ =~= open_presses(p, 0));
    while k < p.opens
        invariant
            k <= p.opens,
            r@ == open_presses(p, k as nat),
        decreases p.opens - k,
    {
        let press = press_key(p.chat_key, p.key_delay_ms);
        append_steps(&mut r, press);
        r.push(KeyStep::Pause(MIN_STEP_MS));
        k = k + 1;
        assert(r@ =~= open_presses(p, k as nat));
    }
    let focus = if p.key_delay_ms < 120 {
        120
    } else {
        p.key_delay_ms
    };
    r.push(KeyStep::Pause(focus));
    append_steps(&mut r, clear_input(p.key_delay_ms));
    let rest = if MIN_STEP_MS < p.key_delay_ms {
        p.key_delay_ms
    } else {
        MIN_STEP_MS
    };
    r.push(KeyStep::Pause(rest));
    append_steps(&mut r, paste_clipboard());
    r.push(KeyStep::Pause(rest));
    append_steps(&mut r, press_enter());
    assert(r@ =~= typing_spec(p));
    r
}

/// Whether waiting for the user to become idle is over: the user has
/// been idle long enough, or the wait budget is spent.
pub fn idle_wait_done(idle_ms: u64, waited_ms: u64) -> (r: bool)
    ensures
        r == (idle_ms >= IDLE_THRESHOLD_MS || waited_ms >= IDLE_WAIT_BUDGET_MS),
{
    idle_ms >= IDLE_THRESHOLD_MS || waited_ms >= IDLE_WAIT_BUDGET_MS
}

} // verus!
