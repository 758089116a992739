//! CFG mode: the text of the single dispatch cfg that CS2 reads, and of the
//! ImLag-managed block in `autoexec.cfg`.
//!
//! The design keeps a single `imlag_say.cfg`, empty by default, and binds
//! the trigger key to `exec imlag_say`. On a death the cfg is rewritten
//! with a `say` / `say_team` line, the trigger is pressed, and the cfg is
//! truncated back to a comment-only stub, so pressing the trigger between
//! deaths is harmless. The files themselves are read and written by the
//! program around this library; this module computes what goes into them.

use vstd::prelude::*;
use crate::config::{AppConfig, CfgChatMode};
use crate::text::{
    chars_of, contains, contains_exec, ends_with, ends_with_exec, is_ascii_alnum, join, join_exec,
    lines, lines_exec, lower, lower_chars, replace, replace_exec, same_chars, starts_with,
    starts_with_exec, string_of_all, trim, trim_bounds, trimmed, upper, upper_chars,
};

verus! {

/// Suffix of the backup taken of `autoexec.cfg` before it is first patched.
pub const AUTOEXEC_BACKUP_SUFFIX: &'static str = ".imlag_backup";

/// File name of the dispatch slot.
pub const SAY_CFG_FILE: &'static str = "imlag_say.cfg";

/// Milliseconds to wait between pressing the trigger and clearing the cfg.
pub const DISPATCH_CLEAR_DELAY_MS: u64 = 300;

/// Errors produced while reading or writing CS2 cfg files.
#[derive(Debug, PartialEq, Eq)]
pub enum CfgError {
    /// The CS2 install directory could not be located.
    Cs2NotFound,
    /// The CS2 install directory exists but `game/csgo/cfg` is missing.
    CfgDirMissing(String),
    /// The corpus is empty so nothing can be dispatched.
    EmptyCorpus,
    /// Underlying I/O error, by its message.
    Io(String),
}

/// The message of a [`CfgError`].
pub open spec fn cfg_error_message(e: CfgError) -> Seq<char> {
    match e {
        CfgError::Cs2NotFound => "CS2 install directory not found"@,
        CfgError::CfgDirMissing(p) => "CS2 cfg directory not found at "@ + p@,
        CfgError::EmptyCorpus => "corpus is empty"@,
        CfgError::Io(m) => "io error: "@ + m@,
    }
}

impl CfgError {
    /// Human-readable message, as displayed to the user.
    pub fn message(&self) -> (r: String)
        ensures
            r@ == cfg_error_message(*self),
    {
        match self {
            CfgError::Cs2NotFound => String::from_str("CS2 install directory not found"),
            CfgError::CfgDirMissing(p) => {
                let r = String::from_str("CS2 cfg directory not found at ");
                r.concat(p.as_str())
            },
            CfgError::EmptyCorpus => String::from_str("corpus is empty"),
            CfgError::Io(m) => {
                let r = String::from_str("io error: ");
                r.concat(m.as_str())
            },
        }
    }
}

// ---------------------------------------------------------------------
// Fixed text
// ---------------------------------------------------------------------

/// First line of the ImLag-managed block.
pub open spec fn comment_start() -> Seq<char> {
    "// --- ImLag Auto-Bind Start ---"@
}

/// Last line of the ImLag-managed block.
pub open spec fn comment_end() -> Seq<char> {
    "// --- ImLag Auto-Bind End ---"@
}

/// The command that CS2 runs last so the binds persist.
pub open spec fn host_writeconfig() -> Seq<char> {
    "host_writeconfig"@
}

/// Body of the dispatch slot between deaths.
pub open spec fn empty_say_cfg_body() -> Seq<char> {
    "// ImLag dispatch slot \u{2014} content is rewritten at runtime.\n// Pressing the trigger key while this file is empty is a no-op.\n"@
}

/// Exec value of [`comment_start`].
pub fn comment_start_str() -> (r: &'static str)
    ensures
        r@ == comment_start(),
{
    "// --- ImLag Auto-Bind Start ---"
}

/// Exec value of [`comment_end`].
pub fn comment_end_str() -> (r: &'static str)
    ensures
        r@ == comment_end(),
{
    "// --- ImLag Auto-Bind End ---"
}

/// Exec value of [`empty_say_cfg_body`].
pub fn empty_say_cfg_body_str() -> (r: &'static str)
    ensures
        r@ == empty_say_cfg_body(),
{
    "// ImLag dispatch slot \u{2014} content is rewritten at runtime.\n// Pressing the trigger key while this file is empty is a no-op.\n"
}

// ---------------------------------------------------------------------
// Specification
// ---------------------------------------------------------------------

/// `escape_for_cfg`: double every `"` and drop every `;`.
pub open spec fn escape_spec(m: Seq<char>) -> Seq<char> {
    replace(replace(m, seq!['"'], seq!['"', '"']), seq![';'], Seq::empty())
}

/// The token CS2's `bind` expects for a key spec: `INS` when blank, a
/// single letter or digit lower-cased, anything else upper-cased.
pub open spec fn bind_token_spec(key: Seq<char>) -> Seq<char> {
    let t = trim(key);
    if t.len() == 0 {
        "INS"@
    } else if t.len() == 1 && is_ascii_alnum(t[0]) {
        lower(t)
    } else {
        upper(t)
    }
}

/// The line that binds the trigger token.
pub open spec fn bind_line(tok: Seq<char>) -> Seq<char> {
    "bind \""@ + tok + "\" \"exec imlag_say\""@
}

/// The line that echoes the binding in the console.
pub open spec fn echo_line(tok: Seq<char>) -> Seq<char> {
    "echo \"ImLag: '"@ + tok + "' bound to imlag_say.cfg\""@
}

/// The lines that `add_imlag_section` appends before `host_writeconfig`.
pub open spec fn section_block(tok: Seq<char>) -> Seq<Seq<char>> {
    seq![
        Seq::empty(),
        comment_start(),
        "// This block is automatically managed by ImLag."@,
        "// The dispatch cfg is empty until ImLag rewrites it on a"@,
        "// death event, so pressing the trigger by hand is a no-op."@,
        bind_line(tok),
        echo_line(tok),
        comment_end(),
        Seq::empty(),
    ]
}

/// Whether a line is a `host_writeconfig` command (ASCII case ignored).
pub open spec fn is_hwc_line(l: Seq<char>) -> bool {
    lower(trim(l)) == lower(host_writeconfig())
}

/// `ls` without its `host_writeconfig` lines.
pub open spec fn drop_hwc(ls: Seq<Seq<char>>) -> Seq<Seq<char>>
    decreases ls.len(),
{
    if ls.len() == 0 {
        ls
    } else {
        let r = drop_hwc(ls.drop_last());
        if is_hwc_line(ls.last()) {
            r
        } else {
            r.push(ls.last())
        }
    }
}

/// What `add_imlag_section` makes of `ls` for trigger key `key`.
pub open spec fn add_section_spec(ls: Seq<Seq<char>>, key: Seq<char>) -> Seq<Seq<char>> {
    drop_hwc(ls + section_block(bind_token_spec(key))).push(host_writeconfig())
}

/// Scan for the ImLag block: `start` is the last start marker seen so far;
/// the block ends at the first end marker after a start marker.
pub open spec fn scan_section(ls: Seq<Seq<char>>, i: int, start: Option<int>) -> Option<(int, int)>
    decreases ls.len() - i,
{
    if i < 0 || i >= ls.len() {
        None
    } else {
        let t = trim(ls[i]);
        let st = if t == comment_start() {
            Some(i)
        } else {
            start
        };
        if t == comment_end() && st is Some {
            Some((st->0, i))
        } else {
            scan_section(ls, i + 1, st)
        }
    }
}

/// Lines that older versions wrote outside the markers.
pub open spec fn is_legacy_line(l: Seq<char>) -> bool {
    let s = trim(l);
    ||| contains(s, "exec imlag_say_global_selector"@)
    ||| contains(s, "exec imlag_say_team_selector"@)
    ||| contains(s, "exec imlag_say_selector"@)
    ||| contains(s, "imlag_do_global_say"@)
    ||| contains(s, "imlag_do_team_say"@)
}

/// `ls` without its legacy lines.
pub open spec fn drop_legacy(ls: Seq<Seq<char>>) -> Seq<Seq<char>>
    decreases ls.len(),
{
    if ls.len() == 0 {
        ls
    } else {
        let r = drop_legacy(ls.drop_last());
        if is_legacy_line(ls.last()) {
            r
        } else {
            r.push(ls.last())
        }
    }
}

/// Where the cut for a block starting at line `s` begins: at the empty
/// line just before the start marker, when there is one.
pub open spec fn cut_from(ls: Seq<Seq<char>>, s: int) -> int {
    if s > 0 && ls[s - 1].len() == 0 {
        s - 1
    } else {
        s
    }
}

/// Where the lines kept after a block ending at line `e` resume: past the
/// empty line just after the end marker, when there is one.
pub open spec fn cut_to(ls: Seq<Seq<char>>, e: int) -> int {
    if e + 1 < ls.len() && ls[e + 1].len() == 0 {
        e + 2
    } else {
        e + 1
    }
}

/// `ls` with the lines from `s` to `e` cut out, together with the empty
/// line that sets them apart on either side.
pub open spec fn cut_block(ls: Seq<Seq<char>>, s: int, e: int) -> Seq<Seq<char>> {
    ls.subrange(0, cut_from(ls, s)) + ls.subrange(cut_to(ls, e), ls.len() as int)
}

/// `ls` with every ImLag block cut out, one after the other, each as the
/// scan finds it.
pub open spec fn drop_blocks(ls: Seq<Seq<char>>) -> Seq<Seq<char>>
    decreases ls.len(),
{
    match scan_section(ls, 0, None) {
        Some((s, e)) => if 0 <= s < e < ls.len() {
            drop_blocks(cut_block(ls, s, e))
        } else {
            ls
        },
        None => ls,
    }
}

/// What `remove_imlag_section` makes of `ls`: every ImLag block is cut
/// out, together with the empty line that sets it apart on either side,
/// then legacy lines are dropped.
pub open spec fn remove_section_spec(ls: Seq<Seq<char>>) -> Seq<Seq<char>> {
    drop_legacy(drop_blocks(ls))
}

/// Whether a line is the start marker of an ImLag block.
pub open spec fn is_start(l: Seq<char>) -> bool {
    trim(l) == comment_start()
}

/// Whether a line is the end marker of an ImLag block.
pub open spec fn is_end(l: Seq<char>) -> bool {
    trim(l) == comment_end()
}

/// Whether `ls` holds an ImLag block: a start marker with an end marker
/// somewhere after it.
pub open spec fn holds_block(ls: Seq<Seq<char>>) -> bool {
    exists|i: int, j: int|
        0 <= i < j < ls.len() && #[trigger] is_start(ls[i]) && #[trigger] is_end(ls[j])
}

/// `l` without the carriage returns at its end.
pub open spec fn drop_cr_end(l: Seq<char>) -> Seq<char>
    decreases l.len(),
{
    if l.len() > 0 && l.last() == '\r' {
        drop_cr_end(l.drop_last())
    } else {
        l
    }
}

/// Each line without the carriage returns at its end.
pub open spec fn clean_lines(ls: Seq<Seq<char>>) -> Seq<Seq<char>> {
    Seq::new(ls.len(), |i: int| drop_cr_end(ls[i]))
}

/// The lines of a fresh `autoexec.cfg`.
pub open spec fn default_autoexec_lines() -> Seq<Seq<char>> {
    seq![
        "// Counter-Strike 2 Autoexec Configuration File"@,
        "// Generated by ImLag"@,
        Seq::empty(),
    ]
}

/// Lines joined as a file: `\n` between them and one at the end.
pub open spec fn file_text(ls: Seq<Seq<char>>) -> Seq<char> {
    join(ls, seq!['\n']) + seq!['\n']
}

/// The text `update_autoexec` writes, given the current `autoexec.cfg`
/// (if there is one) and the trigger key.
pub open spec fn autoexec_text_spec(existing: Option<Seq<char>>, key: Seq<char>) -> Seq<char> {
    file_text(add_section_spec(kept_lines(existing), key))
}

/// The lines of the current `autoexec.cfg`, without the carriage returns
/// at their ends, or those of a fresh one.
pub open spec fn existing_lines(existing: Option<Seq<char>>) -> Seq<Seq<char>> {
    match existing {
        Some(t) => clean_lines(lines(t)),
        None => default_autoexec_lines(),
    }
}

/// The lines of the current `autoexec.cfg` with its ImLag block and
/// legacy lines taken out.
pub open spec fn kept_lines(existing: Option<Seq<char>>) -> Seq<Seq<char>> {
    remove_section_spec(existing_lines(existing))
}

/// The dispatch line for a message.
pub open spec fn dispatch_body_spec(m: Seq<char>, in_team: bool) -> Seq<char> {
    "// ImLag dispatch \u{2014} generated at runtime\n"@ + (if in_team {
        "say_team"@
    } else {
        "say"@
    }) + " \""@ + escape_spec(m) + "\"\n"@
}

/// Whether a cfg file name is a stale preset or selector of older versions.
pub open spec fn is_legacy_cfg_name(name: Seq<char>) -> bool {
    name != "imlag_say.cfg"@ && starts_with(name, "imlag_say_"@) && ends_with(name, ".cfg"@)
}

// ---------------------------------------------------------------------
// Laws of the ImLag block
// ---------------------------------------------------------------------

/// Dropping `host_writeconfig` lines distributes over concatenation.
pub proof fn lemma_drop_hwc_concat(a: Seq<Seq<char>>, b: Seq<Seq<char>>)
    ensures
        drop_hwc(a + b) == drop_hwc(a) + drop_hwc(b),
    decreases b.len(),
{
    if b.len() == 0 {
        assert(a + b == a);
        assert(drop_hwc(a) + drop_hwc(b) == drop_hwc(a));
    } else {
        assert((a + b).drop_last() == a + b.drop_last());
        assert((a + b).last() == b.last());
        lemma_drop_hwc_concat(a, b.drop_last());
        if !is_hwc_line(b.last()) {
            assert(drop_hwc(a) + drop_hwc(b.drop_last()).push(b.last()) == (drop_hwc(a)
                + drop_hwc(b.drop_last())).push(b.last()));
        }
    }
}

/// Dropping legacy lines distributes over concatenation.
pub proof fn lemma_drop_legacy_concat(a: Seq<Seq<char>>, b: Seq<Seq<char>>)
    ensures
        drop_legacy(a + b) == drop_legacy(a) + drop_legacy(b),
    decreases b.len(),
{
    if b.len() == 0 {
        assert(a + b == a);
        assert(drop_legacy(a) + drop_legacy(b) == drop_legacy(a));
    } else {
        assert((a + b).drop_last() == a + b.drop_last());
        assert((a + b).last() == b.last());
        lemma_drop_legacy_concat(a, b.drop_last());
        if !is_legacy_line(b.last()) {
            assert(drop_legacy(a) + drop_legacy(b.drop_last()).push(b.last()) == (drop_legacy(
                a,
            ) + drop_legacy(b.drop_last())).push(b.last()));
        }
    }
}

/// Every line that survives `drop_hwc` was a line of the input.
pub proof fn lemma_drop_hwc_subset(ls: Seq<Seq<char>>)
    ensures
        forall|x: Seq<char>| #[trigger] drop_hwc(ls).contains(x) ==> ls.contains(x),
    decreases ls.len(),
{
    if ls.len() > 0 {
        let p = ls.drop_last();
        lemma_drop_hwc_subset(p);
        assert forall|x: Seq<char>| #[trigger] drop_hwc(ls).contains(x) implies ls.contains(x) by {
            let r = drop_hwc(p);
            if r.contains(x) {
                let k = choose|k: int| 0 <= k < p.len() && p[k] == x;
                assert(ls[k] == x);
            } else {
                assert(ls[ls.len() - 1] == x) by {
                    if !is_hwc_line(ls.last()) {
                        let k = choose|k: int| 0 <= k < r.push(ls.last()).len() && r.push(
                            ls.last(),
                        )[k] == x;
                        assert(k == r.len());
                    }
                }
            }
        }
    }
}

/// A line that does not start or end with white space is its own trim.
proof fn lemma_trim_plain(l: Seq<char>)
    requires
        l.len() > 0,
        !crate::text::is_ws(l[0]),
        !crate::text::is_ws(l.last()),
    ensures
        trim(l) == l,
{
    assert(crate::text::trim_start(l) == l);
    assert(crate::text::trim_end(l) == l);
}

/// A pattern longer than the text does not occur in it.
proof fn lemma_no_room(s: Seq<char>, p: Seq<char>)
    requires
        p.len() > s.len(),
    ensures
        !contains(s, p),
{
}

/// Facts about the lines of the ImLag block.
proof fn lemma_block_lines(tok: Seq<char>)
    ensures
        forall|i: int| 0 <= i < 9 ==> !is_hwc_line(#[trigger] section_block(tok)[i]),
        forall|i: int|
            0 <= i < 9 && i != 1 ==> trim(#[trigger] section_block(tok)[i]) != comment_start(),
        forall|i: int|
            0 <= i < 9 && i != 7 ==> trim(#[trigger] section_block(tok)[i]) != comment_end(),
        trim(section_block(tok)[1]) == comment_start(),
        trim(section_block(tok)[7]) == comment_end(),
        trim(section_block(tok)[8]).len() == 0,
        !is_legacy_line(section_block(tok)[8]),
        !is_legacy_line(host_writeconfig()),
        !is_hwc_line(Seq::empty()),
        !is_end(host_writeconfig()),
        !is_start(host_writeconfig()),
{
    let b = section_block(tok);
    reveal_strlit("// --- ImLag Auto-Bind Start ---");
    reveal_strlit("// --- ImLag Auto-Bind End ---");
    reveal_strlit("// This block is automatically managed by ImLag.");
    reveal_strlit("// The dispatch cfg is empty until ImLag rewrites it on a");
    reveal_strlit("// death event, so pressing the trigger by hand is a no-op.");
    reveal_strlit("bind \"");
    reveal_strlit("\" \"exec imlag_say\"");
    reveal_strlit("echo \"ImLag: '");
    reveal_strlit("' bound to imlag_say.cfg\"");
    reveal_strlit("host_writeconfig");
    reveal_strlit("exec imlag_say_global_selector");
    reveal_strlit("exec imlag_say_team_selector");
    reveal_strlit("exec imlag_say_selector");
    reveal_strlit("imlag_do_global_say");
    reveal_strlit("imlag_do_team_say");
    let empty = Seq::<char>::empty();
    assert(crate::text::trim_start(empty) == empty);
    assert(crate::text::trim_end(empty) == empty);
    assert(trim(empty) == empty);
    let h = host_writeconfig();
    lemma_trim_plain(h);
    assert(h[0] != comment_end()[0]);
    assert(h[0] != comment_start()[0]);
    assert(lower(h) =~= h);
    assert(lower(trim(empty)).len() == 0);
    let bl = bind_line(tok);
    assert(bl[0] == 'b');
    assert(bl.last() == '"');
    lemma_trim_plain(bl);
    let el = echo_line(tok);
    assert(el[0] == 'e');
    assert(el.last() == '"');
    lemma_trim_plain(el);
    lemma_trim_plain(b[1]);
    lemma_trim_plain(b[2]);
    lemma_trim_plain(b[3]);
    lemma_trim_plain(b[4]);
    lemma_trim_plain(b[7]);
    assert(lower(bl)[0] != h[0]);
    assert(lower(el)[0] != h[0]);
    assert(lower(b[1])[0] != h[0]);
    assert(lower(b[2])[0] != h[0]);
    assert(lower(b[3])[0] != h[0]);
    assert(lower(b[4])[0] != h[0]);
    assert(lower(b[7])[0] != h[0]);
    assert(b[2][3] != comment_start()[3]);
    assert(b[3][3] != comment_start()[3]);
    assert(b[4][3] != comment_start()[3]);
    assert(b[2][3] != comment_end()[3]);
    assert(b[3][3] != comment_end()[3]);
    assert(b[4][3] != comment_end()[3]);
    assert(bl[0] != comment_start()[0]);
    assert(el[0] != comment_start()[0]);
    assert(bl[0] != comment_end()[0]);
    assert(el[0] != comment_end()[0]);
    assert(comment_start()[23] != comment_end()[23]);
    lemma_no_room(h, "exec imlag_say_global_selector"@);
    lemma_no_room(h, "exec imlag_say_team_selector"@);
    lemma_no_room(h, "exec imlag_say_selector"@);
    lemma_no_room(h, "imlag_do_global_say"@);
    lemma_no_room(h, "imlag_do_team_say"@);
    lemma_no_room(empty, "exec imlag_say_global_selector"@);
    lemma_no_room(empty, "exec imlag_say_team_selector"@);
    lemma_no_room(empty, "exec imlag_say_selector"@);
    lemma_no_room(empty, "imlag_do_global_say"@);
    lemma_no_room(empty, "imlag_do_team_say"@);
}

/// The start marker the scan has seen last when it reaches line `k`,
/// having started at line `i` with `st`.
pub open spec fn scan_state(ls: Seq<Seq<char>>, i: int, k: int, st: Option<int>) -> Option<int>
    decreases k - i,
{
    if i >= k {
        st
    } else {
        scan_state(
            ls,
            i + 1,
            k,
            if trim(ls[i]) == comment_start() {
                Some(i)
            } else {
                st
            },
        )
    }
}

/// A prefix in which the scan finds no block can be skipped: the scan
/// goes on from its end with the start marker seen last.
proof fn lemma_scan_skip(ls: Seq<Seq<char>>, k: int, i: int, st: Option<int>)
    requires
        0 <= i <= k <= ls.len(),
        scan_section(ls.take(k), i, st) is None,
    ensures
        scan_section(ls, i, st) == scan_section(ls, k, scan_state(ls, i, k, st)),
    decreases k - i,
{
    if i < k {
        assert(ls.take(k)[i] == ls[i]);
        let st2 = if trim(ls[i]) == comment_start() {
            Some(i)
        } else {
            st
        };
        lemma_scan_skip(ls, k, i + 1, st2);
    }
}

/// The two markers differ.
proof fn lemma_markers_differ()
    ensures
        comment_start() != comment_end(),
{
    reveal_strlit("// --- ImLag Auto-Bind Start ---");
    reveal_strlit("// --- ImLag Auto-Bind End ---");
    assert(comment_start()[23] != comment_end()[23]);
}

/// A block the scan finds starts before it ends, inside `ls`.
proof fn lemma_scan_bounds(ls: Seq<Seq<char>>, i: int, st: Option<int>)
    requires
        0 <= i,
        st matches Some(x) ==> 0 <= x < i,
    ensures
        scan_section(ls, i, st) matches Some((s, e)) ==> 0 <= s < e < ls.len(),
    decreases ls.len() - i,
{
    lemma_markers_differ();
    if 0 <= i < ls.len() {
        let st2 = if trim(ls[i]) == comment_start() {
            Some(i)
        } else {
            st
        };
        lemma_scan_bounds(ls, i + 1, st2);
    }
}

/// No start marker from line `i` on has an end marker after it.
pub open spec fn no_block_from(ls: Seq<Seq<char>>, i: int) -> bool {
    forall|k: int, j: int|
        i <= k < j < ls.len() ==> !(#[trigger] is_start(ls[k]) && #[trigger] is_end(ls[j]))
}

/// No end marker from line `i` on.
pub open spec fn no_end_from(ls: Seq<Seq<char>>, i: int) -> bool {
    forall|j: int| i <= j < ls.len() ==> !#[trigger] is_end(ls[j])
}

/// The scan from line `i` finds nothing exactly when no block lies there
/// and, if a start marker was seen before, no end marker follows.
proof fn lemma_scan_none_iff(ls: Seq<Seq<char>>, i: int, st: Option<int>)
    requires
        0 <= i,
    ensures
        (scan_section(ls, i, st) is None) <==> (no_block_from(ls, i) && (st is Some
            ==> no_end_from(ls, i))),
    decreases ls.len() - i,
{
    lemma_markers_differ();
    if i < ls.len() {
        let st2 = if is_start(ls[i]) {
            Some(i)
        } else {
            st
        };
        lemma_scan_none_iff(ls, i + 1, st2);
        if no_block_from(ls, i) && (st is Some ==> no_end_from(ls, i)) {
            assert(no_block_from(ls, i + 1));
            if is_start(ls[i]) {
                assert forall|j: int| i + 1 <= j < ls.len() implies !#[trigger] is_end(ls[j]) by {
                    assert(!(is_start(ls[i]) && is_end(ls[j])));
                }
            }
            if st is Some {
                assert(!is_end(ls[i]));
            }
        }
        if scan_section(ls, i, st) is None {
            assert(!(is_end(ls[i]) && st2 is Some));
            assert forall|k: int, j: int| i <= k < j < ls.len() implies !(#[trigger] is_start(
                ls[k],
            ) && #[trigger] is_end(ls[j])) by {
                if k == i && is_start(ls[i]) {
                    assert(no_end_from(ls, i + 1));
                }
            }
            if st is Some {
                assert forall|j: int| i <= j < ls.len() implies !#[trigger] is_end(ls[j]) by {
                    if j > i {
                        assert(no_end_from(ls, i + 1));
                    }
                }
            }
        }
    }
}

/// The scan finds nothing in lines that hold no block.
proof fn lemma_scan_none(ls: Seq<Seq<char>>)
    ensures
        (scan_section(ls, 0, None) is None) <==> !holds_block(ls),
{
    lemma_scan_none_iff(ls, 0, None);
    if holds_block(ls) {
        let (i, j) = choose|i: int, j: int|
            0 <= i < j < ls.len() && #[trigger] is_start(ls[i]) && #[trigger] is_end(ls[j]);
        assert(!no_block_from(ls, 0));
    }
}

/// Every line that survives `drop_legacy` was a line of the input.
proof fn lemma_drop_legacy_subset(ls: Seq<Seq<char>>)
    ensures
        forall|x: Seq<char>| #[trigger] drop_legacy(ls).contains(x) ==> ls.contains(x),
    decreases ls.len(),
{
    if ls.len() > 0 {
        let p = ls.drop_last();
        lemma_drop_legacy_subset(p);
        assert forall|x: Seq<char>| #[trigger] drop_legacy(ls).contains(x) implies ls.contains(
            x,
        ) by {
            let r = drop_legacy(p);
            if r.contains(x) {
                let k = choose|k: int| 0 <= k < p.len() && p[k] == x;
                assert(ls[k] == x);
            } else {
                assert(ls[ls.len() - 1] == x) by {
                    if !is_legacy_line(ls.last()) {
                        let k = choose|k: int|
                            0 <= k < r.push(ls.last()).len() && r.push(ls.last())[k] == x;
                        assert(k == r.len());
                    }
                }
            }
        }
    }
}

/// Dropping `host_writeconfig` lines makes no block where there was none.
proof fn lemma_drop_hwc_no_block(ls: Seq<Seq<char>>)
    requires
        !holds_block(ls),
    ensures
        !holds_block(drop_hwc(ls)),
    decreases ls.len(),
{
    if ls.len() > 0 {
        let p = ls.drop_last();
        let r = drop_hwc(p);
        assert(!holds_block(p)) by {
            if holds_block(p) {
                let (i, j) = choose|i: int, j: int|
                    0 <= i < j < p.len() && #[trigger] is_start(p[i]) && #[trigger] is_end(p[j]);
                assert(is_start(ls[i]) && is_end(ls[j]));
            }
        }
        lemma_drop_hwc_no_block(p);
        lemma_drop_hwc_subset(p);
        let d = drop_hwc(ls);
        if holds_block(d) {
            let (i, j) = choose|i: int, j: int|
                0 <= i < j < d.len() && #[trigger] is_start(d[i]) && #[trigger] is_end(d[j]);
            if j < r.len() {
                assert(d[i] == r[i] && d[j] == r[j]);
                assert(is_start(r[i]) && is_end(r[j]));
            } else {
                assert(r.contains(r[i]));
                let k = choose|k: int| 0 <= k < p.len() && p[k] == r[i];
                assert(d[i] == r[i]);
                assert(d[j] == ls.last());
                assert(is_start(ls[k]) && is_end(ls[ls.len() - 1]));
            }
        }
    }
}

/// Dropping legacy lines makes no block where there was none.
proof fn lemma_drop_legacy_no_block(ls: Seq<Seq<char>>)
    requires
        !holds_block(ls),
    ensures
        !holds_block(drop_legacy(ls)),
    decreases ls.len(),
{
    if ls.len() > 0 {
        let p = ls.drop_last();
        let r = drop_legacy(p);
        assert(!holds_block(p)) by {
            if holds_block(p) {
                let (i, j) = choose|i: int, j: int|
                    0 <= i < j < p.len() && #[trigger] is_start(p[i]) && #[trigger] is_end(p[j]);
                assert(is_start(ls[i]) && is_end(ls[j]));
            }
        }
        lemma_drop_legacy_no_block(p);
        lemma_drop_legacy_subset(p);
        let d = drop_legacy(ls);
        if holds_block(d) {
            let (i, j) = choose|i: int, j: int|
                0 <= i < j < d.len() && #[trigger] is_start(d[i]) && #[trigger] is_end(d[j]);
            if j < r.len() {
                assert(d[i] == r[i] && d[j] == r[j]);
                assert(is_start(r[i]) && is_end(r[j]));
            } else {
                assert(r.contains(r[i]));
                let k = choose|k: int| 0 <= k < p.len() && p[k] == r[i];
                assert(d[i] == r[i]);
                assert(d[j] == ls.last());
                assert(is_start(ls[k]) && is_end(ls[ls.len() - 1]));
            }
        }
    }
}

/// Cutting out the blocks leaves no block, only lines of the input, and
/// changes nothing in lines that hold no block.
proof fn lemma_drop_blocks(ls: Seq<Seq<char>>)
    ensures
        !holds_block(drop_blocks(ls)),
        forall|x: Seq<char>| #[trigger] drop_blocks(ls).contains(x) ==> ls.contains(x),
        !holds_block(ls) ==> drop_blocks(ls) == ls,
    decreases ls.len(),
{
    lemma_scan_bounds(ls, 0, None);
    lemma_scan_none(ls);
    match scan_section(ls, 0, None) {
        Some((s, e)) => {
            let c = cut_block(ls, s, e);
            lemma_drop_blocks(c);
            assert forall|x: Seq<char>| #[trigger] drop_blocks(ls).contains(x) implies ls.contains(
                x,
            ) by {
                assert(c.contains(x));
                let k = choose|k: int| 0 <= k < c.len() && c[k] == x;
                if k < cut_from(ls, s) {
                    assert(ls[k] == x);
                } else {
                    assert(ls[k - cut_from(ls, s) + cut_to(ls, e)] == x);
                }
            }
        },
        None => {},
    }
}

/// The lines of `add_section_spec(ls, key)`: those of `ls` without
/// `host_writeconfig`, the block, then `host_writeconfig`.
proof fn lemma_add_section_shape(ls: Seq<Seq<char>>, key: Seq<char>)
    ensures
        add_section_spec(ls, key) == (drop_hwc(ls) + section_block(bind_token_spec(key))).push(
            host_writeconfig(),
        ),
{
    let b = section_block(bind_token_spec(key));
    lemma_block_lines(bind_token_spec(key));
    lemma_drop_hwc_concat(ls, b);
    assert(drop_hwc(b) == b) by {
        assert forall|j: int| 0 <= j <= 9 implies #[trigger] drop_hwc(b.take(j)) == b.take(j) by {
            lemma_drop_hwc_prefix(b, j);
        }
        assert(b.take(9) == b);
    }
}

/// Lines in which no line is an end marker hold no ImLag block.
pub proof fn lemma_no_end_no_block(ls: Seq<Seq<char>>)
    requires
        forall|i: int| 0 <= i < ls.len() ==> !#[trigger] is_end(ls[i]),
    ensures
        !holds_block(ls),
{
    if holds_block(ls) {
        let (i, j) = choose|i: int, j: int|
            0 <= i < j < ls.len() && #[trigger] is_start(ls[i]) && #[trigger] is_end(ls[j]);
        assert(is_end(ls[j]));
    }
}

/// Adding the ImLag block and then removing it leaves the lines it
/// started from, less their `host_writeconfig` and legacy lines, followed
/// by `host_writeconfig`; provided those lines hold no ImLag block of
/// their own (lines in which no line trims to a marker hold none).
pub proof fn lemma_remove_after_add_section(ls: Seq<Seq<char>>, key: Seq<char>)
    requires
        !holds_block(ls),
    ensures
        remove_section_spec(add_section_spec(ls, key)) == drop_legacy(drop_hwc(ls)) + seq![
            host_writeconfig(),
        ],
{
    let tok = bind_token_spec(key);
    let b = section_block(tok);
    lemma_block_lines(tok);
    lemma_add_section_shape(ls, key);
    reveal_strlit("// --- ImLag Auto-Bind Start ---");
    reveal_strlit("// --- ImLag Auto-Bind End ---");
    assert(comment_start()[23] != comment_end()[23]);
    let d = drop_hwc(ls);
    let a = (d + b).push(host_writeconfig());
    assert(a == add_section_spec(ls, key));
    let n = d.len() as int;
    let m = n + 1;
    lemma_drop_hwc_no_block(ls);
    lemma_scan_none(d);
    assert(a.take(n) =~= d);
    lemma_scan_skip(a, n, 0, None);
    let st0 = scan_state(a, 0, n, None);
    assert(a[n] == b[0]);
    assert(a[m] == b[1]);
    assert(a[m + 1] == b[2]);
    assert(a[m + 2] == b[3]);
    assert(a[m + 3] == b[4]);
    assert(a[m + 4] == b[5]);
    assert(a[m + 5] == b[6]);
    assert(a[m + 6] == b[7]);
    assert(a[m + 7] == b[8]);
    assert(scan_section(a, n, st0) == scan_section(a, m, st0));
    assert(scan_section(a, m, st0) == scan_section(a, m + 1, Some(m)));
    assert(scan_section(a, m + 6, Some(m)) == Some((m, m + 6)));
    assert(scan_section(a, m + 5, Some(m)) == scan_section(a, m + 6, Some(m)));
    assert(scan_section(a, m + 4, Some(m)) == scan_section(a, m + 5, Some(m)));
    assert(scan_section(a, m + 3, Some(m)) == scan_section(a, m + 4, Some(m)));
    assert(scan_section(a, m + 2, Some(m)) == scan_section(a, m + 3, Some(m)));
    assert(scan_section(a, m + 1, Some(m)) == scan_section(a, m + 2, Some(m)));
    assert(scan_section(a, 0, None) == Some((m, m + 6)));
    assert(b[0].len() == 0);
    assert(b[8].len() == 0);
    assert(cut_from(a, m) == n);
    assert(cut_to(a, m + 6) == m + 8);
    let tail = seq![host_writeconfig()];
    let cut = a.subrange(0, n) + a.subrange(m + 8, a.len() as int);
    assert(cut =~= d + tail);
    assert(cut_block(a, m, m + 6) == cut);
    assert(drop_blocks(a) == drop_blocks(cut));
    assert(!holds_block(d + tail)) by {
        if holds_block(d + tail) {
            let (i, j) = choose|i: int, j: int|
                0 <= i < j < (d + tail).len() && #[trigger] is_start((d + tail)[i])
                    && #[trigger] is_end((d + tail)[j]);
            if j < n {
                assert(is_start(d[i]) && is_end(d[j]));
            } else {
                assert((d + tail)[j] == host_writeconfig());
            }
        }
    }
    lemma_drop_blocks(d + tail);
    lemma_drop_legacy_concat(d, tail);
    assert(drop_legacy(tail) == tail) by {
        assert(tail.drop_last() =~= Seq::<Seq<char>>::empty());
        assert(drop_legacy(tail.drop_last()) == tail.drop_last());
        assert(tail.last() == host_writeconfig());
        assert(tail.drop_last().push(tail.last()) =~= tail);
    }
}

/// `drop_hwc` keeps every line of a prefix of the block.
proof fn lemma_drop_hwc_prefix(b: Seq<Seq<char>>, j: int)
    requires
        0 <= j <= b.len(),
        forall|i: int| 0 <= i < b.len() ==> !is_hwc_line(#[trigger] b[i]),
    ensures
        drop_hwc(b.take(j)) == b.take(j),
    decreases j,
{
    if j > 0 {
        lemma_drop_hwc_prefix(b, j - 1);
        assert(b.take(j).drop_last() == b.take(j - 1));
        assert(b.take(j).last() == b[j - 1]);
        assert(b.take(j - 1).push(b[j - 1]) == b.take(j));
    }
}

/// Each part of a join occurs in the joined text.
pub proof fn lemma_join_contains(ls: Seq<Seq<char>>, sep: Seq<char>, k: int)
    requires
        0 <= k < ls.len(),
    ensures
        contains(join(ls, sep), ls[k]),
    decreases ls.len(),
{
    let j = join(ls, sep);
    if ls.len() == 1 {
        assert(j.subrange(0, ls[0].len() as int) =~= ls[0]);
        assert(crate::text::occurs_at(j, ls[k], 0));
    } else if k == ls.len() - 1 {
        let pre = join(ls.drop_last(), sep) + sep;
        assert(j == pre + ls.last());
        assert(j.subrange(pre.len() as int, j.len() as int) =~= ls[k]);
        assert(crate::text::occurs_at(j, ls[k], pre.len() as int));
    } else {
        lemma_join_contains(ls.drop_last(), sep, k);
        let p = join(ls.drop_last(), sep);
        assert(ls.drop_last()[k] == ls[k]);
        let i = choose|i: int| crate::text::occurs_at(p, ls[k], i);
        assert(j == p + sep + ls.last());
        assert(j.subrange(i, i + ls[k].len()) =~= p.subrange(i, i + ls[k].len()));
        assert(crate::text::occurs_at(j, ls[k], i));
    }
}

/// A text that contains `p` still does with more appended.
proof fn lemma_contains_extend(s: Seq<char>, t: Seq<char>, p: Seq<char>)
    requires
        contains(s, p),
    ensures
        contains(s + t, p),
{
    let i = choose|i: int| crate::text::occurs_at(s, p, i);
    assert((s + t).subrange(i, i + p.len()) =~= s.subrange(i, i + p.len()));
    assert(crate::text::occurs_at(s + t, p, i));
}

/// After `update_autoexec`, the file holds both markers of the ImLag
/// block, whatever it held before: the autoexec half of `is_installed`.
pub proof fn lemma_update_autoexec_installs(existing: Option<Seq<char>>, key: Seq<char>)
    ensures
        contains(autoexec_text_spec(existing, key), comment_start()),
        contains(autoexec_text_spec(existing, key), comment_end()),
{
    let x = kept_lines(existing);
    let tok = bind_token_spec(key);
    let b = section_block(tok);
    lemma_block_lines(tok);
    lemma_drop_hwc_concat(x, b);
    assert(drop_hwc(b) == b) by {
        assert forall|j: int| 0 <= j <= 9 implies #[trigger] drop_hwc(b.take(j)) == b.take(j) by {
            lemma_drop_hwc_prefix(b, j);
        }
        assert(b.take(9) == b);
    }
    let a = add_section_spec(x, key);
    let d = drop_hwc(x);
    assert(a == (d + b).push(host_writeconfig()));
    assert(a[d.len() as int + 1] == comment_start());
    assert(a[d.len() as int + 7] == comment_end());
    lemma_join_contains(a, seq!['\n'], d.len() as int + 1);
    lemma_join_contains(a, seq!['\n'], d.len() as int + 7);
    lemma_contains_extend(join(a, seq!['\n']), seq!['\n'], comment_start());
    lemma_contains_extend(join(a, seq!['\n']), seq!['\n'], comment_end());
}

/// Removing every occurrence of a character leaves none of it.
pub proof fn lemma_replace_drops_char(s: Seq<char>, c: char)
    ensures
        !replace(s, seq![c], Seq::empty()).contains(c),
    decreases s.len(),
{
    let r = replace(s, seq![c], Seq::empty());
    if s.len() >= 1 {
        lemma_replace_drops_char(s.drop_first(), c);
        if s.take(1) == seq![c] {
            assert(s.skip(1) == s.drop_first());
            assert(r == Seq::<char>::empty() + replace(s.drop_first(), seq![c], Seq::empty()));
            assert(r =~= replace(s.drop_first(), seq![c], Seq::empty()));
        } else {
            assert(s[0] != c) by {
                if s[0] == c {
                    assert(s.take(1) =~= seq![c]);
                }
            }
            let rest = replace(s.drop_first(), seq![c], Seq::empty());
            assert(r == seq![s[0]] + rest);
            assert forall|i: int| 0 <= i < r.len() implies r[i] != c by {
                if i > 0 {
                    assert(r[i] == rest[i - 1]);
                    assert(rest.contains(rest[i - 1]) ==> rest[i - 1] != c);
                }
            }
        }
    }
}

/// An escaped message holds no `;`, so it cannot end the `say` command
/// and start another.
pub proof fn lemma_escape_has_no_semicolon(m: Seq<char>)
    ensures
        !escape_spec(m).contains(';'),
{
    lemma_replace_drops_char(replace(m, seq!['"'], seq!['"', '"']), ';');
}

/// A line that reads back unchanged from a file: no `\n` in it, and no
/// `\r` at its end.
pub open spec fn no_breaks(l: Seq<char>) -> bool {
    &&& forall|i: int| 0 <= i < l.len() ==> l[i] != '\n'
    &&& l.len() > 0 ==> l.last() != '\r'
}

/// Lines written one after the other, each followed by `\n`.
pub open spec fn terminated(ls: Seq<Seq<char>>) -> Seq<char>
    decreases ls.len(),
{
    if ls.len() == 0 {
        Seq::empty()
    } else {
        ls[0] + seq!['\n'] + terminated(ls.drop_first())
    }
}

proof fn lemma_terminated_push(ls: Seq<Seq<char>>, x: Seq<char>)
    ensures
        terminated(ls.push(x)) == terminated(ls) + x + seq!['\n'],
    decreases ls.len(),
{
    if ls.len() == 0 {
        assert(ls.push(x).drop_first() =~= Seq::<Seq<char>>::empty());
        assert(ls.push(x)[0] == x);
        assert(terminated(ls.push(x).drop_first()) == Seq::<char>::empty());
        assert(terminated(ls) == Seq::<char>::empty());
        assert(terminated(ls.push(x)) =~= terminated(ls) + x + seq!['\n']);
    } else {
        assert(ls.push(x).drop_first() =~= ls.drop_first().push(x));
        lemma_terminated_push(ls.drop_first(), x);
        assert(ls.push(x)[0] == ls[0]);
    }
}

/// The text of a file of lines is each line followed by `\n`.
proof fn lemma_file_text_terminated(ls: Seq<Seq<char>>)
    requires
        ls.len() > 0,
    ensures
        file_text(ls) == terminated(ls),
    decreases ls.len(),
{
    if ls.len() == 1 {
        assert(ls.drop_first() =~= Seq::<Seq<char>>::empty());
        assert(terminated(ls.drop_first()) == Seq::<char>::empty());
        assert(terminated(ls) =~= ls[0] + seq!['\n']);
        assert(join(ls, seq!['\n']) == ls[0]);
    } else {
        let p = ls.drop_last();
        lemma_file_text_terminated(p);
        lemma_terminated_push(p, ls.last());
        assert(p.push(ls.last()) =~= ls);
        assert(join(ls, seq!['\n']) == join(p, seq!['\n']) + seq!['\n'] + ls.last());
        assert(file_text(ls) =~= file_text(p) + ls.last() + seq!['\n']);
    }
}

/// Splitting text that starts with a line without separators.
proof fn lemma_split_piece(l: Seq<char>, rest: Seq<char>, cur: Seq<char>)
    requires
        no_breaks(l),
    ensures
        crate::text::split_from(l + seq!['\n'] + rest, '\n', cur) == seq![cur + l]
            + crate::text::split_from(rest, '\n', Seq::empty()),
    decreases l.len(),
{
    let s = l + seq!['\n'] + rest;
    if l.len() == 0 {
        assert(s[0] == '\n');
        assert(s.drop_first() =~= rest);
        assert(cur + l =~= cur);
    } else {
        assert(s[0] == l[0]);
        assert(s.drop_first() =~= l.drop_first() + seq!['\n'] + rest);
        lemma_split_piece(l.drop_first(), rest, cur.push(l[0]));
        assert(cur.push(l[0]) + l.drop_first() =~= cur + l);
    }
}

/// Splitting terminated lines gives the lines and a final empty piece.
proof fn lemma_split_terminated(ls: Seq<Seq<char>>)
    requires
        forall|i: int| 0 <= i < ls.len() ==> no_breaks(#[trigger] ls[i]),
    ensures
        crate::text::split(terminated(ls), '\n') == ls.push(Seq::empty()),
    decreases ls.len(),
{
    if ls.len() == 0 {
        assert(crate::text::split(Seq::<char>::empty(), '\n') =~= seq![Seq::<char>::empty()]);
        assert(ls.push(Seq::empty()) =~= seq![Seq::<char>::empty()]);
    } else {
        let r = ls.drop_first();
        assert forall|i: int| 0 <= i < r.len() implies no_breaks(#[trigger] r[i]) by {
            assert(r[i] == ls[i + 1]);
        }
        lemma_split_terminated(r);
        assert(no_breaks(ls[0]));
        lemma_split_piece(ls[0], terminated(r), Seq::empty());
        assert(Seq::<char>::empty() + ls[0] =~= ls[0]);
        assert(seq![ls[0]] + r.push(Seq::empty()) =~= ls.push(Seq::empty()));
    }
}

/// Reading back a file of lines gives the lines, when none holds a line
/// break.
pub proof fn lemma_lines_of_file_text(ls: Seq<Seq<char>>)
    requires
        ls.len() > 0,
        forall|i: int| 0 <= i < ls.len() ==> no_breaks(#[trigger] ls[i]),
    ensures
        lines(file_text(ls)) == ls,
{
    lemma_file_text_terminated(ls);
    lemma_split_terminated(ls);
    let p = crate::text::split(file_text(ls), '\n');
    assert(p == ls.push(Seq::empty()));
    assert forall|i: int| 0 <= i < ls.len() implies crate::text::strip_cr(p[i]) == ls[i] by {
        assert(p[i] == ls[i]);
        assert(no_breaks(ls[i]));
        if ls[i].len() > 0 {
            assert(ls[i].last() != '\r');
        }
    }
    assert(lines(file_text(ls)) =~= ls);
}

/// The lines of the ImLag block read back unchanged, given a token that
/// does.
proof fn lemma_block_no_breaks(tok: Seq<char>)
    requires
        no_breaks(tok),
    ensures
        forall|i: int| 0 <= i < 9 ==> no_breaks(#[trigger] section_block(tok)[i]),
        no_breaks(host_writeconfig()),
{
    reveal_strlit("// --- ImLag Auto-Bind Start ---");
    reveal_strlit("// --- ImLag Auto-Bind End ---");
    reveal_strlit("// This block is automatically managed by ImLag.");
    reveal_strlit("// The dispatch cfg is empty until ImLag rewrites it on a");
    reveal_strlit("// death event, so pressing the trigger by hand is a no-op.");
    reveal_strlit("bind \"");
    reveal_strlit("\" \"exec imlag_say\"");
    reveal_strlit("echo \"ImLag: '");
    reveal_strlit("' bound to imlag_say.cfg\"");
    reveal_strlit("host_writeconfig");
    let b = section_block(tok);
    let pre = "bind \""@;
    let post = "\" \"exec imlag_say\""@;
    let bl = bind_line(tok);
    assert forall|i: int| 0 <= i < bl.len() implies bl[i] != '\n' by {
        if i < pre.len() {
            assert(bl[i] == pre[i]);
        } else if i < pre.len() + tok.len() {
            assert(bl[i] == tok[i - pre.len()]);
        } else {
            assert(bl[i] == post[i - pre.len() - tok.len()]);
        }
    }
    assert(bl.last() == '"');
    let epre = "echo \"ImLag: '"@;
    let epost = "' bound to imlag_say.cfg\""@;
    let el = echo_line(tok);
    assert forall|i: int| 0 <= i < el.len() implies el[i] != '\n' by {
        if i < epre.len() {
            assert(el[i] == epre[i]);
        } else if i < epre.len() + tok.len() {
            assert(el[i] == tok[i - epre.len()]);
        } else {
            assert(el[i] == epost[i - epre.len() - tok.len()]);
        }
    }
    assert(el.last() == '"');
    assert(no_breaks(b[0]));
    assert(no_breaks(b[1]));
    assert(no_breaks(b[2]));
    assert(no_breaks(b[3]));
    assert(no_breaks(b[4]));
    assert(no_breaks(b[5]));
    assert(no_breaks(b[6]));
    assert(no_breaks(b[7]));
    assert(no_breaks(b[8]));
}

/// The lines of the file `update_autoexec` writes read back as the lines
/// it was made from, when each kept line and the bind token read back
/// unchanged.
proof fn lemma_lines_of_update(existing: Option<Seq<char>>, key: Seq<char>)
    requires
        forall|i: int|
            0 <= i < kept_lines(existing).len() ==> no_breaks(#[trigger] kept_lines(existing)[i]),
        no_breaks(bind_token_spec(key)),
    ensures
        lines(autoexec_text_spec(existing, key)) == add_section_spec(kept_lines(existing), key),
{
    let x = kept_lines(existing);
    let tok = bind_token_spec(key);
    let b = section_block(tok);
    lemma_block_no_breaks(tok);
    lemma_add_section_shape(x, key);
    let d = drop_hwc(x);
    let a = add_section_spec(x, key);
    assert(a == (d + b).push(host_writeconfig()));
    lemma_drop_hwc_subset(x);
    assert forall|i: int| 0 <= i < a.len() implies no_breaks(#[trigger] a[i]) by {
        if i < d.len() {
            assert(d.contains(d[i]));
            let j = choose|j: int| 0 <= j < x.len() && x[j] == d[i];
            assert(no_breaks(x[j]));
        } else if i < d.len() + 9 {
            assert(a[i] == b[i - d.len()]);
        } else {
            assert(a[i] == host_writeconfig());
        }
    }
    lemma_lines_of_file_text(a);
}

/// No line left by `drop_legacy` is a legacy line.
proof fn lemma_drop_legacy_clean(ls: Seq<Seq<char>>)
    ensures
        forall|i: int| 0 <= i < drop_legacy(ls).len() ==> !is_legacy_line(#[trigger] drop_legacy(ls)[i]),
    decreases ls.len(),
{
    if ls.len() > 0 {
        let r = drop_legacy(ls.drop_last());
        lemma_drop_legacy_clean(ls.drop_last());
        assert forall|i: int| 0 <= i < drop_legacy(ls).len() implies !is_legacy_line(#[trigger] drop_legacy(ls)[i]) by {
            if i < r.len() {
                assert(drop_legacy(ls)[i] == r[i]);
            }
        }
    }
}

/// What removal leaves holds no ImLag block and none of the selector
/// lines that older versions wrote: no line, trimmed, contains any of
/// their five commands.
pub proof fn lemma_removal_leaves_no_imlag_lines(ls: Seq<Seq<char>>)
    ensures
        !holds_block(remove_section_spec(ls)),
        forall|i: int|
            0 <= i < remove_section_spec(ls).len() ==> {
                let t = trim(#[trigger] remove_section_spec(ls)[i]);
                &&& !contains(t, "exec imlag_say_global_selector"@)
                &&& !contains(t, "exec imlag_say_team_selector"@)
                &&& !contains(t, "exec imlag_say_selector"@)
                &&& !contains(t, "imlag_do_global_say"@)
                &&& !contains(t, "imlag_do_team_say"@)
            },
{
    lemma_drop_blocks(ls);
    lemma_drop_legacy_no_block(drop_blocks(ls));
    lemma_drop_legacy_clean(drop_blocks(ls));
}

/// `drop_legacy` keeps lines that hold no legacy line as they are.
proof fn lemma_drop_legacy_none(ls: Seq<Seq<char>>)
    requires
        forall|i: int| 0 <= i < ls.len() ==> !is_legacy_line(#[trigger] ls[i]),
    ensures
        drop_legacy(ls) == ls,
    decreases ls.len(),
{
    if ls.len() > 0 {
        lemma_drop_legacy_none(ls.drop_last());
        assert(ls.drop_last().push(ls.last()) =~= ls);
    }
}

/// No line left by `drop_hwc` is a `host_writeconfig` line.
proof fn lemma_drop_hwc_clean(ls: Seq<Seq<char>>)
    ensures
        forall|i: int| 0 <= i < drop_hwc(ls).len() ==> !is_hwc_line(#[trigger] drop_hwc(ls)[i]),
    decreases ls.len(),
{
    if ls.len() > 0 {
        let r = drop_hwc(ls.drop_last());
        lemma_drop_hwc_clean(ls.drop_last());
        assert forall|i: int| 0 <= i < drop_hwc(ls).len() implies !is_hwc_line(#[trigger] drop_hwc(ls)[i]) by {
            if i < r.len() {
                assert(drop_hwc(ls)[i] == r[i]);
            }
        }
    }
}

/// `drop_hwc` keeps lines that hold no `host_writeconfig` line as they are.
proof fn lemma_drop_hwc_none(ls: Seq<Seq<char>>)
    requires
        forall|i: int| 0 <= i < ls.len() ==> !is_hwc_line(#[trigger] ls[i]),
    ensures
        drop_hwc(ls) == ls,
    decreases ls.len(),
{
    if ls.len() > 0 {
        lemma_drop_hwc_none(ls.drop_last());
        assert(ls.drop_last().push(ls.last()) =~= ls);
    }
}

/// The pieces of a split hold no separator.
proof fn lemma_split_no_sep(s: Seq<char>, sep: char, cur: Seq<char>)
    requires
        !cur.contains(sep),
    ensures
        forall|i: int|
            0 <= i < crate::text::split_from(s, sep, cur).len() ==> !(#[trigger] crate::text::split_from(s, sep, cur)[i]).contains(
                sep,
            ),
    decreases s.len(),
{
    if s.len() > 0 {
        if s[0] == sep {
            lemma_split_no_sep(s.drop_first(), sep, Seq::empty());
            let r = crate::text::split_from(s.drop_first(), sep, Seq::empty());
            assert forall|i: int| 0 <= i < crate::text::split_from(s, sep, cur).len() implies !(
            #[trigger] crate::text::split_from(s, sep, cur)[i]).contains(sep) by {
                if i > 0 {
                    assert(crate::text::split_from(s, sep, cur)[i] == r[i - 1]);
                } else {
                    assert(crate::text::split_from(s, sep, cur)[i] == cur);
                }
            }
        } else {
            assert(!cur.push(s[0]).contains(sep)) by {
                if cur.push(s[0]).contains(sep) {
                    let k = choose|k: int| 0 <= k < cur.push(s[0]).len() && cur.push(s[0])[k] == sep;
                    if k < cur.len() {
                        assert(cur[k] == sep);
                    }
                }
            }
            lemma_split_no_sep(s.drop_first(), sep, cur.push(s[0]));
            assert(crate::text::split_from(s, sep, cur) == crate::text::split_from(
                s.drop_first(),
                sep,
                cur.push(s[0]),
            ));
        }
    } else {
        assert(crate::text::split_from(s, sep, cur) == seq![cur]);
        assert forall|i: int| 0 <= i < crate::text::split_from(s, sep, cur).len() implies !(
        #[trigger] crate::text::split_from(s, sep, cur)[i]).contains(sep) by {
            assert(crate::text::split_from(s, sep, cur)[i] == cur);
        }
    }
}

/// A line without carriage returns at its end is a prefix of the line
/// that does not end in one.
proof fn lemma_drop_cr_end(l: Seq<char>)
    ensures
        drop_cr_end(l).len() <= l.len(),
        drop_cr_end(l) == l.take(drop_cr_end(l).len() as int),
        drop_cr_end(l).len() > 0 ==> drop_cr_end(l).last() != '\r',
        l.len() == 0 || l.last() != '\r' ==> drop_cr_end(l) == l,
    decreases l.len(),
{
    if l.len() > 0 && l.last() == '\r' {
        lemma_drop_cr_end(l.drop_last());
        assert(l.drop_last().take(drop_cr_end(l).len() as int) =~= l.take(
            drop_cr_end(l).len() as int,
        ));
    } else {
        assert(l.take(l.len() as int) =~= l);
    }
}

/// The lines that `update_autoexec` keeps of the current file read back
/// unchanged, hold no ImLag block and no legacy line.
proof fn lemma_kept_lines(existing: Option<Seq<char>>)
    ensures
        !holds_block(kept_lines(existing)),
        forall|i: int|
            0 <= i < kept_lines(existing).len() ==> no_breaks(#[trigger] kept_lines(existing)[i]),
        forall|i: int|
            0 <= i < kept_lines(existing).len() ==> !is_legacy_line(
                #[trigger] kept_lines(existing)[i],
            ),
{
    let e = existing_lines(existing);
    let k = kept_lines(existing);
    assert forall|i: int| 0 <= i < e.len() implies no_breaks(#[trigger] e[i]) by {
        match existing {
            Some(t) => {
                let p = crate::text::split(t, '\n');
                lemma_split_no_sep(t, '\n', Seq::empty());
                crate::text::lemma_split_from_nonempty(t, '\n', Seq::empty());
                let l = lines(t)[i];
                assert(!l.contains('\n')) by {
                    assert(!p[i].contains('\n'));
                    if l.contains('\n') {
                        let j = choose|j: int| 0 <= j < l.len() && l[j] == '\n';
                        assert(l[j] == p[i][j]);
                    }
                }
                lemma_drop_cr_end(l);
                assert(e[i] == drop_cr_end(l));
                assert forall|j: int| 0 <= j < e[i].len() implies e[i][j] != '\n' by {
                    assert(e[i][j] == l[j]);
                }
            },
            None => {
                reveal_strlit("// Counter-Strike 2 Autoexec Configuration File");
                reveal_strlit("// Generated by ImLag");
                assert(no_breaks(e[0]));
                assert(no_breaks(e[1]));
                assert(no_breaks(e[2]));
            },
        }
    }
    lemma_drop_blocks(e);
    lemma_drop_legacy_no_block(drop_blocks(e));
    lemma_drop_legacy_subset(drop_blocks(e));
    lemma_drop_legacy_clean(drop_blocks(e));
    assert forall|i: int| 0 <= i < k.len() implies no_breaks(#[trigger] k[i]) by {
        assert(k.contains(k[i]));
        assert(drop_blocks(e).contains(k[i]));
        let j = choose|j: int| 0 <= j < e.len() && e[j] == k[i];
    }
}

/// A bind token with no line break in it reads back unchanged.
proof fn lemma_token_no_breaks(key: Seq<char>)
    requires
        !bind_token_spec(key).contains('\n'),
    ensures
        no_breaks(bind_token_spec(key)),
{
    let tok = bind_token_spec(key);
    let t = trim(key);
    crate::text::lemma_trim_edges(key);
    reveal_strlit("INS");
    assert forall|i: int| 0 <= i < tok.len() implies tok[i] != '\n' by {
        if tok[i] == '\n' {
            assert(tok.contains('\n'));
        }
    }
    if t.len() > 0 {
        assert(tok.last() == crate::text::lower_char(t.last()) || tok.last()
            == crate::text::upper_char(t.last()));
        assert(('\r' as u32) == 0x0d);
    }
}

/// Restoring right after `update_autoexec` takes the ImLag block out
/// again: what is left is the file before, less its ImLag blocks, legacy
/// lines and `host_writeconfig` lines, followed by `host_writeconfig`.
/// This holds unless the trigger key holds a line break.
pub proof fn lemma_restore_after_update(existing: Option<Seq<char>>, key: Seq<char>)
    requires
        !bind_token_spec(key).contains('\n'),
    ensures
        remove_section_spec(lines(autoexec_text_spec(existing, key))) == drop_hwc(
            kept_lines(existing),
        ) + seq![host_writeconfig()],
{
    let x = kept_lines(existing);
    let d = drop_hwc(x);
    lemma_kept_lines(existing);
    lemma_token_no_breaks(key);
    lemma_lines_of_update(existing, key);
    lemma_remove_after_add_section(x, key);
    lemma_drop_hwc_subset(x);
    assert forall|i: int| 0 <= i < d.len() implies !is_legacy_line(#[trigger] d[i]) by {
        assert(d.contains(d[i]));
        let j = choose|j: int| 0 <= j < x.len() && x[j] == d[i];
    }
    lemma_drop_legacy_none(d);
}

/// `update_autoexec` run on its own output writes the same text again, so
/// a second install leaves `autoexec.cfg` as the first one wrote it. This
/// holds unless the trigger key holds a line break.
pub proof fn lemma_update_autoexec_idempotent(existing: Option<Seq<char>>, key: Seq<char>)
    requires
        !bind_token_spec(key).contains('\n'),
    ensures
        autoexec_text_spec(Some(autoexec_text_spec(existing, key)), key) == autoexec_text_spec(
            existing,
            key,
        ),
{
    let x = kept_lines(existing);
    let d = drop_hwc(x);
    let h = seq![host_writeconfig()];
    let tok = bind_token_spec(key);
    let b = section_block(tok);
    lemma_kept_lines(existing);
    lemma_token_no_breaks(key);
    lemma_block_no_breaks(tok);
    lemma_lines_of_update(existing, key);
    lemma_restore_after_update(existing, key);
    // The written file reads back as the lines it was made from, which
    // end in no carriage return.
    let a = add_section_spec(x, key);
    lemma_add_section_shape(x, key);
    assert(a == (d + b).push(host_writeconfig()));
    lemma_drop_hwc_subset(x);
    assert forall|i: int| 0 <= i < a.len() implies no_breaks(#[trigger] a[i]) by {
        if i < d.len() {
            assert(d.contains(d[i]));
            let j = choose|j: int| 0 <= j < x.len() && x[j] == d[i];
            assert(no_breaks(x[j]));
        } else if i < d.len() + 9 {
            assert(a[i] == b[i - d.len()]);
        } else {
            assert(a[i] == host_writeconfig());
        }
    }
    assert(clean_lines(a) =~= a) by {
        assert forall|i: int| 0 <= i < a.len() implies drop_cr_end(a[i]) == a[i] by {
            lemma_drop_cr_end(a[i]);
        }
    }
    assert(existing_lines(Some(autoexec_text_spec(existing, key))) == a);
    let x2 = d + h;
    assert(kept_lines(Some(autoexec_text_spec(existing, key))) == x2);
    lemma_drop_hwc_clean(x);
    lemma_drop_hwc_none(d);
    // Adding the block again gives the same lines.
    lemma_block_lines(tok);
    lemma_drop_hwc_concat(d, h);
    assert(drop_hwc(h) =~= Seq::<Seq<char>>::empty()) by {
        assert(h.drop_last() =~= Seq::<Seq<char>>::empty());
        assert(drop_hwc(h.drop_last()) == h.drop_last());
        reveal_strlit("host_writeconfig");
        assert(is_hwc_line(h.last()));
    }
    assert(drop_hwc(x2) =~= d);
    lemma_add_section_shape(x2, key);
    assert(add_section_spec(x2, key) == add_section_spec(x, key));
}

// ---------------------------------------------------------------------
// Exec
// ---------------------------------------------------------------------

/// Escape a message for a cfg `say` line: `"` doubled, `;` dropped.
pub fn escape_for_cfg(message: &str) -> (r: String)
    ensures
        r@ == escape_spec(message@),
{
    let v = chars_of(message);
    let q = vec!['"'];
    let qq = vec!['"', '"'];
    let semi = vec![';'];
    let none: Vec<char> = Vec::new();
    let a = replace_exec(v.as_slice(), q.as_slice(), qq.as_slice());
    let b = replace_exec(a.as_slice(), semi.as_slice(), none.as_slice());
    assert(q@ == seq!['"']);
    assert(qq@ == seq!['"', '"']);
    assert(semi@ == seq![';']);
    assert(none@ == Seq::<char>::empty());
    string_of_all(b.as_slice())
}

/// Convert a key spec like `"k"` / `"ins"` / `"f5"` into the token CS2's
/// `bind` command expects.
pub fn format_bind_token(spec: &str) -> (r: String)
    ensures
        r@ == bind_token_spec(spec@),
{
    let v = chars_of(spec);
    let (a, b) = trim_bounds(v.as_slice());
    let t = string_of_all(&v.as_slice()[a..b]);
    let tv = chars_of(t.as_str());
    assert(tv@ == trim(spec@)) by {
        assert(v@.subrange(a as int, b as int) == trim(spec@));
    }
    if tv.len() == 0 {
        return String::from_str("INS");
    }
    if tv.len() == 1 && crate::text::char_is_ascii_alnum(tv[0]) {
        let l = lower_chars(tv.as_slice());
        return string_of_all(l.as_slice());
    }
    let u = upper_chars(tv.as_slice());
    string_of_all(u.as_slice())
}

/// Whether a line is a `host_writeconfig` command.
fn is_hwc_line_exec(l: &String) -> (r: bool)
    ensures
        r == is_hwc_line(l@),
{
    let t = chars_of(l.as_str());
    let (a, b) = trim_bounds(t.as_slice());
    let lt = lower_chars(&t.as_slice()[a..b]);
    let h = chars_of("host_writeconfig");
    let lh = lower_chars(h.as_slice());
    assert(t@.subrange(a as int, b as int) == trim(l@));
    same_chars(lt.as_slice(), lh.as_slice())
}

/// Whether `v` trimmed is `lit`.
fn trims_to(l: &String, lit: &str) -> (r: bool)
    ensures
        r == (trim(l@) == lit@),
{
    let t = chars_of(l.as_str());
    let (a, b) = trim_bounds(t.as_slice());
    let w = chars_of(lit);
    assert(t@.subrange(a as int, b as int) == trim(l@));
    same_chars(&t.as_slice()[a..b], w.as_slice())
}

/// Whether a line is one that older versions wrote outside the markers.
fn is_legacy_line_exec(l: &String) -> (r: bool)
    ensures
        r == is_legacy_line(l@),
{
    let t = chars_of(l.as_str());
    let (a, b) = trim_bounds(t.as_slice());
    let s = &t.as_slice()[a..b];
    assert(s@ == trim(l@));
    let p1 = chars_of("exec imlag_say_global_selector");
    let p2 = chars_of("exec imlag_say_team_selector");
    let p3 = chars_of("exec imlag_say_selector");
    let p4 = chars_of("imlag_do_global_say");
    let p5 = chars_of("imlag_do_team_say");
    contains_exec(s, p1.as_slice()) || contains_exec(s, p2.as_slice()) || contains_exec(
        s,
        p3.as_slice(),
    ) || contains_exec(s, p4.as_slice()) || contains_exec(s, p5.as_slice())
}

/// Where the scan finds the first ImLag block of `lines`, if anywhere.
#[verifier::rlimit(40)]
fn find_section(lines: &Vec<String>) -> (r: Option<(usize, usize)>)
    ensures
        match r {
            Some((s, e)) => scan_section(lines.deep_view(), 0, None) == Some((s as int, e as int)),
            None => scan_section(lines.deep_view(), 0, None) is None,
        },
{
    let ghost ls = lines.deep_view();
    let n = lines.len();
    let mut start: Option<usize> = None;
    let mut i: usize = 0;
    proof {
        reveal_strlit("// --- ImLag Auto-Bind Start ---");
        reveal_strlit("// --- ImLag Auto-Bind End ---");
        assert(comment_start()[23] != comment_end()[23]);
    }
    while i < n
        invariant
            n == lines@.len(),
            ls == lines.deep_view(),
            i <= n,
            start matches Some(s) ==> s < i,
            comment_start() != comment_end(),
            scan_section(ls, 0, None) == scan_section(
                ls,
                i as int,
                match start {
                    Some(s) => Some(s as int),
                    None => None,
                },
            ),
        decreases n - i,
    {
        assert(ls[i as int] == lines@[i as int]@);
        if trims_to(&lines[i], comment_start_str()) {
            start = Some(i);
        }
        if trims_to(&lines[i], comment_end_str()) {
            if let Some(s) = start {
                return Some((s, i));
            }
        }
        i = i + 1;
    }
    None
}

/// `lines` with the lines from `s` to `e` cut out, together with the
/// empty line that sets them apart on either side.
fn cut_section(lines: &Vec<String>, s: usize, e: usize) -> (r: Vec<String>)
    requires
        s < e < lines@.len(),
    ensures
        r.deep_view() == cut_block(lines.deep_view(), s as int, e as int),
{
    let ghost ls = lines.deep_view();
    let n = lines.len();
    let lo: usize = if s > 0 && lines[s - 1].unicode_len() == 0 {
        s - 1
    } else {
        s
    };
    let hi: usize = if e + 1 < n && lines[e + 1].unicode_len() == 0 {
        e + 1
    } else {
        e
    };
    proof {
        if s > 0 {
            assert(ls[s - 1] == lines@[s - 1]@);
        }
        if e + 1 < n {
            assert(ls[e + 1] == lines@[e + 1]@);
        }
        assert(lo == cut_from(ls, s as int));
        assert(hi + 1 == cut_to(ls, e as int));
    }
    let mut cut: Vec<String> = Vec::new();
    let mut k: usize = 0;
    while k < n
        invariant
            n == lines@.len(),
            ls == lines.deep_view(),
            lo <= hi < n,
            k <= n,
            cut.deep_view() == ls.subrange(0, if k <= lo {
                k as int
            } else {
                lo as int
            }) + ls.subrange(hi + 1, if k <= hi + 1 {
                hi + 1
            } else {
                k as int
            }),
        decreases n - k,
    {
        let ghost before = cut.deep_view();
        if k < lo || k > hi {
            cut.push(lines[k].clone());
            assert(cut.deep_view() =~= before.push(ls[k as int]));
        }
        k = k + 1;
        assert(cut.deep_view() =~= ls.subrange(0, if k <= lo {
            k as int
        } else {
            lo as int
        }) + ls.subrange(hi + 1, if k <= hi + 1 {
            hi + 1
        } else {
            k as int
        }));
    }
    assert(cut.deep_view() =~= cut_block(ls, s as int, e as int));
    cut
}

/// Remove every ImLag-managed block, with the empty line that sets it
/// apart on either side, and any orphaned legacy lines.
pub fn remove_imlag_section(lines: &mut Vec<String>)
    ensures
        final(lines).deep_view() == remove_section_spec(old(lines).deep_view()),
{
    let ghost ls = lines.deep_view();
    let mut done = false;
    while !done
        invariant
            drop_blocks(lines.deep_view()) == drop_blocks(ls),
            done ==> scan_section(lines.deep_view(), 0, None) is None,
        decreases lines@.len() + (if done {
            0int
        } else {
            1int
        }),
    {
        match find_section(lines) {
            Some((s, e)) => {
                proof {
                    lemma_scan_bounds(lines.deep_view(), 0, None);
                }
                let next = cut_section(lines, s, e);
                *lines = next;
            },
            None => {
                done = true;
            },
        }
    }
    // Drop orphaned legacy lines that escaped the comment block.
    let ghost c = lines.deep_view();
    assert(c == drop_blocks(ls));
    let mut kept: Vec<String> = Vec::new();
    let mut j: usize = 0;
    assert(c.take(0) =~= Seq::<Seq<char>>::empty());
    while j < lines.len()
        invariant
            j <= lines@.len(),
            c == lines.deep_view(),
            kept.deep_view() == drop_legacy(c.take(j as int)),
        decreases lines@.len() - j,
    {
        assert(c.take(j + 1).drop_last() == c.take(j as int));
        assert(c.take(j + 1).last() == c[j as int]);
        if !is_legacy_line_exec(&lines[j]) {
            let ghost before = kept.deep_view();
            kept.push(lines[j].clone());
            assert(kept.deep_view() =~= before.push(c[j as int]));
        }
        j = j + 1;
    }
    assert(c.take(lines@.len() as int) == c);
    *lines = kept;
}

/// The lines of the ImLag block for a bind token.
fn section_block_exec(tok: &String) -> (r: Vec<String>)
    ensures
        r.deep_view() == section_block(tok@),
{
    let mut r: Vec<String> = Vec::new();
    r.push(String::new());
    r.push(String::from_str(comment_start_str()));
    r.push(String::from_str("// This block is automatically managed by ImLag."));
    r.push(String::from_str("// The dispatch cfg is empty until ImLag rewrites it on a"));
    r.push(String::from_str("// death event, so pressing the trigger by hand is a no-op."));
    let bind = String::from_str("bind \"").concat(tok.as_str()).concat("\" \"exec imlag_say\"");
    r.push(bind);
    let echo = String::from_str("echo \"ImLag: '").concat(tok.as_str()).concat(
        "' bound to imlag_say.cfg\"",
    );
    r.push(echo);
    r.push(String::from_str(comment_end_str()));
    r.push(String::new());
    assert(r.deep_view() =~= section_block(tok@));
    r
}

/// Append the ImLag block that binds the configured trigger key to
/// `exec imlag_say`, and move `host_writeconfig` to the end.
pub fn add_imlag_section(lines: &mut Vec<String>, cfg: &AppConfig)
    ensures
        final(lines).deep_view() == add_section_spec(old(lines).deep_view(), cfg@.trigger_key),
{
    let tok = format_bind_token(cfg.trigger_key.as_str());
    let block = section_block_exec(&tok);
    let ghost all = old(lines).deep_view() + block.deep_view();
    let mut joined: Vec<String> = lines.clone();
    assert(joined.deep_view() =~= old(lines).deep_view());
    let mut b: usize = 0;
    while b < block.len()
        invariant
            b <= block@.len(),
            joined.deep_view() == old(lines).deep_view() + block.deep_view().take(b as int),
        decreases block@.len() - b,
    {
        let ghost before = joined.deep_view();
        joined.push(block[b].clone());
        assert(joined.deep_view() =~= before.push(block.deep_view()[b as int]));
        assert(block.deep_view().take(b + 1) =~= block.deep_view().take(b as int).push(
            block.deep_view()[b as int],
        ));
        b = b + 1;
    }
    assert(block.deep_view().take(block@.len() as int) == block.deep_view());
    let mut kept: Vec<String> = Vec::new();
    let mut j: usize = 0;
    assert(all.take(0) =~= Seq::<Seq<char>>::empty());
    while j < joined.len()
        invariant
            j <= joined@.len(),
            all == joined.deep_view(),
            kept.deep_view() == drop_hwc(all.take(j as int)),
        decreases joined@.len() - j,
    {
        assert(all.take(j + 1).drop_last() == all.take(j as int));
        assert(all.take(j + 1).last() == all[j as int]);
        if !is_hwc_line_exec(&joined[j]) {
            let ghost before = kept.deep_view();
            kept.push(joined[j].clone());
            assert(kept.deep_view() =~= before.push(all[j as int]));
        }
        j = j + 1;
    }
    assert(all.take(joined@.len() as int) == all);
    let ghost before = kept.deep_view();
    kept.push(String::from_str("host_writeconfig"));
    assert(kept.deep_view() =~= before.push(host_writeconfig()));
    *lines = kept;
}

/// A line without the carriage returns at its end.
fn drop_cr_end_exec(l: &String) -> (r: String)
    ensures
        r@ == drop_cr_end(l@),
{
    let v = chars_of(l.as_str());
    let mut k = v.len();
    assert(v@.take(k as int) =~= l@);
    while k > 0 && v[k - 1] == '\r'
        invariant
            k <= v@.len(),
            v@ == l@,
            drop_cr_end(l@) == drop_cr_end(v@.take(k as int)),
        decreases k,
    {
        assert(v@.take(k as int).drop_last() =~= v@.take(k - 1));
        k = k - 1;
    }
    proof {
        lemma_drop_cr_end(v@.take(k as int));
    }
    crate::text::string_of(v.as_slice(), 0, k)
}

/// Each line without the carriage returns at its end.
fn clean_lines_exec(ls: Vec<String>) -> (r: Vec<String>)
    ensures
        r.deep_view() == clean_lines(ls.deep_view()),
{
    let mut out: Vec<String> = Vec::new();
    let mut i: usize = 0;
    while i < ls.len()
        invariant
            i <= ls@.len(),
            out.deep_view() == clean_lines(ls.deep_view()).take(i as int),
        decreases ls@.len() - i,
    {
        let ghost before = out.deep_view();
        let c = drop_cr_end_exec(&ls[i]);
        assert(ls.deep_view()[i as int] == ls@[i as int]@);
        out.push(c);
        assert(out.deep_view() =~= before.push(c@));
        assert(out.deep_view() =~= clean_lines(ls.deep_view()).take(i + 1));
        i = i + 1;
    }
    assert(clean_lines(ls.deep_view()).take(ls@.len() as int) =~= clean_lines(ls.deep_view()));
    out
}

/// The text `update_autoexec` writes: the current `autoexec.cfg` (or a
/// fresh header when there is none) with its ImLag block replaced by one
/// for the configured trigger key.
pub fn autoexec_text(existing: Option<&str>, cfg: &AppConfig) -> (r: String)
    ensures
        r@ == autoexec_text_spec(
            match existing {
                Some(t) => Some(t@),
                None => None,
            },
            cfg@.trigger_key,
        ),
{
    let mut ls: Vec<String> = match existing {
        Some(t) => clean_lines_exec(lines_exec(t)),
        None => {
            let mut v: Vec<String> = Vec::new();
            v.push(String::from_str("// Counter-Strike 2 Autoexec Configuration File"));
            v.push(String::from_str("// Generated by ImLag"));
            v.push(String::new());
            assert(v.deep_view() =~= default_autoexec_lines());
            v
        },
    };
    remove_imlag_section(&mut ls);
    add_imlag_section(&mut ls, cfg);
    lines_to_file(&ls)
}

/// Lines joined as a file.
fn lines_to_file(ls: &Vec<String>) -> (r: String)
    ensures
        r@ == file_text(ls.deep_view()),
{
    let nl = vec!['\n'];
    let sep = string_of_all(nl.as_slice());
    assert(sep@ == seq!['\n']);
    let body = join_exec(ls, sep.as_str());
    body.concat(sep.as_str())
}

/// The text `restore` writes when there is no backup: the current
/// `autoexec.cfg` without the ImLag block and legacy lines.
pub fn restored_autoexec_text(existing: &str) -> (r: String)
    ensures
        r@ == file_text(remove_section_spec(lines(existing@))),
{
    let mut ls = lines_exec(existing);
    remove_imlag_section(&mut ls);
    lines_to_file(&ls)
}

/// Whether an `autoexec.cfg` text holds the ImLag-managed block markers.
pub fn autoexec_has_imlag_block(text: &str) -> (r: bool)
    ensures
        r == (contains(text@, comment_start()) && contains(text@, comment_end())),
{
    let t = chars_of(text);
    let s = chars_of(comment_start_str());
    let e = chars_of(comment_end_str());
    contains_exec(t.as_slice(), s.as_slice()) && contains_exec(t.as_slice(), e.as_slice())
}

/// Whether `update_autoexec` should back up the current `autoexec.cfg`:
/// only when no backup exists yet and the file holds no ImLag block, so
/// the backup is the user's own file and a second install takes none.
pub fn autoexec_backup_needed(existing: &str, backup_exists: bool) -> (r: bool)
    ensures
        r == (!backup_exists && !(contains(existing@, comment_start()) && contains(
            existing@,
            comment_end(),
        ))),
{
    !backup_exists && !autoexec_has_imlag_block(existing)
}

/// The content of the dispatch cfg for one message.
pub fn dispatch_cfg_body(message: &str, in_team_chat: bool) -> (r: String)
    ensures
        r@ == dispatch_body_spec(message@, in_team_chat),
{
    let escaped = escape_for_cfg(message);
    let verb = if in_team_chat {
        "say_team"
    } else {
        "say"
    };
    String::from_str("// ImLag dispatch \u{2014} generated at runtime\n").concat(verb).concat(
        " \"",
    ).concat(escaped.as_str()).concat("\"\n")
}

/// Whether a file in the cfg directory is a stale preset or selector from
/// older versions (`imlag_say_*.cfg`, but not the dispatch slot).
pub fn is_legacy_cfg_file(name: &str) -> (r: bool)
    ensures
        r == is_legacy_cfg_name(name@),
{
    let v = chars_of(name);
    let slot = chars_of(SAY_CFG_FILE);
    let pre = chars_of("imlag_say_");
    let suf = chars_of(".cfg");
    !same_chars(v.as_slice(), slot.as_slice()) && starts_with_exec(v.as_slice(), pre.as_slice())
        && ends_with_exec(v.as_slice(), suf.as_slice())
}

/// The key spec pressed to fire the dispatch: the trigger key, or `ins`
/// when it is blank.
pub fn dispatch_trigger_spec(trigger_key: &str) -> (r: String)
    ensures
        r@ == (if trim(trigger_key@).len() == 0 {
            "ins"@
        } else {
            trigger_key@
        }),
{
    let t = trimmed(trigger_key);
    if t.unicode_len() == 0 {
        String::from_str("ins")
    } else {
        String::from_str(trigger_key)
    }
}

/// The install directory the user configured, trimmed; `None` when blank
/// and the directory is to be discovered instead.
pub fn configured_cs2_path(cs2_path: &str) -> (r: Option<String>)
    ensures
        trim(cs2_path@).len() == 0 ==> r is None,
        trim(cs2_path@).len() > 0 ==> r is Some && r->0@ == trim(cs2_path@),
{
    let t = trimmed(cs2_path);
    if t.unicode_len() == 0 {
        None
    } else {
        Some(t)
    }
}

/// `fastrand::bool()`: a coin flip. The outcome is left to chance.
#[verifier::external_body]
fn coin_flip() -> bool {
    fastrand::bool()
}

/// Whether a dispatch goes to team chat, given the chat mode and, for
/// `Random`, the outcome of a coin flip.
pub fn team_chat_for(mode: CfgChatMode, coin: bool) -> (r: bool)
    ensures
        r == match mode {
            CfgChatMode::Global => false,
            CfgChatMode::Team => true,
            CfgChatMode::Random => coin,
        },
{
    match mode {
        CfgChatMode::Global => false,
        CfgChatMode::Team => true,
        CfgChatMode::Random => coin,
    }
}

/// Decide whether the next dispatch should target team chat. For
/// `Random` a fresh coin flip is made on every call.
pub fn select_in_team_chat(mode: CfgChatMode) -> (r: bool)
    ensures
        mode == CfgChatMode::Global ==> !r,
        mode == CfgChatMode::Team ==> r,
{
    let coin = if mode == CfgChatMode::Random {
        coin_flip()
    } else {
        false
    };
    team_chat_for(mode, coin)
}

} // verus!
