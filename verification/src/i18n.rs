//! Lightweight localisation: Simplified Chinese, Traditional Chinese and
//! English tables, with `{0}`, `{1}`, ... substitutions.
//!
//! The active language is held in a [`Locale`] value that the program
//! keeps for the whole process.

use vstd::prelude::*;
use crate::config::normalize_language;
use crate::config::normalize_language_spec;
use crate::text::{chars_are, chars_of, decimal, decimal_chars, replace, replace_exec};

verus! {

/// Default UI language tag.
pub const DEFAULT_LANGUAGE: &'static str = "zh-CN";

/// The characters of a table's entries.
pub open spec fn table_view(t: Seq<(&'static str, &'static str)>) -> Seq<(Seq<char>, Seq<char>)> {
    Seq::new(t.len(), |i: int| (t[i].0@, t[i].1@))
}

/// The text of the first entry of `t` for `key`.
pub open spec fn lookup(t: Seq<(Seq<char>, Seq<char>)>, key: Seq<char>) -> Option<Seq<char>>
    decreases t.len(),
{
    if t.len() == 0 {
        None
    } else if t[0].0 == key {
        Some(t[0].1)
    } else {
        lookup(t.drop_first(), key)
    }
}

/// The ZH-CN message table.
pub open spec fn table_zh_cn_spec() -> Seq<(Seq<char>, Seq<char>)> {
    seq![
        ("gsi.started"@, "GSI 监听已启动"@),
        ("gsi.stopped"@, "GSI 监听已停止"@),
        ("status.player_dead"@, "玩家 {0} 阵亡"@),
        ("status.player_kill"@, "玩家 {0} 完成击杀"@),
        ("status.corpus_empty"@, "语料库为空，无法发送消息"@),
        ("status.message_sent"@, "已发送：{0}"@),
        ("status.message_added"@, "已添加语料：{0}"@),
        ("status.message_removed"@, "已删除语料：{0}"@),
        ("status.corpus_imported"@, "导入完成：新增 {0} 条，跳过 {1} 条"@),
        ("dispatch.cfg_failed"@, "{0}触发的 CFG 发送失败：{1}"@),
        ("dispatch.chat_failed"@, "{0}触发的聊天发送失败：{1}"@),
        ("trigger.death"@, "死亡"@),
        ("trigger.kill"@, "击杀"@),
    ]
}

/// The ZH-TW message table.
pub open spec fn table_zh_tw_spec() -> Seq<(Seq<char>, Seq<char>)> {
    seq![
        ("gsi.started"@, "GSI 監聽已啟動"@),
        ("gsi.stopped"@, "GSI 監聽已停止"@),
        ("status.player_dead"@, "玩家 {0} 陣亡"@),
        ("status.player_kill"@, "玩家 {0} 完成擊殺"@),
        ("status.corpus_empty"@, "語料庫為空，無法發送訊息"@),
        ("status.message_sent"@, "已發送：{0}"@),
        ("status.message_added"@, "已新增語料：{0}"@),
        ("status.message_removed"@, "已刪除語料：{0}"@),
        ("status.corpus_imported"@, "匯入完成：新增 {0} 條，略過 {1} 條"@),
        ("dispatch.cfg_failed"@, "{0}觸發的 CFG 發送失敗：{1}"@),
        ("dispatch.chat_failed"@, "{0}觸發的聊天發送失敗：{1}"@),
        ("trigger.death"@, "死亡"@),
        ("trigger.kill"@, "擊殺"@),
    ]
}

/// The EN message table.
pub open spec fn table_en_spec() -> Seq<(Seq<char>, Seq<char>)> {
    seq![
        ("gsi.started"@, "GSI listener started"@),
        ("gsi.stopped"@, "GSI listener stopped"@),
        ("status.player_dead"@, "Player {0} died"@),
        ("status.player_kill"@, "Player {0} got a kill"@),
        ("status.corpus_empty"@, "The corpus is empty; nothing to send"@),
        ("status.message_sent"@, "Sent: {0}"@),
        ("status.message_added"@, "Added: {0}"@),
        ("status.message_removed"@, "Removed: {0}"@),
        ("status.corpus_imported"@, "Import finished: {0} added, {1} skipped"@),
        ("dispatch.cfg_failed"@, "CFG dispatch on {0} failed: {1}"@),
        ("dispatch.chat_failed"@, "Chat send on {0} failed: {1}"@),
        ("trigger.death"@, "death"@),
        ("trigger.kill"@, "kill"@),
    ]
}

/// The ZH-CN message table.
fn table_zh_cn() -> (r: Vec<(&'static str, &'static str)>)
    ensures
        table_view(r@) == table_zh_cn_spec(),
{
    let mut r: Vec<(&'static str, &'static str)> = Vec::new();
    r.push(("gsi.started", "GSI 监听已启动"));
    r.push(("gsi.stopped", "GSI 监听已停止"));
    r.push(("status.player_dead", "玩家 {0} 阵亡"));
    r.push(("status.player_kill", "玩家 {0} 完成击杀"));
    r.push(("status.corpus_empty", "语料库为空，无法发送消息"));
    r.push(("status.message_sent", "已发送：{0}"));
    r.push(("status.message_added", "已添加语料：{0}"));
    r.push(("status.message_removed", "已删除语料：{0}"));
    r.push(("status.corpus_imported", "导入完成：新增 {0} 条，跳过 {1} 条"));
    r.push(("dispatch.cfg_failed", "{0}触发的 CFG 发送失败：{1}"));
    r.push(("dispatch.chat_failed", "{0}触发的聊天发送失败：{1}"));
    r.push(("trigger.death", "死亡"));
    r.push(("trigger.kill", "击杀"));
    assert(table_view(r@) =~= table_zh_cn_spec());
    r
}

/// The ZH-TW message table.
fn table_zh_tw() -> (r: Vec<(&'static str, &'static str)>)
    ensures
        table_view(r@) == table_zh_tw_spec(),
{
    let mut r: Vec<(&'static str, &'static str)> = Vec::new();
    r.push(("gsi.started", "GSI 監聽已啟動"));
    r.push(("gsi.stopped", "GSI 監聽已停止"));
    r.push(("status.player_dead", "玩家 {0} 陣亡"));
    r.push(("status.player_kill", "玩家 {0} 完成擊殺"));
    r.push(("status.corpus_empty", "語料庫為空，無法發送訊息"));
    r.push(("status.message_sent", "已發送：{0}"));
    r.push(("status.message_added", "已新增語料：{0}"));
    r.push(("status.message_removed", "已刪除語料：{0}"));
    r.push(("status.corpus_imported", "匯入完成：新增 {0} 條，略過 {1} 條"));
    r.push(("dispatch.cfg_failed", "{0}觸發的 CFG 發送失敗：{1}"));
    r.push(("dispatch.chat_failed", "{0}觸發的聊天發送失敗：{1}"));
    r.push(("trigger.death", "死亡"));
    r.push(("trigger.kill", "擊殺"));
    assert(table_view(r@) =~= table_zh_tw_spec());
    r
}

/// The EN message table.
fn table_en() -> (r: Vec<(&'static str, &'static str)>)
    ensures
        table_view(r@) == table_en_spec(),
{
    let mut r: Vec<(&'static str, &'static str)> = Vec::new();
    r.push(("gsi.started", "GSI listener started"));
    r.push(("gsi.stopped", "GSI listener stopped"));
    r.push(("status.player_dead", "Player {0} died"));
    r.push(("status.player_kill", "Player {0} got a kill"));
    r.push(("status.corpus_empty", "The corpus is empty; nothing to send"));
    r.push(("status.message_sent", "Sent: {0}"));
    r.push(("status.message_added", "Added: {0}"));
    r.push(("status.message_removed", "Removed: {0}"));
    r.push(("status.corpus_imported", "Import finished: {0} added, {1} skipped"));
    r.push(("dispatch.cfg_failed", "CFG dispatch on {0} failed: {1}"));
    r.push(("dispatch.chat_failed", "Chat send on {0} failed: {1}"));
    r.push(("trigger.death", "death"));
    r.push(("trigger.kill", "kill"));
    assert(table_view(r@) =~= table_en_spec());
    r
}

/// The table for a language tag: `zh-TW`, `en`, or else `zh-CN`.
pub open spec fn table_for_spec(lang: Seq<char>) -> Seq<(Seq<char>, Seq<char>)> {
    if lang == "zh-TW"@ {
        table_zh_tw_spec()
    } else if lang == "en"@ {
        table_en_spec()
    } else {
        table_zh_cn_spec()
    }
}

/// The template of `key` in `lang`: its entry there, else its entry in
/// the default language, else the key itself.
pub open spec fn template_spec(lang: Seq<char>, key: Seq<char>) -> Seq<char> {
    match lookup(table_for_spec(lang), key) {
        Some(v) => v,
        None => match lookup(table_zh_cn_spec(), key) {
            Some(v) => v,
            None => key,
        },
    }
}

/// The placeholder for argument `i`: `{i}`.
pub open spec fn placeholder(i: nat) -> Seq<char> {
    seq!['{'] + decimal(i) + seq!['}']
}

/// `s` with `{0}` replaced by `args[0]`, then `{1}` by `args[1]`, and so on.
pub open spec fn substitute(s: Seq<char>, args: Seq<Seq<char>>) -> Seq<char>
    decreases args.len(),
{
    if args.len() == 0 {
        s
    } else {
        replace(
            substitute(s, args.drop_last()),
            placeholder((args.len() - 1) as nat),
            args.last(),
        )
    }
}

/// The characters of string arguments.
pub open spec fn args_view(args: Seq<&str>) -> Seq<Seq<char>> {
    Seq::new(args.len(), |i: int| args[i]@)
}

/// The active language of the process.
pub struct Locale {
    current: Option<String>,
}

/// One of the three supported language tags.
pub open spec fn is_supported_language(tag: Seq<char>) -> bool {
    tag == "zh-CN"@ || tag == "zh-TW"@ || tag == "en"@
}

/// The active language tag: the one set last, or `zh-CN`.
pub open spec fn current_language_spec(l: Locale) -> Seq<char> {
    match l.current() {
        Some(s) => s,
        None => "zh-CN"@,
    }
}

impl Locale {
    /// A language that has been set is one of the supported tags.
    #[verifier::type_invariant]
    closed spec fn inv(self) -> bool {
        match self.current {
            Some(s) => is_supported_language(s@),
            None => true,
        }
    }

    /// The language set last, if any.
    pub closed spec fn current(self) -> Option<Seq<char>> {
        match self.current {
            Some(s) => Some(s@),
            None => None,
        }
    }

    /// A locale with no language set yet.
    pub fn new() -> (r: Self)
        ensures
            r.current() is None,
    {
        Locale { current: None }
    }
}

/// Override the active language; any spelling is normalised first.
pub fn set_language(locale: &mut Locale, language: &str)
    ensures
        final(locale).current() == Some(normalize_language_spec(language@)),
{
    locale.current = Some(normalize_language(language));
}

/// The active language tag (defaults to `"zh-CN"`).
pub fn current_language(locale: &Locale) -> (r: String)
    ensures
        r@ == current_language_spec(*locale),
        is_supported_language(r@),
{
    proof {
        use_type_invariant(locale);
    }
    match &locale.current {
        Some(s) => s.clone(),
        None => String::from_str(DEFAULT_LANGUAGE),
    }
}

/// The table for a language tag.
fn table_for(language: &str) -> (r: Vec<(&'static str, &'static str)>)
    ensures
        table_view(r@) == table_for_spec(language@),
{
    let v = chars_of(language);
    if chars_are(v.as_slice(), "zh-TW") {
        table_zh_tw()
    } else if chars_are(v.as_slice(), "en") {
        table_en()
    } else {
        table_zh_cn()
    }
}

/// The text of the first entry of `t` for `key`.
fn lookup_exec(t: &Vec<(&'static str, &'static str)>, key: &str) -> (r: Option<&'static str>)
    ensures
        match r {
            Some(v) => lookup(table_view(t@), key@) == Some(v@),
            None => lookup(table_view(t@), key@) is None,
        },
{
    let k = chars_of(key);
    let ghost tv = table_view(t@);
    let mut i: usize = 0;
    assert(tv.skip(0) == tv);
    while i < t.len()
        invariant
            i <= t@.len(),
            tv == table_view(t@),
            k@ == key@,
            lookup(tv, key@) == lookup(tv.skip(i as int), key@),
        decreases t@.len() - i,
    {
        let (ek, ev) = t[i];
        assert(tv.skip(i as int)[0] == (ek@, ev@));
        if chars_are(k.as_slice(), ek) {
            return Some(ev);
        }
        assert(tv.skip(i as int).drop_first() == tv.skip(i + 1));
        i = i + 1;
    }
    None
}

/// The template of `key` in the active language.
fn template(locale: &Locale, key: &str) -> (r: String)
    ensures
        r@ == template_spec(current_language_spec(*locale), key@),
{
    let lang = current_language(locale);
    let table = table_for(lang.as_str());
    match lookup_exec(&table, key) {
        Some(v) => String::from_str(v),
        None => {
            let fallback = table_zh_cn();
            match lookup_exec(&fallback, key) {
                Some(v) => String::from_str(v),
                None => String::from_str(key),
            }
        },
    }
}

/// The message for `key` in the active language.
pub fn t(locale: &Locale, key: &str) -> (r: String)
    ensures
        r@ == template_spec(current_language_spec(*locale), key@),
{
    template(locale, key)
}

/// The message for `key`, with `{0}`, `{1}`, ... replaced by `args`.
pub fn t_args(locale: &Locale, key: &str, args: &[&str]) -> (r: String)
    ensures
        r@ == substitute(
            template_spec(current_language_spec(*locale), key@),
            args_view(args@),
        ),
{
    let out = template(locale, key);
    let mut cur = chars_of(out.as_str());
    let ghost base = out@;
    let ghost av = args_view(args@);
    let mut i: usize = 0;
    assert(av.take(0) =~= Seq::<Seq<char>>::empty());
    while i < args.len()
        invariant
            i <= args@.len(),
            av == args_view(args@),
            cur@ == substitute(base, av.take(i as int)),
        decreases args@.len() - i,
    {
        let mut needle: Vec<char> = vec!['{'];
        let digits = decimal_chars(i as u64);
        let mut k: usize = 0;
        while k < digits.len()
            invariant
                k <= digits@.len(),
                needle@ == seq!['{'] + digits@.take(k as int),
            decreases digits@.len() - k,
        {
            needle.push(digits[k]);
            k = k + 1;
            assert(needle@ =~= seq!['{'] + digits@.take(k as int));
        }
        needle.push('}');
        assert(digits@.take(digits@.len() as int) == digits@);
        assert(needle@ =~= placeholder(i as nat));
        let value = chars_of(args[i]);
        assert(av.take(i + 1).drop_last() == av.take(i as int));
        assert(av.take(i + 1).last() == value@);
        cur = replace_exec(cur.as_slice(), needle.as_slice(), value.as_slice());
        i = i + 1;
    }
    assert(av.take(args@.len() as int) == av);
    crate::text::string_of_all(cur.as_slice())
}

/// Each supported language translates every key of its own table to
/// that table's first entry for the key: Traditional Chinese from the
/// zh-TW table, English from the en table, Simplified Chinese from the
/// zh-CN table.
pub proof fn lemma_language_uses_its_table(key: Seq<char>, text: Seq<char>)
    ensures
        lookup(table_zh_tw_spec(), key) == Some(text) ==> template_spec("zh-TW"@, key) == text,
        lookup(table_en_spec(), key) == Some(text) ==> template_spec("en"@, key) == text,
        lookup(table_zh_cn_spec(), key) == Some(text) ==> template_spec("zh-CN"@, key) == text,
{
    reveal_strlit("zh-TW");
    reveal_strlit("en");
    reveal_strlit("zh-CN");
    assert("en"@.len() != "zh-TW"@.len());
    assert("zh-CN"@.len() != "en"@.len());
    assert("zh-CN"@[3] != "zh-TW"@[3]);
}

/// The message for a key of the active language's table is that table's
/// entry: after `set_language(l, "zh-TW")`, `t(l, key)` is the zh-TW
/// text, and so on for each language.
pub proof fn lemma_active_language_table(l: Locale, key: Seq<char>, text: Seq<char>)
    ensures
        l.current() == Some("zh-TW"@) && lookup(table_zh_tw_spec(), key) == Some(text)
            ==> template_spec(current_language_spec(l), key) == text,
        l.current() == Some("en"@) && lookup(table_en_spec(), key) == Some(text)
            ==> template_spec(current_language_spec(l), key) == text,
        current_language_spec(l) == "zh-CN"@ && lookup(table_zh_cn_spec(), key) == Some(text)
            ==> template_spec(current_language_spec(l), key) == text,
{
    lemma_language_uses_its_table(key, text);
}

/// After `set_language(x)` the active language is `x` normalised.
pub proof fn lemma_set_then_current(l: Locale, language: Seq<char>)
    requires
        l.current() == Some(normalize_language_spec(language)),
    ensures
        current_language_spec(l) == normalize_language_spec(language),
{
}

} // verus!
