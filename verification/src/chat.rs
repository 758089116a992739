//! Corpus management: the pool of chat messages, with import, removal and
//! random choice.
//!
//! Reading and writing `Messages.txt`, and fetching a corpus from a URL,
//! belong to the program around this library; it hands the text it read to
//! [`parse_text`] and writes back what [`ChatMessageManager::to_text`] gives.

use vstd::prelude::*;
use crate::text::{
    chars_of, join, join_exec, lemma_trim_idempotent, replace, replace_exec, split, split_exec,
    string_of, string_of_all, trim, trim_bounds, trimmed,
};

verus! {

/// Default file name of the corpus.
pub const MESSAGES_FILE: &'static str = "Messages.txt";

/// Outcome of an import operation.
#[derive(Debug, Clone, Copy, PartialEq, Eq, Structural)]
pub struct ImportResult {
    /// Newly added (non-duplicate, non-empty) messages.
    pub added: usize,
    /// Skipped because empty / duplicate.
    pub skipped: usize,
}

impl Default for ImportResult {
    fn default() -> (r: Self)
        ensures
            r.added == 0 && r.skipped == 0,
    {
        ImportResult { added: 0, skipped: 0 }
    }
}

// ---------------------------------------------------------------------
// Specification
// ---------------------------------------------------------------------

/// A well-formed corpus: every message is trimmed and non-empty, and no
/// message occurs twice.
pub open spec fn corpus_wf(s: Seq<Seq<char>>) -> bool {
    &&& forall|i: int| 0 <= i < s.len() ==> #[trigger] trim(s[i]) == s[i] && s[i].len() > 0
    &&& forall|i: int, j: int| 0 <= i < j < s.len() ==> s[i] != s[j]
}

/// What adding `m` to `s` gives: its trimmed form is appended when it is
/// non-empty and not there yet.
pub open spec fn add_spec(s: Seq<Seq<char>>, m: Seq<char>) -> Seq<Seq<char>> {
    let t = trim(m);
    if t.len() > 0 && !s.contains(t) {
        s.push(t)
    } else {
        s
    }
}

/// `s` without the entries equal to `t`, order kept.
pub open spec fn without(s: Seq<Seq<char>>, t: Seq<char>) -> Seq<Seq<char>>
    decreases s.len(),
{
    if s.len() == 0 {
        s
    } else {
        let r = without(s.drop_last(), t);
        if s.last() == t {
            r
        } else {
            r.push(s.last())
        }
    }
}

/// What removing `m` from `s` gives.
pub open spec fn remove_spec(s: Seq<Seq<char>>, m: Seq<char>) -> Seq<Seq<char>> {
    without(s, trim(m))
}

/// `items` added one after the other, from the first, to `acc`.
pub open spec fn absorb(acc: Seq<Seq<char>>, items: Seq<Seq<char>>) -> Seq<Seq<char>>
    decreases items.len(),
{
    if items.len() == 0 {
        acc
    } else {
        add_spec(absorb(acc, items.drop_last()), items.last())
    }
}

/// The trimmed, non-empty entries of `items`, in order.
pub open spec fn clean(items: Seq<Seq<char>>) -> Seq<Seq<char>>
    decreases items.len(),
{
    if items.len() == 0 {
        items
    } else {
        let r = clean(items.drop_last());
        let t = trim(items.last());
        if t.len() > 0 {
            r.push(t)
        } else {
            r
        }
    }
}

/// Whether trimmed text looks like a JSON array: it starts with `[` and
/// ends with `]`.
pub open spec fn bracketed(t: Seq<char>) -> bool {
    t.len() > 0 && t[0] == '[' && t.last() == ']'
}

/// What serde_json's `from_str::<Vec<String>>` gives for `text`: the
/// strings of a JSON array, or `None` when `text` is not one.
pub uninterp spec fn json_string_array(text: Seq<char>) -> Option<Seq<Seq<char>>>;

/// The messages of plain text: line breaks (`\r\n`, `\r`, `\n`) split it,
/// and each line is trimmed; blank lines are dropped.
pub open spec fn text_lines_spec(t: Seq<char>) -> Seq<Seq<char>> {
    clean(split(replace(replace(t, seq!['\r', '\n'], seq!['\n']), seq!['\r'], seq!['\n']), '\n'))
}

/// The messages of `content`, given what the JSON parser made of its
/// trimmed text.
pub open spec fn parse_text_spec(content: Seq<char>, json: Option<Seq<Seq<char>>>) -> Seq<
    Seq<char>,
> {
    let t = trim(content);
    if bracketed(t) && json is Some {
        clean(json->0)
    } else {
        text_lines_spec(t)
    }
}

// ---------------------------------------------------------------------
// Lemmas and laws
// ---------------------------------------------------------------------

/// Every character left by `trim_start` is a character of the input.
proof fn lemma_trim_start_chars(s: Seq<char>)
    ensures
        forall|j: int|
            0 <= j < crate::text::trim_start(s).len() ==> s.contains(
                #[trigger] crate::text::trim_start(s)[j],
            ),
    decreases s.len(),
{
    if s.len() > 0 && crate::text::is_ws(s[0]) {
        let r = s.drop_first();
        lemma_trim_start_chars(r);
        assert forall|j: int|
            0 <= j < crate::text::trim_start(s).len() implies s.contains(
            #[trigger] crate::text::trim_start(s)[j],
        ) by {
            let x = crate::text::trim_start(s)[j];
            assert(crate::text::trim_start(s) == crate::text::trim_start(r));
            assert(x == crate::text::trim_start(r)[j]);
            assert(r.contains(x));
            let k = choose|k: int| 0 <= k < r.len() && r[k] == x;
            assert(s[k + 1] == x);
        }
    } else {
        assert forall|j: int|
            0 <= j < crate::text::trim_start(s).len() implies s.contains(
            #[trigger] crate::text::trim_start(s)[j],
        ) by {
            assert(s[j] == crate::text::trim_start(s)[j]);
        }
    }
}

/// Every character left by `trim_end` is a character of the input.
proof fn lemma_trim_end_chars(s: Seq<char>)
    ensures
        forall|j: int|
            0 <= j < crate::text::trim_end(s).len() ==> s.contains(
                #[trigger] crate::text::trim_end(s)[j],
            ),
    decreases s.len(),
{
    if s.len() > 0 && crate::text::is_ws(s.last()) {
        let r = s.drop_last();
        lemma_trim_end_chars(r);
        assert forall|j: int|
            0 <= j < crate::text::trim_end(s).len() implies s.contains(
            #[trigger] crate::text::trim_end(s)[j],
        ) by {
            let x = crate::text::trim_end(s)[j];
            assert(crate::text::trim_end(s) == crate::text::trim_end(r));
            assert(x == crate::text::trim_end(r)[j]);
            assert(r.contains(x));
            let k = choose|k: int| 0 <= k < r.len() && r[k] == x;
            assert(s[k] == x);
        }
    } else {
        assert forall|j: int|
            0 <= j < crate::text::trim_end(s).len() implies s.contains(
            #[trigger] crate::text::trim_end(s)[j],
        ) by {
            assert(s[j] == crate::text::trim_end(s)[j]);
        }
    }
}

/// A character absent from `s` is absent from `trim(s)`.
proof fn lemma_trim_lacks(s: Seq<char>, c: char)
    requires
        !s.contains(c),
    ensures
        !trim(s).contains(c),
{
    let a = crate::text::trim_start(s);
    lemma_trim_start_chars(s);
    lemma_trim_end_chars(a);
    if trim(s).contains(c) {
        let j = choose|j: int| 0 <= j < trim(s).len() && trim(s)[j] == c;
        assert(a.contains(trim(s)[j]));
        let k = choose|k: int| 0 <= k < a.len() && a[k] == c;
        assert(s.contains(a[k]));
    }
}

/// Replacing every `c` by text without `c` leaves no `c`.
proof fn lemma_replace_removes(s: Seq<char>, c: char, rep: Seq<char>)
    requires
        !rep.contains(c),
    ensures
        !replace(s, seq![c], rep).contains(c),
    decreases s.len(),
{
    let r = replace(s, seq![c], rep);
    if s.len() >= 1 {
        let rest = replace(s.drop_first(), seq![c], rep);
        lemma_replace_removes(s.drop_first(), c, rep);
        if s.take(1) == seq![c] {
            assert(s.skip(1) == s.drop_first());
            assert(r == rep + rest);
            if r.contains(c) {
                let k = choose|k: int| 0 <= k < r.len() && r[k] == c;
                if k < rep.len() {
                    assert(rep[k] == c);
                } else {
                    assert(rest[k - rep.len()] == c);
                }
            }
        } else {
            assert(s[0] != c) by {
                if s[0] == c {
                    assert(s.take(1) =~= seq![c]);
                }
            }
            assert(r == seq![s[0]] + rest);
            if r.contains(c) {
                let k = choose|k: int| 0 <= k < r.len() && r[k] == c;
                if k > 0 {
                    assert(rest[k - 1] == c);
                }
            }
        }
    }
}

/// The pieces of a split hold neither the separator nor any character
/// that the text and the piece begun so far lack.
proof fn lemma_split_lacks(s: Seq<char>, sep: char, cur: Seq<char>, c: char)
    requires
        !cur.contains(c),
        c == sep || !s.contains(c),
    ensures
        forall|i: int|
            0 <= i < crate::text::split_from(s, sep, cur).len() ==> !(
            #[trigger] crate::text::split_from(s, sep, cur)[i]).contains(c),
    decreases s.len(),
{
    let p = crate::text::split_from(s, sep, cur);
    if s.len() > 0 {
        let t = s.drop_first();
        assert(c == sep || !t.contains(c)) by {
            if c != sep && t.contains(c) {
                let k = choose|k: int| 0 <= k < t.len() && t[k] == c;
                assert(s[k + 1] == c);
            }
        }
        if s[0] == sep {
            lemma_split_lacks(t, sep, Seq::empty(), c);
            let r = crate::text::split_from(t, sep, Seq::empty());
            assert forall|i: int| 0 <= i < p.len() implies !(#[trigger] p[i]).contains(c) by {
                if i > 0 {
                    assert(p[i] == r[i - 1]);
                } else {
                    assert(p[i] == cur);
                }
            }
        } else {
            assert(s[0] != c) by {
                if s[0] == c {
                    assert(s.contains(s[0]));
                }
            }
            assert(!cur.push(s[0]).contains(c)) by {
                if cur.push(s[0]).contains(c) {
                    let k = choose|k: int| 0 <= k < cur.push(s[0]).len() && cur.push(s[0])[k] == c;
                    if k < cur.len() {
                        assert(cur[k] == c);
                    }
                }
            }
            lemma_split_lacks(t, sep, cur.push(s[0]), c);
            assert(p == crate::text::split_from(t, sep, cur.push(s[0])));
        }
    } else {
        assert(p == seq![cur]);
        assert forall|i: int| 0 <= i < p.len() implies !(#[trigger] p[i]).contains(c) by {
            assert(p[i] == cur);
        }
    }
}

/// The messages `clean` keeps are exactly the trimmed items that are not
/// blank: each is one of them, non-empty and its own trim, and none of
/// them is left out.
pub proof fn lemma_clean_exact(items: Seq<Seq<char>>)
    ensures
        forall|j: int|
            0 <= j < clean(items).len() ==> (#[trigger] clean(items)[j]).len() > 0 && trim(
                clean(items)[j],
            ) == clean(items)[j] && exists|i: int|
                0 <= i < items.len() && clean(items)[j] == trim(#[trigger] items[i]),
        forall|i: int|
            0 <= i < items.len() && trim(#[trigger] items[i]).len() > 0 ==> clean(items).contains(
                trim(items[i]),
            ),
    decreases items.len(),
{
    if items.len() > 0 {
        let p = items.drop_last();
        let r = clean(p);
        let t = trim(items.last());
        lemma_clean_exact(p);
        lemma_trim_idempotent(items.last());
        let c = clean(items);
        assert forall|j: int| 0 <= j < c.len() implies (#[trigger] c[j]).len() > 0 && trim(c[j])
            == c[j] && exists|i: int| 0 <= i < items.len() && c[j] == trim(#[trigger] items[i]) by {
            if j < r.len() {
                assert(c[j] == r[j]);
                let i = choose|i: int| 0 <= i < p.len() && r[j] == trim(#[trigger] p[i]);
                assert(items[i] == p[i]);
            } else {
                assert(c[j] == t);
                assert(items[items.len() - 1] == items.last());
            }
        }
        assert forall|i: int|
            0 <= i < items.len() && trim(#[trigger] items[i]).len() > 0 implies c.contains(
            trim(items[i]),
        ) by {
            if i < p.len() {
                assert(items[i] == p[i]);
                assert(r.contains(trim(p[i])));
                let k = choose|k: int| 0 <= k < r.len() && r[k] == trim(p[i]);
                if t.len() > 0 {
                    assert(c[k] == r[k]);
                }
            } else {
                assert(c[c.len() - 1] == t);
            }
        }
    }
}

/// Every message of an imported text is non-empty and its own trim. A
/// JSON array gives the trimmed non-blank strings of the array, each of
/// them; plain text gives lines, none of which holds a line break.
pub proof fn lemma_parse_text_messages(content: Seq<char>, json: Option<Seq<Seq<char>>>)
    ensures
        forall|i: int|
            0 <= i < parse_text_spec(content, json).len() ==> (
            #[trigger] parse_text_spec(content, json)[i]).len() > 0 && trim(
                parse_text_spec(content, json)[i],
            ) == parse_text_spec(content, json)[i],
        !(bracketed(trim(content)) && json is Some) ==> forall|i: int|
            0 <= i < parse_text_spec(content, json).len() ==> !(
            #[trigger] parse_text_spec(content, json)[i]).contains('\n') && !parse_text_spec(
                content,
                json,
            )[i].contains('\r'),
        bracketed(trim(content)) && json is Some ==> {
            let items = json->0;
            &&& forall|j: int|
                0 <= j < parse_text_spec(content, json).len() ==> exists|i: int|
                    0 <= i < items.len() && #[trigger] parse_text_spec(content, json)[j] == trim(
                        #[trigger] items[i],
                    )
            &&& forall|i: int|
                0 <= i < items.len() && trim(#[trigger] items[i]).len() > 0
                    ==> parse_text_spec(content, json).contains(trim(items[i]))
        },
{
    let t = trim(content);
    if bracketed(t) && json is Some {
        lemma_clean_exact(json->0);
    } else {
        let a = replace(t, seq!['\r', '\n'], seq!['\n']);
        let b = replace(a, seq!['\r'], seq!['\n']);
        let pieces = split(b, '\n');
        lemma_clean_exact(pieces);
        lemma_replace_removes(a, '\r', seq!['\n']);
        lemma_split_lacks(b, '\n', Seq::empty(), '\n');
        lemma_split_lacks(b, '\n', Seq::empty(), '\r');
        let r = parse_text_spec(content, json);
        assert(r == clean(pieces));
        assert forall|j: int| 0 <= j < r.len() implies !(#[trigger] r[j]).contains('\n')
            && !r[j].contains('\r') by {
            let i = choose|i: int| 0 <= i < pieces.len() && r[j] == trim(#[trigger] pieces[i]);
            lemma_trim_lacks(pieces[i], '\n');
            lemma_trim_lacks(pieces[i], '\r');
        }
    }
}

/// Adding keeps a corpus well formed.
pub proof fn lemma_add_wf(s: Seq<Seq<char>>, m: Seq<char>)
    requires
        corpus_wf(s),
    ensures
        corpus_wf(add_spec(s, m)),
{
    lemma_trim_idempotent(m);
    let t = trim(m);
    if t.len() > 0 && !s.contains(t) {
        let r = s.push(t);
        assert forall|i: int, j: int| 0 <= i < j < r.len() implies r[i] != r[j] by {
            if j == s.len() {
                assert(s.contains(r[i]));
            }
        }
    }
}

/// Adding the same message twice is adding it once.
pub proof fn lemma_add_idempotent(s: Seq<Seq<char>>, m: Seq<char>)
    ensures
        add_spec(add_spec(s, m), m) == add_spec(s, m),
{
    let t = trim(m);
    if t.len() > 0 && !s.contains(t) {
        assert(s.push(t)[s.len() as int] == t);
        assert(s.push(t).contains(t));
    }
}

/// After adding a non-blank message, the corpus holds its trimmed form.
pub proof fn lemma_add_then_contains(s: Seq<Seq<char>>, m: Seq<char>)
    requires
        trim(m).len() > 0,
    ensures
        add_spec(s, m).contains(trim(m)),
{
    let t = trim(m);
    if !s.contains(t) {
        assert(s.push(t)[s.len() as int] == t);
    }
}

/// Removing keeps a corpus well formed, keeps only entries that were there,
/// and drops exactly the entry equal to `t`.
pub proof fn lemma_without(s: Seq<Seq<char>>, t: Seq<char>)
    requires
        corpus_wf(s),
    ensures
        corpus_wf(without(s, t)),
        forall|x: Seq<char>| #[trigger] without(s, t).contains(x) <==> (s.contains(x) && x != t),
        without(s, t).len() == if s.contains(t) {
            s.len() - 1
        } else {
            s.len() as int
        },
    decreases s.len(),
{
    if s.len() > 0 {
        let p = s.drop_last();
        assert(corpus_wf(p)) by {
            assert forall|i: int| 0 <= i < p.len() implies #[trigger] trim(p[i]) == p[i] && p[i].len()
                > 0 by {
                assert(p[i] == s[i]);
            }
        }
        lemma_without(p, t);
        let r = without(p, t);
        assert(!p.contains(s.last())) by {
            if p.contains(s.last()) {
                let k = choose|k: int| 0 <= k < p.len() && p[k] == s.last();
                assert(s[k] == s[s.len() - 1]);
            }
        }
        assert(s == p.push(s.last()));
        assert forall|x: Seq<char>| s.contains(x) <==> (p.contains(x) || x == s.last()) by {
            if s.contains(x) {
                let k = choose|k: int| 0 <= k < s.len() && s[k] == x;
                if k < p.len() {
                    assert(p[k] == x);
                }
            }
            if p.contains(x) {
                let k = choose|k: int| 0 <= k < p.len() && p[k] == x;
                assert(s[k] == x);
            }
            if x == s.last() {
                assert(s[s.len() - 1] == x);
            }
        }
        if s.last() != t {
            let q = r.push(s.last());
            assert forall|x: Seq<char>| q.contains(x) <==> (r.contains(x) || x == s.last()) by {
                if q.contains(x) {
                    let k = choose|k: int| 0 <= k < q.len() && q[k] == x;
                    if k < r.len() {
                        assert(r[k] == x);
                    }
                }
                if r.contains(x) {
                    let k = choose|k: int| 0 <= k < r.len() && r[k] == x;
                    assert(q[k] == x);
                }
                if x == s.last() {
                    assert(q[r.len() as int] == x);
                }
            }
            assert forall|i: int, j: int| 0 <= i < j < q.len() implies q[i] != q[j] by {
                if j == r.len() {
                    assert(r.contains(q[i]));
                }
            }
            assert forall|i: int| 0 <= i < q.len() implies #[trigger] trim(q[i]) == q[i] && q[i].len()
                > 0 by {
                if i == r.len() {
                    assert(q[i] == s[s.len() - 1]);
                    assert(trim(s[s.len() - 1]) == s[s.len() - 1]);
                } else {
                    assert(q[i] == r[i]);
                    assert(trim(r[i]) == r[i]);
                }
            }
        }
    }
}

/// Removing a message that was just added gives back the corpus, when it
/// was not there before.
pub proof fn lemma_remove_after_add(s: Seq<Seq<char>>, m: Seq<char>)
    requires
        corpus_wf(s),
        !s.contains(trim(m)),
    ensures
        remove_spec(add_spec(s, m), m) == s,
{
    let t = trim(m);
    if t.len() > 0 {
        assert(s.push(t).drop_last() == s);
        lemma_without_absent(s, t);
    } else {
        lemma_without_absent(s, t);
    }
}

/// Removing an entry that is not there changes nothing.
pub proof fn lemma_without_absent(s: Seq<Seq<char>>, t: Seq<char>)
    requires
        !s.contains(t),
    ensures
        without(s, t) == s,
    decreases s.len(),
{
    if s.len() > 0 {
        let p = s.drop_last();
        assert(!p.contains(t)) by {
            if p.contains(t) {
                let k = choose|k: int| 0 <= k < p.len() && p[k] == t;
                assert(s[k] == t);
            }
        }
        lemma_without_absent(p, t);
        assert(s[s.len() - 1] != t);
        assert(p.push(s.last()) == s);
    }
}

/// Absorbing keeps a corpus well formed.
pub proof fn lemma_absorb_wf(acc: Seq<Seq<char>>, items: Seq<Seq<char>>)
    requires
        corpus_wf(acc),
    ensures
        corpus_wf(absorb(acc, items)),
        absorb(acc, items).len() >= acc.len(),
        absorb(acc, items).len() <= acc.len() + items.len(),
    decreases items.len(),
{
    if items.len() > 0 {
        lemma_absorb_wf(acc, items.drop_last());
        lemma_add_wf(absorb(acc, items.drop_last()), items.last());
    }
}

/// Absorbing an empty list changes nothing; absorbing `a + b` is absorbing
/// `a` then `b`.
pub proof fn lemma_absorb_concat(acc: Seq<Seq<char>>, a: Seq<Seq<char>>, b: Seq<Seq<char>>)
    ensures
        absorb(acc, a + b) == absorb(absorb(acc, a), b),
    decreases b.len(),
{
    if b.len() == 0 {
        assert(a + b == a);
    } else {
        assert((a + b).drop_last() == a + b.drop_last());
        assert((a + b).last() == b.last());
        lemma_absorb_concat(acc, a, b.drop_last());
    }
}

/// Importing the same messages twice adds nothing the second time.
pub proof fn lemma_import_twice(acc: Seq<Seq<char>>, items: Seq<Seq<char>>)
    ensures
        absorb(absorb(acc, items), items) == absorb(acc, items),
    decreases items.len(),
{
    lemma_absorb_superset(acc, items);
    lemma_absorb_contains_items(acc, items);
    lemma_absorb_noop(absorb(acc, items), items);
}

/// Importing never drops a message that was in the corpus.
pub proof fn lemma_absorb_superset(acc: Seq<Seq<char>>, items: Seq<Seq<char>>)
    ensures
        forall|x: Seq<char>| acc.contains(x) ==> #[trigger] absorb(acc, items).contains(x),
    decreases items.len(),
{
    if items.len() > 0 {
        lemma_absorb_superset(acc, items.drop_last());
        let r = absorb(acc, items.drop_last());
        let t = trim(items.last());
        if t.len() > 0 && !r.contains(t) {
            assert forall|x: Seq<char>| r.contains(x) implies #[trigger] r.push(t).contains(x) by {
                let k = choose|k: int| 0 <= k < r.len() && r[k] == x;
                assert(r.push(t)[k] == x);
            }
        }
    }
}

/// After an import, every non-blank imported message is in the corpus,
/// trimmed.
pub proof fn lemma_absorb_contains_items(acc: Seq<Seq<char>>, items: Seq<Seq<char>>)
    ensures
        forall|i: int|
            0 <= i < items.len() && trim(items[i]).len() > 0 ==> #[trigger] absorb(
                acc,
                items,
            ).contains(trim(items[i])),
    decreases items.len(),
{
    if items.len() > 0 {
        let p = items.drop_last();
        lemma_absorb_contains_items(acc, p);
        let r = absorb(acc, p);
        lemma_add_then_contains_any(r, items.last());
        assert forall|i: int|
            0 <= i < items.len() && trim(items[i]).len() > 0 implies #[trigger] absorb(
                acc,
                items,
            ).contains(trim(items[i])) by {
            if i < p.len() {
                assert(p[i] == items[i]);
                assert(r.contains(trim(p[i])));
            } else {
                lemma_add_then_contains(r, items.last());
            }
        }
    }
}

/// Adding keeps what was there.
proof fn lemma_add_then_contains_any(s: Seq<Seq<char>>, m: Seq<char>)
    ensures
        forall|x: Seq<char>| s.contains(x) ==> #[trigger] add_spec(s, m).contains(x),
{
    let t = trim(m);
    if t.len() > 0 && !s.contains(t) {
        assert forall|x: Seq<char>| s.contains(x) implies #[trigger] s.push(t).contains(x) by {
            let k = choose|k: int| 0 <= k < s.len() && s[k] == x;
            assert(s.push(t)[k] == x);
        }
    }
}

/// Absorbing items whose non-blank trimmed forms are all present changes
/// nothing.
proof fn lemma_absorb_noop(acc: Seq<Seq<char>>, items: Seq<Seq<char>>)
    requires
        forall|i: int|
            0 <= i < items.len() && trim(items[i]).len() > 0 ==> acc.contains(
                #[trigger] trim(items[i]),
            ),
    ensures
        absorb(acc, items) == acc,
    decreases items.len(),
{
    if items.len() > 0 {
        let p = items.drop_last();
        assert forall|i: int| 0 <= i < p.len() && trim(p[i]).len() > 0 implies acc.contains(
            #[trigger] trim(p[i]),
        ) by {
            assert(p[i] == items[i]);
        }
        lemma_absorb_noop(acc, p);
        assert(items.last() == items[items.len() - 1]);
    }
}

// ---------------------------------------------------------------------
// Trusted calls
// ---------------------------------------------------------------------

/// `fastrand::usize(..n)`: a random index below `n`. The crate's source
/// panics on an empty range, so `n` must be positive; which index comes
/// back is left to chance and is not stated beyond the bound.
#[verifier::external_body]
fn random_below(n: usize) -> (r: usize)
    requires
        n > 0,
    ensures
        r < n,
{
    fastrand::usize(..n)
}

/// `serde_json::from_str::<Vec<String>>`: the strings of a JSON array, or
/// `None` for any parse error; the result is named `json_string_array`.
#[verifier::external_body]
fn parse_json_strings(text: &str) -> (r: Option<Vec<String>>)
    ensures
        match r {
            Some(v) => json_string_array(text@) == Some(v.deep_view()),
            None => json_string_array(text@) is None,
        },
{
    serde_json::from_str::<Vec<String>>(text).ok()
}

// ---------------------------------------------------------------------
// The corpus
// ---------------------------------------------------------------------

/// Chat-message corpus: trimmed, non-empty, distinct messages in insertion
/// order.
pub struct ChatMessageManager {
    messages: Vec<String>,
}

impl View for ChatMessageManager {
    type V = Seq<Seq<char>>;

    closed spec fn view(&self) -> Seq<Seq<char>> {
        self.messages.deep_view()
    }
}

impl ChatMessageManager {
    #[verifier::type_invariant]
    closed spec fn inv(&self) -> bool {
        corpus_wf(self.messages.deep_view())
    }

    /// Construct an empty manager.
    pub fn new() -> (r: Self)
        ensures
            r@ == Seq::<Seq<char>>::empty(),
            corpus_wf(r@),
    {
        let r = ChatMessageManager { messages: Vec::new() };
        assert(r.messages.deep_view() =~= Seq::<Seq<char>>::empty());
        r
    }

    /// Number of messages currently in the corpus.
    pub fn len(&self) -> (r: usize)
        ensures
            r == self@.len(),
            corpus_wf(self@),
    {
        proof {
            use_type_invariant(self);
        }
        self.messages.len()
    }

    /// `true` when the corpus is empty.
    pub fn is_empty(&self) -> (r: bool)
        ensures
            r == (self@.len() == 0),
            corpus_wf(self@),
    {
        proof {
            use_type_invariant(self);
        }
        self.messages.len() == 0
    }

    /// Snapshot of every message in insertion order.
    pub fn all(&self) -> (r: Vec<String>)
        ensures
            r.deep_view() == self@,
            corpus_wf(self@),
    {
        proof {
            use_type_invariant(self);
        }
        let r = self.messages.clone();
        assert(r.deep_view() =~= self.messages.deep_view());
        r
    }

    /// The message at `idx`, if there is one.
    pub fn message_at(&self, idx: usize) -> (r: Option<String>)
        ensures
            idx < self@.len() ==> r is Some && r->0@ == self@[idx as int],
            idx >= self@.len() ==> r is None,
    {
        if idx < self.messages.len() {
            Some(self.messages[idx].clone())
        } else {
            None
        }
    }

    /// Pick a random message. Returns `None` exactly when the corpus is
    /// empty; otherwise the message is one of the corpus.
    pub fn random(&self) -> (r: Option<String>)
        ensures
            r is None <==> self@.len() == 0,
            r matches Some(m) ==> self@.contains(m@),
    {
        let n = self.messages.len();
        if n == 0 {
            return None;
        }
        let idx = random_below(n);
        let r = self.message_at(idx);
        assert(self@[idx as int] == self.messages.deep_view()[idx as int]);
        r
    }

    /// Whether the corpus holds exactly the characters of `t`.
    fn holds(&self, t: &String) -> (r: bool)
        ensures
            r == self@.contains(t@),
    {
        let n = self.messages.len();
        let mut i: usize = 0;
        while i < n
            invariant
                n == self.messages@.len(),
                i <= n,
                forall|k: int| 0 <= k < i ==> self@[k] != t@,
            decreases n - i,
        {
            if self.messages[i] == *t {
                assert(self@[i as int] == t@);
                return true;
            }
            i = i + 1;
        }
        assert forall|x: Seq<char>| self@.contains(x) implies x != t@ by {
            let k = choose|k: int| 0 <= k < self@.len() && self@[k] == x;
            assert(self@[k] != t@);
        }
        false
    }

    /// Add a single message. Returns `true` if it was new.
    pub fn add(&mut self, message: &str) -> (r: bool)
        ensures
            r == (trim(message@).len() > 0 && !old(self)@.contains(trim(message@))),
            final(self)@ == add_spec(old(self)@, message@),
            corpus_wf(final(self)@),
    {
        proof {
            use_type_invariant(&*self);
            lemma_add_wf(self@, message@);
        }
        let t = trimmed(message);
        if t.unicode_len() == 0 {
            return false;
        }
        if self.holds(&t) {
            return false;
        }
        let ghost before = self@;
        let mut msgs: Vec<String> = Vec::new();
        std::mem::swap(&mut msgs, &mut self.messages);
        msgs.push(t);
        assert(msgs.deep_view() =~= before.push(trim(message@)));
        self.messages = msgs;
        true
    }

    /// Remove a message. Returns `true` if it existed.
    pub fn remove(&mut self, message: &str) -> (r: bool)
        ensures
            r == old(self)@.contains(trim(message@)),
            final(self)@ == remove_spec(old(self)@, message@),
            corpus_wf(final(self)@),
    {
        proof {
            use_type_invariant(&*self);
            lemma_without(self@, trim(message@));
        }
        let t = trimmed(message);
        let ghost s = self@;
        let n = self.messages.len();
        let mut kept: Vec<String> = Vec::new();
        let mut found = false;
        let mut i: usize = 0;
        while i < n
            invariant
                n == self.messages@.len(),
                s == self@,
                i <= n,
                kept.deep_view() == without(s.take(i as int), t@),
                found == s.take(i as int).contains(t@),
            decreases n - i,
        {
            assert(s.take(i + 1).drop_last() == s.take(i as int));
            assert(s.take(i + 1).last() == s[i as int]);
            let ghost before = kept.deep_view();
            if self.messages[i] == t {
                found = true;
                assert(s.take(i + 1)[i as int] == t@);
            } else {
                kept.push(self.messages[i].clone());
                assert(kept.deep_view() =~= before.push(s[i as int]));
                assert(s.take(i + 1).contains(t@) ==> s.take(i as int).contains(t@)) by {
                    let q = s.take(i + 1);
                    if q.contains(t@) {
                        let k = choose|k: int| 0 <= k < q.len() && q[k] == t@;
                        assert(s.take(i as int)[k] == t@);
                    }
                }
            }
            assert(s.take(i as int).contains(t@) ==> s.take(i + 1).contains(t@)) by {
                let q = s.take(i as int);
                if q.contains(t@) {
                    let k = choose|k: int| 0 <= k < q.len() && q[k] == t@;
                    assert(s.take(i + 1)[k] == t@);
                }
            }
            i = i + 1;
        }
        assert(s.take(n as int) == s);
        self.messages = kept;
        found
    }

    /// Add every message of `items`, in order, as `add` does; returns how
    /// many were added and how many were skipped as blank or duplicate.
    fn absorb_all(&mut self, items: &Vec<String>) -> (r: ImportResult)
        ensures
            final(self)@ == absorb(old(self)@, items.deep_view()),
            r.added + r.skipped == items@.len(),
            r.added == final(self)@.len() - old(self)@.len(),
    {
        let ghost s0 = self@;
        let ghost d = items.deep_view();
        let mut added: usize = 0;
        let mut skipped: usize = 0;
        let mut i: usize = 0;
        assert(d.take(0) =~= Seq::<Seq<char>>::empty());
        while i < items.len()
            invariant
                i <= items@.len(),
                d == items.deep_view(),
                self@ == absorb(s0, d.take(i as int)),
                added + skipped == i,
                added == self@.len() - s0.len(),
            decreases items@.len() - i,
        {
            assert(d.take(i + 1).drop_last() == d.take(i as int));
            assert(d.take(i + 1).last() == d[i as int]);
            if self.add(items[i].as_str()) {
                added = added + 1;
            } else {
                skipped = skipped + 1;
            }
            i = i + 1;
        }
        assert(d.take(items@.len() as int) == d);
        ImportResult { added, skipped }
    }

    /// Replace the entire corpus with the trimmed, non-empty, distinct
    /// entries of `messages`, in order.
    pub fn replace_all(&mut self, messages: Vec<String>)
        ensures
            final(self)@ == absorb(Seq::empty(), messages.deep_view()),
            corpus_wf(final(self)@),
    {
        let fresh = ChatMessageManager::new();
        *self = fresh;
        let _ = self.absorb_all(&messages);
        proof {
            lemma_absorb_wf(Seq::empty(), messages.deep_view());
        }
    }

    /// Bulk-import messages, skipping empty / duplicate values.
    pub fn import(&mut self, messages: &Vec<String>) -> (r: ImportResult)
        ensures
            final(self)@ == absorb(old(self)@, messages.deep_view()),
            r.added + r.skipped == messages@.len(),
            r.added == final(self)@.len() - old(self)@.len(),
            corpus_wf(final(self)@),
    {
        proof {
            use_type_invariant(&*self);
            lemma_absorb_wf(self@, messages.deep_view());
        }
        self.absorb_all(messages)
    }

    /// Seed the corpus with [`default_messages`].
    pub fn seed_defaults(&mut self)
        ensures
            final(self)@ == absorb(Seq::empty(), default_messages_spec()),
            corpus_wf(final(self)@),
    {
        self.replace_all(default_messages());
    }

    /// The corpus as a text file: one message per line.
    pub fn to_text(&self) -> (r: String)
        ensures
            r@ == join(self@, seq!['\n']),
    {
        let all = self.all();
        let nl_chars = vec!['\n'];
        let nl = string_of_all(nl_chars.as_slice());
        assert(nl@ == seq!['\n']);
        join_exec(&all, nl.as_str())
    }
}

/// The trimmed, non-empty entries of `items`, in order.
fn clean_exec(items: &Vec<String>) -> (r: Vec<String>)
    ensures
        r.deep_view() == clean(items.deep_view()),
{
    let ghost d = items.deep_view();
    let mut out: Vec<String> = Vec::new();
    let mut i: usize = 0;
    assert(d.take(0) =~= Seq::<Seq<char>>::empty());
    while i < items.len()
        invariant
            i <= items@.len(),
            d == items.deep_view(),
            out.deep_view() == clean(d.take(i as int)),
        decreases items@.len() - i,
    {
        assert(d.take(i + 1).drop_last() == d.take(i as int));
        assert(d.take(i + 1).last() == d[i as int]);
        let t = trimmed(items[i].as_str());
        if t.unicode_len() > 0 {
            let ghost before = out.deep_view();
            out.push(t);
            assert(out.deep_view() =~= before.push(trim(d[i as int])));
        }
        i = i + 1;
    }
    assert(d.take(items@.len() as int) == d);
    out
}

/// The messages of `content`, given what parsing its trimmed text as a
/// JSON array of strings gave (`json`): the trimmed, non-empty strings of
/// the array when the text is bracketed and parsed, else its trimmed,
/// non-empty lines.
pub fn messages_from_text(content: &str, json: Option<Vec<String>>) -> (r: Vec<String>)
    ensures
        r.deep_view() == parse_text_spec(
            content@,
            match json {
                Some(v) => Some(v.deep_view()),
                None => None,
            },
        ),
{
    let v = chars_of(content);
    let (a, b) = trim_bounds(v.as_slice());
    let ghost t = trim(content@);
    let is_bracketed = a < b && v[a] == '[' && v[b - 1] == ']';
    assert(is_bracketed == bracketed(t)) by {
        if a < b {
            assert(t[0] == v@[a as int]);
            assert(t.last() == v@[b - 1]);
        }
    }
    if is_bracketed {
        if let Some(list) = json {
            return clean_exec(&list);
        }
    }
    let tv = v.as_slice();
    let body = string_of(tv, a, b);
    let bv = chars_of(body.as_str());
    let crlf = vec!['\r', '\n'];
    let lf = vec!['\n'];
    let cr = vec!['\r'];
    let step1 = replace_exec(bv.as_slice(), crlf.as_slice(), lf.as_slice());
    let step2 = replace_exec(step1.as_slice(), cr.as_slice(), lf.as_slice());
    let pieces = split_exec(step2.as_slice(), '\n');
    assert(crlf@ == seq!['\r', '\n']);
    assert(lf@ == seq!['\n']);
    assert(cr@ == seq!['\r']);
    clean_exec(&pieces)
}

/// Parse arbitrary text into a list of trimmed, non-empty messages.
///
/// Accepts either a JSON array of strings or newline-separated lines.
pub fn parse_text(content: &str) -> (r: Vec<String>)
    ensures
        r.deep_view() == parse_text_spec(content@, json_string_array(trim(content@))),
{
    let v = chars_of(content);
    let (a, b) = trim_bounds(v.as_slice());
    let json = if a < b && v[a] == '[' && v[b - 1] == ']' {
        let body = string_of(v.as_slice(), a, b);
        parse_json_strings(body.as_str())
    } else {
        None
    };
    proof {
        let t = trim(content@);
        if !(a < b && v@[a as int] == '[' && v@[b - 1] == ']') {
            if a < b {
                assert(t[0] == v@[a as int]);
                assert(t.last() == v@[b - 1]);
            }
            assert(!bracketed(t));
        }
    }
    messages_from_text(content, json)
}

/// The default corpus shipped with ImLag.
pub open spec fn default_messages_spec() -> Seq<Seq<char>> {
    seq![
        "网卡"@,
        "手抖"@,
        "高延迟"@,
        "鼠标出问题了"@,
        "瓶颈期"@,
        "手冻僵了"@,
        "被阴了"@,
        "卡输入法了"@,
        "掉帧了"@,
        "手汗手滑"@,
        "腱鞘炎犯了"@,
        "吞子弹了"@,
        "timing侠"@,
        "唉，资本"@,
        "刚打瓦回来不适应"@,
        "灵敏度有问题"@,
        "谁把我键位改了"@,
        "感冒了没反应"@,
        "校园网是这样的"@,
        "状态不行"@,
        "鼠标撞键盘上了"@,
        "复健"@,
        "屏幕太小"@,
        "键盘坏了"@,
        "显示器延迟高"@,
        "对面锁了"@,
        "他静音"@,
        "在开车"@,
        "有延迟"@,
        "在上课"@,
        "刚来电话了"@,
        "帧率低"@,
        "第一把"@,
        "没开灯"@,
        "在上厕所"@,
        "刮台风了"@,
        "走神了"@,
        "表白被拒"@,
        "电脑死机了"@,
        "纯小子一个"@,
        "对面太阴"@,
        "外卖到了"@,
        "作业太多"@,
        "身体虚了"@,
        "键盘进水了"@,
        "吃太撑了"@,
        "晚饭吃多了"@,
        "刚🦌完"@,
        "灵敏度没改"@,
        "思路被打扰了"@,
        "鼠标没电了"@,
        "好久没玩了"@,
        "预判失误"@,
        "心情不好"@,
        "空气不行"@,
        "手骨折了"@,
        "边吃饭边打的"@,
        "被绿了"@,
        "糖心看多了"@,
        "周围太吵"@,
        "91在后台"@,
        "尿急"@,
        "口渴"@,
        "地震了"@,
        "刚睡醒"@,
        "心脏病犯了"@,
        "我妈叫我了"@,
        "设备不行"@,
        "对面开了"@,
        "运气太差"@,
        "手汗太多"@,
        "被室友打扰了"@,
        "打累了"@,
        "按键有问题"@,
        "刚黑客入侵了"@,
    ]
}

/// The default corpus shipped with ImLag.
pub fn default_messages() -> (r: Vec<String>)
    ensures
        r.deep_view() == default_messages_spec(),
{
    let mut v: Vec<String> = Vec::new();
    v.push(String::from_str("网卡"));
    v.push(String::from_str("手抖"));
    v.push(String::from_str("高延迟"));
    v.push(String::from_str("鼠标出问题了"));
    v.push(String::from_str("瓶颈期"));
    v.push(String::from_str("手冻僵了"));
    v.push(String::from_str("被阴了"));
    v.push(String::from_str("卡输入法了"));
    v.push(String::from_str("掉帧了"));
    v.push(String::from_str("手汗手滑"));
    v.push(String::from_str("腱鞘炎犯了"));
    v.push(String::from_str("吞子弹了"));
    v.push(String::from_str("timing侠"));
    v.push(String::from_str("唉，资本"));
    v.push(String::from_str("刚打瓦回来不适应"));
    v.push(String::from_str("灵敏度有问题"));
    v.push(String::from_str("谁把我键位改了"));
    v.push(String::from_str("感冒了没反应"));
    v.push(String::from_str("校园网是这样的"));
    v.push(String::from_str("状态不行"));
    v.push(String::from_str("鼠标撞键盘上了"));
    v.push(String::from_str("复健"));
    v.push(String::from_str("屏幕太小"));
    v.push(String::from_str("键盘坏了"));
    v.push(String::from_str("显示器延迟高"));
    v.push(String::from_str("对面锁了"));
    v.push(String::from_str("他静音"));
    v.push(String::from_str("在开车"));
    v.push(String::from_str("有延迟"));
    v.push(String::from_str("在上课"));
    v.push(String::from_str("刚来电话了"));
    v.push(String::from_str("帧率低"));
    v.push(String::from_str("第一把"));
    v.push(String::from_str("没开灯"));
    v.push(String::from_str("在上厕所"));
    v.push(String::from_str("刮台风了"));
    v.push(String::from_str("走神了"));
    v.push(String::from_str("表白被拒"));
    v.push(String::from_str("电脑死机了"));
    v.push(String::from_str("纯小子一个"));
    v.push(String::from_str("对面太阴"));
    v.push(String::from_str("外卖到了"));
    v.push(String::from_str("作业太多"));
    v.push(String::from_str("身体虚了"));
    v.push(String::from_str("键盘进水了"));
    v.push(String::from_str("吃太撑了"));
    v.push(String::from_str("晚饭吃多了"));
    v.push(String::from_str("刚🦌完"));
    v.push(String::from_str("灵敏度没改"));
    v.push(String::from_str("思路被打扰了"));
    v.push(String::from_str("鼠标没电了"));
    v.push(String::from_str("好久没玩了"));
    v.push(String::from_str("预判失误"));
    v.push(String::from_str("心情不好"));
    v.push(String::from_str("空气不行"));
    v.push(String::from_str("手骨折了"));
    v.push(String::from_str("边吃饭边打的"));
    v.push(String::from_str("被绿了"));
    v.push(String::from_str("糖心看多了"));
    v.push(String::from_str("周围太吵"));
    v.push(String::from_str("91在后台"));
    v.push(String::from_str("尿急"));
    v.push(String::from_str("口渴"));
    v.push(String::from_str("地震了"));
    v.push(String::from_str("刚睡醒"));
    v.push(String::from_str("心脏病犯了"));
    v.push(String::from_str("我妈叫我了"));
    v.push(String::from_str("设备不行"));
    v.push(String::from_str("对面开了"));
    v.push(String::from_str("运气太差"));
    v.push(String::from_str("手汗太多"));
    v.push(String::from_str("被室友打扰了"));
    v.push(String::from_str("打累了"));
    v.push(String::from_str("按键有问题"));
    v.push(String::from_str("刚黑客入侵了"));
    assert(v.deep_view() =~= default_messages_spec());
    v
}

} // verus!
