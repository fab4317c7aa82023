//! Reading a key combination such as `Ctrl+Shift+R`.

use vstd::prelude::*;
use crate::hotkeys::types::{key_code_for, key_named, KeyCode, KeyCombo, ModifierSet};
use crate::text::{
    ascii_lowercase, ascii_uppercase, chars_of, is_ascii, is_literal, lemma_case_forms,
    lemma_lowered_same, lemma_split_ascii, lemma_split_same_case, lemma_trimmed_same_case, lowered,
    same_but_case, split, split_on, string_of, to_lowercase, trim, trimmed, views,
};

verus! {

/// What one part of a key combination stands for.
#[derive(Debug, Clone, Copy, PartialEq, Eq, Structural)]
pub enum Token {
    Ctrl,
    Alt,
    Shift,
    Meta,
    /// Not a modifier: the key of that name, if the table lists it.
    Key(Option<KeyCode>),
}

/// What the lower-case token `token` stands for, given the key `key` that
/// the table lists for it.
pub open spec fn token_meaning(token: Seq<char>, key: Option<KeyCode>) -> Token {
    if token == "ctrl"@ || token == "control"@ {
        Token::Ctrl
    } else if token == "alt"@ {
        Token::Alt
    } else if token == "shift"@ {
        Token::Shift
    } else if token == "super"@ || token == "win"@ || token == "meta"@ || token == "cmd"@ {
        Token::Meta
    } else {
        Token::Key(key)
    }
}

/// The key that `s` names, whatever its case.
pub open spec fn parsed_key_code(s: Seq<char>) -> Option<KeyCode> {
    key_named(lowered(s))
}

/// What the part `part` of a key combination stands for: white space around
/// it and its case do not matter.
pub open spec fn part_meaning(part: Seq<char>) -> Token {
    let token = lowered(trimmed(part));
    token_meaning(token, parsed_key_code(token))
}

/// The modifiers and the key after one more token: a modifier is added; any
/// other token replaces the key, by no key if it names none.
pub open spec fn after_token(state: (ModifierSet, Option<KeyCode>), token: Token) -> (
    ModifierSet,
    Option<KeyCode>,
) {
    let (mods, key) = state;
    match token {
        Token::Ctrl => (ModifierSet { ctrl: true, ..mods }, key),
        Token::Alt => (ModifierSet { alt: true, ..mods }, key),
        Token::Shift => (ModifierSet { shift: true, ..mods }, key),
        Token::Meta => (ModifierSet { meta: true, ..mods }, key),
        Token::Key(k) => (mods, k),
    }
}

/// The modifiers and the key after all of `parts`, read from left to right.
pub open spec fn after_parts(parts: Seq<Seq<char>>) -> (ModifierSet, Option<KeyCode>)
    decreases parts.len(),
{
    if parts.len() == 0 {
        (ModifierSet::empty(), None)
    } else {
        after_token(after_parts(parts.drop_last()), part_meaning(parts.last()))
    }
}

/// The combination that `s` writes: its parts, separated by `+`, are
/// modifiers and keys in any order; the last part that is not a modifier
/// must name a key, which is the base key.
pub open spec fn parsed_hotkey(s: Seq<char>) -> Option<KeyCombo> {
    let (mods, key) = after_parts(split_on(s, '+'));
    match key {
        Some(k) => Some(KeyCombo { mods, key: k }),
        None => None,
    }
}

/// Reads the key that `s` names, in any case.
pub fn parse_key_code(s: &str) -> (r: Option<KeyCode>)
    ensures
        r == parsed_key_code(s@),
{
    let lower = to_lowercase(s);
    key_code_for(lower.as_str())
}

/// What the lower-case token `token` stands for, where `key` is the key
/// that the table lists for it.
pub fn classify_token(token: &str, key: Option<KeyCode>) -> (r: Token)
    ensures
        r == token_meaning(token@, key),
{
    let t = chars_of(token);
    if is_literal(&t, "ctrl") || is_literal(&t, "control") {
        Token::Ctrl
    } else if is_literal(&t, "alt") {
        Token::Alt
    } else if is_literal(&t, "shift") {
        Token::Shift
    } else if is_literal(&t, "super") || is_literal(&t, "win") || is_literal(&t, "meta")
        || is_literal(&t, "cmd") {
        Token::Meta
    } else {
        Token::Key(key)
    }
}

/// The modifiers and the key after one more token.
pub fn apply_token(mods: ModifierSet, key: Option<KeyCode>, token: Token) -> (r: (
    ModifierSet,
    Option<KeyCode>,
))
    ensures
        r == after_token((mods, key), token),
{
    match token {
        Token::Ctrl => (
            ModifierSet { ctrl: true, alt: mods.alt, shift: mods.shift, meta: mods.meta },
            key,
        ),
        Token::Alt => (
            ModifierSet { ctrl: mods.ctrl, alt: true, shift: mods.shift, meta: mods.meta },
            key,
        ),
        Token::Shift => (
            ModifierSet { ctrl: mods.ctrl, alt: mods.alt, shift: true, meta: mods.meta },
            key,
        ),
        Token::Meta => (
            ModifierSet { ctrl: mods.ctrl, alt: mods.alt, shift: mods.shift, meta: true },
            key,
        ),
        Token::Key(k) => (mods, k),
    }
}

/// Reads a key combination. Returns `None` where no part names a key, or
/// where the last part that is not a modifier names none.
pub fn parse_hotkey(s: &str) -> (r: Option<KeyCombo>)
    ensures
        r == parsed_hotkey(s@),
{
    let parts = split(&chars_of(s), '+');
    let mut mods = ModifierSet::none();
    let mut key: Option<KeyCode> = None;
    let mut i: usize = 0;
    while i < parts.len()
        invariant
            i <= parts.len(),
            (mods, key) == after_parts(views(parts@).take(i as int)),
        decreases parts.len() - i,
    {
        proof {
            let next = views(parts@).take(i + 1);
            assert(next.drop_last() == views(parts@).take(i as int));
            assert(next.last() == parts@[i as int]@);
        }
        let part = string_of(&trim(&parts[i]));
        let token = to_lowercase(part.as_str());
        let named = parse_key_code(token.as_str());
        let meaning = classify_token(token.as_str(), named);
        let next = apply_token(mods, key, meaning);
        mods = next.0;
        key = next.1;
        i += 1;
    }
    assert(views(parts@).take(parts.len() as int) == views(parts@));
    match key {
        Some(k) => Some(KeyCombo { mods, key: k }),
        None => None,
    }
}

/// Modifiers are collected from every part, in any order and any number of
/// times, and do not change the key.
pub proof fn lemma_modifier_keeps_key(parts: Seq<Seq<char>>, part: Seq<char>)
    requires
        !(part_meaning(part) is Key),
    ensures
        after_parts(parts.push(part)).1 == after_parts(parts).1,
{
    assert(parts.push(part).drop_last() == parts);
}

/// A combination whose last part names no key and is no modifier does not parse.
pub proof fn lemma_last_part_decides(parts: Seq<Seq<char>>, part: Seq<char>)
    requires
        part_meaning(part) == Token::Key(None),
    ensures
        after_parts(parts.push(part)).1 is None,
{
    assert(parts.push(part).drop_last() == parts);
}

/// Parts of ASCII characters that differ at most in case stand for the same.
pub proof fn lemma_part_case(a: Seq<char>, b: Seq<char>)
    requires
        is_ascii(a),
        is_ascii(b),
        same_but_case(a, b),
    ensures
        part_meaning(a) == part_meaning(b),
{
    lemma_trimmed_same_case(a, b);
    lemma_lowered_same(trimmed(a), trimmed(b));
}

/// Lists of parts that differ at most in case give the same modifiers and key.
pub proof fn lemma_parts_case(pa: Seq<Seq<char>>, pb: Seq<Seq<char>>)
    requires
        pa.len() == pb.len(),
        forall|k: int|
            0 <= k < pa.len() ==> is_ascii(#[trigger] pa[k]) && is_ascii(pb[k]) && same_but_case(
                pa[k],
                pb[k],
            ),
    ensures
        after_parts(pa) == after_parts(pb),
    decreases pa.len(),
{
    if pa.len() > 0 {
        let qa = pa.drop_last();
        let qb = pb.drop_last();
        assert forall|k: int| 0 <= k < qa.len() implies is_ascii(#[trigger] qa[k]) && is_ascii(
            qb[k],
        ) && same_but_case(qa[k], qb[k]) by {
            assert(qa[k] == pa[k] && qb[k] == pb[k]);
            assert(is_ascii(pa[k]));
        }
        lemma_parts_case(qa, qb);
        assert(is_ascii(pa[pa.len() - 1]));
        lemma_part_case(pa.last(), pb.last());
    }
}

/// The case of the letters of a key combination does not matter: two
/// strings of ASCII characters that differ at most in case write the same
/// combination, or both write none.
pub proof fn lemma_case_does_not_matter(a: Seq<char>, b: Seq<char>)
    requires
        is_ascii(a),
        is_ascii(b),
        same_but_case(a, b),
    ensures
        parsed_hotkey(a) == parsed_hotkey(b),
{
    lemma_split_same_case(a, b, '+');
    lemma_split_ascii(a, '+');
    lemma_split_ascii(b, '+');
    let pa = split_on(a, '+');
    let pb = split_on(b, '+');
    assert forall|k: int| 0 <= k < pa.len() implies is_ascii(#[trigger] pa[k]) && is_ascii(pb[k])
        && same_but_case(pa[k], pb[k]) by {
        assert(is_ascii(split_on(b, '+')[k]));
    }
    lemma_parts_case(pa, pb);
}

/// A key combination of ASCII characters, its lower-case form and its
/// upper-case form all write the same combination.
pub proof fn lemma_upper_and_lower_case(s: Seq<char>)
    requires
        is_ascii(s),
    ensures
        parsed_hotkey(ascii_lowercase(s)) == parsed_hotkey(s),
        parsed_hotkey(ascii_uppercase(s)) == parsed_hotkey(s),
{
    lemma_case_forms(s);
    lemma_case_does_not_matter(s, ascii_lowercase(s));
    lemma_case_does_not_matter(s, ascii_uppercase(s));
}

} // verus!
