//! The value of the `lang` attribute in the interior of a script tag.

use crate::search::{
    first_match, lemma_first_match_is, lemma_first_match_none, lemma_matches_in_window, matches_at,
};
use vstd::prelude::*;
use vstd::string::*;

verus! {

/// What `char::is_whitespace` returns: the character has the Unicode
/// property White_Space.
pub uninterp spec fn is_whitespace(c: char) -> bool;

/// `char::is_whitespace` depends on the character alone.
pub assume_specification[ char::is_whitespace ](c: char) -> (r: bool)
    ensures
        r == is_whitespace(c),
;

/// The token of a tag without a usable `lang` attribute.
pub const DEFAULT_LANG: &'static str = "mjs";

/// The characters at which a scan of the tag's interior stops.
#[derive(Clone, Copy, Debug)]
pub enum Stop {
    /// Anything but whitespace.
    NonWhitespace,
    /// Whitespace or `>`: what ends an unquoted value.
    ValueEnd,
    /// The quote that closes a quoted value.
    Quote(char),
}

impl Stop {
    /// The scan stops at `c`.
    pub open spec fn at(self, c: char) -> bool {
        match self {
            Stop::NonWhitespace => !is_whitespace(c),
            Stop::ValueEnd => is_whitespace(c) || c == '>',
            Stop::Quote(quote) => c == quote,
        }
    }

    /// Tells whether the scan stops at `c`.
    pub fn is_at(self, c: char) -> (r: bool)
        ensures
            r == self.at(c),
    {
        match self {
            Stop::NonWhitespace => !c.is_whitespace(),
            Stop::ValueEnd => c.is_whitespace() || c == '>',
            Stop::Quote(quote) => c == quote,
        }
    }
}

/// The first index at or after `from` at which a scan for `stop` stops, or
/// the length of the text where it runs to the end.
pub open spec fn scan_to(text: Seq<char>, from: int, stop: Stop) -> int
    decreases text.len() - from,
{
    if 0 <= from < text.len() && !stop.at(text[from]) {
        scan_to(text, from + 1, stop)
    } else {
        from
    }
}

/// The name of the attribute. It is looked for as a substring, so that it
/// is also found at the end of a longer name.
pub const LANG_KEY: &'static str = "lang";

/// The characters of `LANG_KEY`.
pub open spec fn lang_key() -> Seq<char> {
    LANG_KEY@
}

/// The range of the text that holds the value of the `lang` attribute.
///
/// Behind the first `lang` an `=` must follow, with or without whitespace
/// before it. A value that starts with a quote runs up to the next quote of
/// the same kind, and there is none without that quote. Any other value runs
/// up to the next whitespace or `>`, or to the end of the text.
pub open spec fn lang_value(text: Seq<char>) -> Option<(int, int)> {
    match first_match(text, lang_key(), 0) {
        None => None,
        Some(key) => {
            let eq = scan_to(text, key + lang_key().len(), Stop::NonWhitespace);
            if eq < text.len() && text[eq] == '=' {
                let start = scan_to(text, eq + 1, Stop::NonWhitespace);
                if start >= text.len() {
                    None
                } else if text[start] == '"' || text[start] == '\'' {
                    let end = scan_to(text, start + 1, Stop::Quote(text[start]));
                    if end < text.len() {
                        Some((start + 1, end))
                    } else {
                        None
                    }
                } else {
                    Some((start, scan_to(text, start, Stop::ValueEnd)))
                }
            } else {
                None
            }
        },
    }
}

/// The value of the `lang` attribute in `text`, or the default where `text`
/// has no such value.
pub open spec fn lang_value_or_default(text: Seq<char>) -> Seq<char> {
    match lang_value(text) {
        Some((start, end)) => text.subrange(start, end),
        None => DEFAULT_LANG@,
    }
}

/// The length of the text without the whitespace at its end.
pub open spec fn trimmed_end(text: Seq<char>) -> int
    decreases text.len(),
{
    if text.len() > 0 && is_whitespace(text.last()) {
        trimmed_end(text.drop_last())
    } else {
        text.len() as int
    }
}

/// The length of the whitespace at the start of the text, counted up to
/// `trimmed_end`.
pub open spec fn trimmed_start(text: Seq<char>) -> int {
    scan_to(text.take(trimmed_end(text)), 0, Stop::NonWhitespace)
}

/// The text without the whitespace at its start and at its end.
pub open spec fn trimmed(text: Seq<char>) -> Seq<char> {
    text.subrange(trimmed_start(text), trimmed_end(text))
}

/// The language token of a tag with the interior `text`: the value of the
/// `lang` attribute in the trimmed interior, or the default where it has
/// none.
pub open spec fn lang_token(text: Seq<char>) -> Seq<char> {
    lang_value_or_default(trimmed(text))
}

/// Trimming leaves a range of the text.
pub proof fn lemma_trimmed_bounds(text: Seq<char>)
    ensures
        0 <= trimmed_start(text) <= trimmed_end(text) <= text.len(),
    decreases text.len(),
{
    if text.len() > 0 && is_whitespace(text.last()) {
        lemma_trimmed_bounds(text.drop_last());
    }
    lemma_scan_to_bounds(text.take(trimmed_end(text)), 0, Stop::NonWhitespace);
}

/// A scan stays inside the text and does not go back.
pub proof fn lemma_scan_to_bounds(text: Seq<char>, from: int, stop: Stop)
    requires
        0 <= from <= text.len(),
    ensures
        from <= scan_to(text, from, stop) <= text.len(),
    decreases text.len() - from,
{
    if from < text.len() && !stop.at(text[from]) {
        lemma_scan_to_bounds(text, from + 1, stop);
    }
}

/// A tag whose interior does not hold `lang` has the default token.
pub proof fn lemma_absent_lang_is_default(text: Seq<char>)
    requires
        forall|i: int| !matches_at(text, lang_key(), i),
    ensures
        lang_token(text) == DEFAULT_LANG@,
{
    lemma_trimmed_bounds(text);
    let start = trimmed_start(text);
    let end = trimmed_end(text);
    assert forall|i: int| !matches_at(trimmed(text), lang_key(), i) by {
        lemma_matches_in_window(text, lang_key(), start, end, i);
    }
    lemma_first_match_none(trimmed(text), lang_key(), 0);
}

/// The characters of a text.
pub fn chars_of(text: &str) -> (out: Vec<char>)
    ensures
        out@ == text@,
{
    let mut out: Vec<char> = Vec::new();
    for c in it: text.chars()
        invariant
            it.seq() == text@,
            out@ == it.seq().take(it.index()),
    {
        out.push(c);
    }
    out
}

/// Scans `text` from `from` on for the first character at which `stop`
/// stops.
fn scan_for(text: &Vec<char>, from: usize, stop: Stop) -> (r: usize)
    requires
        from <= text@.len(),
    ensures
        r == scan_to(text@, from as int, stop),
        from <= r <= text@.len(),
{
    let mut pos = from;
    while pos < text.len() && !stop.is_at(text[pos])
        invariant
            from <= pos <= text@.len(),
            scan_to(text@, from as int, stop) == scan_to(text@, pos as int, stop),
        decreases text@.len() - pos,
    {
        pos = pos + 1;
    }
    pos
}

/// Tells whether `needle` stands in `text` at `pos`.
fn occurs_at(text: &Vec<char>, needle: &Vec<char>, pos: usize) -> (r: bool)
    requires
        pos + needle@.len() <= text@.len(),
    ensures
        r == matches_at(text@, needle@, pos as int),
{
    let len = text.len();
    let mut i: usize = 0;
    while i < needle.len()
        invariant
            len == text@.len(),
            pos + needle@.len() <= text@.len(),
            i <= needle@.len(),
            text@.subrange(pos as int, pos + i) == needle@.take(i as int),
        decreases needle@.len() - i,
    {
        if text[pos + i] != needle[i] {
            proof {
                let window = text@.subrange(pos as int, pos + needle@.len());
                assert(window[i as int] == text@[pos + i]);
            }
            return false;
        }
        proof {
            assert(text@.subrange(pos as int, pos + i + 1) =~= text@.subrange(
                pos as int,
                pos + i,
            ).push(text@[pos + i]));
            assert(needle@.take(i + 1) =~= needle@.take(i as int).push(needle@[i as int]));
        }
        i = i + 1;
    }
    proof {
        assert(needle@.take(needle@.len() as int) =~= needle@);
    }
    true
}

/// Finds the first occurrence of `needle` in `text`.
pub fn find_chars(text: &Vec<char>, needle: &Vec<char>) -> (r: Option<usize>)
    ensures
        match r {
            Some(i) => first_match(text@, needle@, 0) == Some(i as int),
            None => first_match(text@, needle@, 0) is None,
        },
        r matches Some(i) ==> i + needle@.len() <= text@.len(),
{
    if needle.len() > text.len() {
        proof {
            lemma_first_match_none(text@, needle@, 0);
        }
        return None;
    }
    if needle.len() == 0 {
        proof {
            assert(text@.subrange(0, 0) =~= needle@);
            lemma_first_match_is(text@, needle@, 0, 0);
        }
        return Some(0);
    }
    let last = text.len() - needle.len();
    let mut pos: usize = 0;
    while pos <= last
        invariant
            last == text@.len() - needle@.len(),
            needle@.len() > 0,
            text@.len() <= usize::MAX,
            forall|k: int| 0 <= k < pos ==> !matches_at(text@, needle@, k),
        decreases last + 1 - pos,
    {
        if occurs_at(text, needle, pos) {
            proof {
                lemma_first_match_is(text@, needle@, 0, pos as int);
            }
            return Some(pos);
        }
        pos = pos + 1;
    }
    proof {
        lemma_first_match_none(text@, needle@, 0);
    }
    None
}

/// Finds the range of `text` that holds the value of the `lang` attribute.
pub fn find_lang_value(text: &Vec<char>) -> (r: Option<(usize, usize)>)
    ensures
        match r {
            Some((start, end)) => lang_value(text@) == Some((start as int, end as int)) && start
                <= end <= text@.len(),
            None => lang_value(text@) is None,
        },
{
    let name = chars_of(LANG_KEY);
    let Some(key) = find_chars(text, &name) else {
        return None;
    };
    let len = text.len();
    let eq = scan_for(text, key + name.len(), Stop::NonWhitespace);
    if eq >= len || text[eq] != '=' {
        return None;
    }
    let start = scan_for(text, eq + 1, Stop::NonWhitespace);
    if start >= len {
        return None;
    }
    let first = text[start];
    if first == '"' || first == '\'' {
        let end = scan_for(text, start + 1, Stop::Quote(first));
        if end < len {
            Some((start + 1, end))
        } else {
            None
        }
    } else {
        let end = scan_for(text, start, Stop::ValueEnd);
        Some((start, end))
    }
}

/// Finds the range of `text` that is left when the whitespace at its start
/// and at its end is taken away.
pub fn trim_bounds(text: &Vec<char>) -> (r: (usize, usize))
    ensures
        r.0 == trimmed_start(text@),
        r.1 == trimmed_end(text@),
        r.0 <= r.1 <= text@.len(),
{
    let mut end = text.len();
    proof {
        assert(text@.take(end as int) =~= text@);
    }
    while end > 0 && text[end - 1].is_whitespace()
        invariant
            end <= text@.len(),
            trimmed_end(text@) == trimmed_end(text@.take(end as int)),
        decreases end,
    {
        proof {
            assert(text@.take(end as int).drop_last() =~= text@.take(end - 1));
        }
        end = end - 1;
    }
    let ghost kept = text@.take(end as int);
    let mut start: usize = 0;
    while start < end && text[start].is_whitespace()
        invariant
            start <= end <= text@.len(),
            kept == text@.take(end as int),
            scan_to(kept, 0, Stop::NonWhitespace) == scan_to(
                kept,
                start as int,
                Stop::NonWhitespace,
            ),
        decreases end - start,
    {
        start = start + 1;
    }
    (start, end)
}

} // verus!
