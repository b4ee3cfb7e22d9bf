//! Where a script tag opens and where it closes: openings inside a comment
//! are passed over, and a quoted attribute value may hold a `>`.

use crate::markers::{
    comment_end, comment_end_bytes, comment_start, comment_start_bytes, lemma_marker_bytes,
    script_start, script_start_bytes, DOUBLE_QUOTE, GREATER_THAN, SINGLE_QUOTE, SPACE,
};
use crate::search::{find_from, matches_at, rfind_upto};
use vstd::prelude::*;
use vstd::string::*;

verus! {

/// A comment that opens at `open` is still open at `pos`: its opening marker
/// lies wholly before `pos`, and no end marker starts between the two.
pub open spec fn comment_open_at(doc: Seq<u8>, open: int, pos: int) -> bool {
    &&& matches_at(doc, comment_start(), open)
    &&& open + comment_start().len() <= pos
    &&& forall|k: int|
        open + comment_start().len() <= k < pos ==> !matches_at(doc, comment_end(), k)
}

/// `pos` lies inside a comment: one is open there, and an end marker follows.
pub open spec fn in_comment(doc: Seq<u8>, pos: int) -> bool {
    &&& exists|open: int| comment_open_at(doc, open, pos)
    &&& exists|end: int| pos <= end && matches_at(doc, comment_end(), end)
}

/// `<script` stands at `pos`, outside any comment.
pub open spec fn is_script_open(doc: Seq<u8>, pos: int) -> bool {
    matches_at(doc, script_start(), pos) && !in_comment(doc, pos)
}

/// `pos` is the first `<script` outside a comment at or after `from`.
pub open spec fn is_first_script_open(doc: Seq<u8>, from: int, pos: int) -> bool {
    &&& from <= pos
    &&& is_script_open(doc, pos)
    &&& forall|k: int| from <= k < pos ==> !is_script_open(doc, k)
}

/// The first `<script` outside a comment at or after `from`, if there is one.
pub open spec fn first_script_open(doc: Seq<u8>, from: int) -> Option<int> {
    if exists|pos: int| is_first_script_open(doc, from, pos) {
        Some(choose|pos: int| is_first_script_open(doc, from, pos))
    } else {
        None
    }
}

/// There is only one first opening.
pub proof fn lemma_first_script_open_is(doc: Seq<u8>, from: int, pos: int)
    requires
        is_first_script_open(doc, from, pos),
    ensures
        first_script_open(doc, from) == Some(pos),
{
    let other = choose|other: int| is_first_script_open(doc, from, other);
    assert(is_first_script_open(doc, from, other));
    if other < pos {
        assert(!is_script_open(doc, other));
    }
    if pos < other {
        assert(!is_script_open(doc, pos));
    }
}

/// What `first_script_open` returns is the first opening.
pub proof fn lemma_first_script_open_found(doc: Seq<u8>, from: int)
    ensures
        first_script_open(doc, from) matches Some(pos) ==> is_first_script_open(doc, from, pos),
        first_script_open(doc, from) is None ==> forall|k: int|
            from <= k ==> !is_script_open(doc, k),
{
    if first_script_open(doc, from) is None {
        assert forall|k: int| from <= k implies !is_script_open(doc, k) by {
            if is_script_open(doc, k) {
                lemma_least_script_open(doc, from, k);
            }
        }
    }
}

/// Where an opening stands at or after `from`, there is a first one.
proof fn lemma_least_script_open(doc: Seq<u8>, from: int, pos: int)
    requires
        from <= pos,
        is_script_open(doc, pos),
    ensures
        exists|least: int| is_first_script_open(doc, from, least),
    decreases pos - from,
{
    if exists|k: int| from <= k < pos && is_script_open(doc, k) {
        let k = choose|k: int| from <= k < pos && is_script_open(doc, k);
        lemma_least_script_open(doc, from, k);
    } else {
        assert(is_first_script_open(doc, from, pos));
    }
}

/// The end of the comment around `pos`, if `pos` lies inside one: the first
/// end marker behind the last comment opening before `pos`.
fn enclosing_comment_end(doc: &[u8], pos: usize) -> (r: Option<usize>)
    requires
        pos <= doc@.len(),
    ensures
        r is Some <==> in_comment(doc@, pos as int),
        r matches Some(end) ==> {
            &&& pos <= end
            &&& matches_at(doc@, comment_end(), end as int)
            &&& exists|open: int|
                comment_open_at(doc@, open, end as int) && open + comment_start().len() <= pos
        },
{
    proof {
        lemma_marker_bytes();
    }
    let start_marker = comment_start_bytes();
    let opening = rfind_upto(doc, start_marker, pos);
    match opening {
        None => {
            assert(!in_comment(doc@, pos as int));
            None
        },
        Some(open) => {
            let closing = find_from(doc, comment_end_bytes(), open + start_marker.len());
            match closing {
                Some(end) if end >= pos => {
                    assert(comment_open_at(doc@, open as int, pos as int));
                    assert(comment_open_at(doc@, open as int, end as int));
                    Some(end)
                },
                Some(end) => {
                    assert forall|o: int| !comment_open_at(doc@, o, pos as int) by {
                        if comment_open_at(doc@, o, pos as int) {
                            if o > open {
                                assert(!matches_at(doc@, comment_start(), o));
                            }
                            assert(o + comment_start().len() <= end < pos);
                        }
                    }
                    None
                },
                None => {
                    assert(!in_comment(doc@, pos as int));
                    None
                },
            }
        },
    }
}

/// Finds the next `<script` at or after `pointer` that no comment encloses,
/// and returns the offset at which it starts.
pub fn find_script_start(source_text: &str, pointer: usize) -> (r: Option<usize>)
    requires
        pointer <= source_text.spec_bytes().len(),
    ensures
        match r {
            Some(pos) => first_script_open(source_text.spec_bytes(), pointer as int) == Some(
                pos as int,
            ),
            None => first_script_open(source_text.spec_bytes(), pointer as int) is None,
        },
{
    let doc = source_text.as_bytes();
    let len = doc.len();
    let start_marker = script_start_bytes();
    let end_marker = comment_end_bytes();
    let mut from = pointer;
    loop
        invariant
            doc@ == source_text.spec_bytes(),
            len == doc@.len(),
            start_marker@ == script_start(),
            end_marker@ == comment_end(),
            pointer <= from <= len,
            forall|k: int| pointer <= k < from ==> !is_script_open(doc@, k),
        decreases doc@.len() - from,
    {
        match find_from(doc, start_marker, from) {
            None => {
                proof {
                    assert forall|pos: int| !is_first_script_open(doc@, pointer as int, pos) by {
                        if pointer <= pos && is_script_open(doc@, pos) {
                            assert(matches_at(doc@, script_start(), pos));
                        }
                    }
                }
                return None;
            },
            Some(pos) => {
                match enclosing_comment_end(doc, pos) {
                    None => {
                        proof {
                            lemma_first_script_open_is(doc@, pointer as int, pos as int);
                        }
                        return Some(pos);
                    },
                    Some(end) => {
                        proof {
                            lemma_marker_bytes();
                            lemma_commented_until(doc@, pos as int, end as int);
                        }
                        from = end + end_marker.len();
                    },
                }
            },
        }
    }
}

/// No opening outside a comment stands between a position and the end marker
/// of a comment that is still open there, nor inside that marker.
proof fn lemma_commented_until(doc: Seq<u8>, pos: int, end: int)
    requires
        pos <= end,
        matches_at(doc, comment_end(), end),
        exists|open: int| comment_open_at(doc, open, end) && open + comment_start().len() <= pos,
    ensures
        forall|k: int| pos <= k < end + comment_end().len() ==> !is_script_open(doc, k),
{
    lemma_marker_bytes();
    let open = choose|open: int|
        comment_open_at(doc, open, end) && open + comment_start().len() <= pos;
    assert forall|k: int| pos <= k < end + comment_end().len() implies !is_script_open(doc, k) by {
        if matches_at(doc, script_start(), k) {
            assert(doc[k] == script_start()[0]) by {
                assert(doc.subrange(k, k + script_start().len())[0] == doc[k]);
            }
            assert(doc[end] == comment_end()[0] && doc[end + 1] == comment_end()[1] && doc[end + 2]
                == comment_end()[2]) by {
                let marker = doc.subrange(end, end + comment_end().len());
                assert(marker[0] == doc[end]);
                assert(marker[1] == doc[end + 1]);
                assert(marker[2] == doc[end + 2]);
            }
            assert(k < end);
            assert(comment_open_at(doc, open, k));
            assert(in_comment(doc, k));
        }
    }
}

/// The name of the tag ends at `pos`: a space or `>` stands there. Anything
/// else continues the name, as in `<script-view`.
pub open spec fn tag_name_ends(doc: Seq<u8>, pos: int) -> bool {
    0 <= pos < doc.len() && (doc[pos] == SPACE || doc[pos] == GREATER_THAN)
}

/// Tells whether the name of a tag ends at `pointer`, the offset just behind
/// `<script`.
pub fn is_tag_name_end(source_text: &str, pointer: usize) -> (r: bool)
    ensures
        r == tag_name_ends(source_text.spec_bytes(), pointer as int),
{
    let doc = source_text.as_bytes();
    pointer < doc.len() && (doc[pointer] == SPACE || doc[pointer] == GREATER_THAN)
}

/// Where the scanner of a tag's interior is: outside any quoted value, or
/// inside one that a single or a double quote opened.
#[derive(Clone, Copy, Debug)]
pub enum QuoteState {
    /// Outside any quoted value: a `>` closes the tag.
    Normal,
    /// Inside a value that `'` opened.
    InSingleQuote,
    /// Inside a value that `"` opened.
    InDoubleQuote,
}

impl QuoteState {
    /// The state after reading `byte`: a quote opens a value, and only the
    /// same quote closes it again.
    pub open spec fn after(self, byte: u8) -> QuoteState {
        match self {
            QuoteState::Normal => if byte == SINGLE_QUOTE {
                QuoteState::InSingleQuote
            } else if byte == DOUBLE_QUOTE {
                QuoteState::InDoubleQuote
            } else {
                QuoteState::Normal
            },
            QuoteState::InSingleQuote => if byte == SINGLE_QUOTE {
                QuoteState::Normal
            } else {
                QuoteState::InSingleQuote
            },
            QuoteState::InDoubleQuote => if byte == DOUBLE_QUOTE {
                QuoteState::Normal
            } else {
                QuoteState::InDoubleQuote
            },
        }
    }

    /// Reads one byte.
    pub fn step(self, byte: u8) -> (r: QuoteState)
        ensures
            r == self.after(byte),
    {
        match self {
            QuoteState::Normal => if byte == SINGLE_QUOTE {
                QuoteState::InSingleQuote
            } else if byte == DOUBLE_QUOTE {
                QuoteState::InDoubleQuote
            } else {
                QuoteState::Normal
            },
            QuoteState::InSingleQuote => if byte == SINGLE_QUOTE {
                QuoteState::Normal
            } else {
                QuoteState::InSingleQuote
            },
            QuoteState::InDoubleQuote => if byte == DOUBLE_QUOTE {
                QuoteState::Normal
            } else {
                QuoteState::InDoubleQuote
            },
        }
    }
}

/// The state of a scanner that started at `from` outside any quoted value
/// and has read the bytes up to `pos`.
pub open spec fn quote_state(doc: Seq<u8>, from: int, pos: int) -> QuoteState
    decreases pos - from,
{
    if pos <= from {
        QuoteState::Normal
    } else {
        quote_state(doc, from, pos - 1).after(doc[pos - 1])
    }
}

/// The first `>` at or after `pos` that a scanner in `state` at `pos` meets
/// outside a quoted value.
pub open spec fn tag_close_in(doc: Seq<u8>, pos: int, state: QuoteState) -> Option<int>
    decreases doc.len() - pos,
{
    if pos < 0 || pos >= doc.len() {
        None
    } else if state is Normal && doc[pos] == GREATER_THAN {
        Some(pos)
    } else {
        tag_close_in(doc, pos + 1, state.after(doc[pos]))
    }
}

/// The `>` that closes the tag whose interior starts at `from`: the first one
/// outside a quoted attribute value.
pub open spec fn tag_close(doc: Seq<u8>, from: int) -> Option<int> {
    tag_close_in(doc, from, QuoteState::Normal)
}

/// `pos` holds a `>` that the scanner from `from` meets outside any quoted
/// value.
pub open spec fn is_unquoted_close(doc: Seq<u8>, from: int, pos: int) -> bool {
    &&& from <= pos < doc.len()
    &&& doc[pos] == GREATER_THAN
    &&& quote_state(doc, from, pos) is Normal
}

/// The scanner resumed at `pos` in the state it has there finds what it
/// finds from `from`, as long as no unquoted `>` came before `pos`.
proof fn lemma_tag_close_resumes(doc: Seq<u8>, from: int, pos: int)
    requires
        0 <= from <= pos <= doc.len(),
        forall|k: int| from <= k < pos ==> !is_unquoted_close(doc, from, k),
    ensures
        tag_close(doc, from) == tag_close_in(doc, pos, quote_state(doc, from, pos)),
    decreases pos - from,
{
    if pos > from {
        lemma_tag_close_resumes(doc, from, pos - 1);
        assert(!is_unquoted_close(doc, from, pos - 1));
    }
}

/// The closing `>` of a tag is the first `>` outside a quoted value: every
/// `>` before it stands inside one. Without such a `>` the tag does not
/// close.
pub proof fn lemma_tag_close_is_first_unquoted(doc: Seq<u8>, from: int)
    requires
        0 <= from <= doc.len(),
    ensures
        tag_close(doc, from) matches Some(close) ==> {
            &&& is_unquoted_close(doc, from, close)
            &&& forall|k: int| from <= k < close ==> !is_unquoted_close(doc, from, k)
        },
        tag_close(doc, from) is None ==> forall|k: int| !is_unquoted_close(doc, from, k),
{
    lemma_tag_close_scan(doc, from, from);
}

/// The same, for a scanner that has reached `pos` without meeting an
/// unquoted `>`.
proof fn lemma_tag_close_scan(doc: Seq<u8>, from: int, pos: int)
    requires
        0 <= from <= pos <= doc.len(),
        forall|k: int| from <= k < pos ==> !is_unquoted_close(doc, from, k),
    ensures
        tag_close(doc, from) matches Some(close) ==> {
            &&& is_unquoted_close(doc, from, close)
            &&& forall|k: int| from <= k < close ==> !is_unquoted_close(doc, from, k)
        },
        tag_close(doc, from) is None ==> forall|k: int| !is_unquoted_close(doc, from, k),
    decreases doc.len() - pos,
{
    lemma_tag_close_resumes(doc, from, pos);
    if pos < doc.len() {
        if is_unquoted_close(doc, from, pos) {
        } else {
            lemma_tag_close_scan(doc, from, pos + 1);
        }
    }
}

/// Finds the `>` that closes the tag whose interior starts at `pointer`, and
/// returns its offset. A `>` inside a quoted attribute value does not count.
pub fn find_script_closing_angle(source_text: &str, pointer: usize) -> (r: Option<usize>)
    requires
        pointer <= source_text.spec_bytes().len(),
    ensures
        match r {
            Some(close) => tag_close(source_text.spec_bytes(), pointer as int) == Some(
                close as int,
            ),
            None => tag_close(source_text.spec_bytes(), pointer as int) is None,
        },
{
    let doc = source_text.as_bytes();
    let len = doc.len();
    let mut pos = pointer;
    let mut state = QuoteState::Normal;
    while pos < len
        invariant
            doc@ == source_text.spec_bytes(),
            len == doc@.len(),
            pointer <= pos <= len,
            tag_close(doc@, pointer as int) == tag_close_in(doc@, pos as int, state),
        decreases len - pos,
    {
        let byte = doc[pos];
        if byte == GREATER_THAN {
            if let QuoteState::Normal = state {
                return Some(pos);
            }
        }
        state = state.step(byte);
        pos = pos + 1;
    }
    None
}

} // verus!
