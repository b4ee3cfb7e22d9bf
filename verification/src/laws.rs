//! What holds of every scan: the laws that relate the blocks of a document
//! to its tags, its comments and its languages.

use crate::lang::{lang_key, lang_token, lemma_absent_lang_is_default};
use crate::markers::{
    comment_end, comment_start, lemma_marker_bytes, script_end, script_start, GREATER_THAN,
};
use crate::scan::{
    is_block_of, is_tagged, lemma_known_extensions_with_x, lemma_next_block_advances, next_block,
    script_blocks, script_blocks_from, tag_interior, ScriptBlock, Step,
};
use crate::search::{first_match, is_first_match, matches_at};
use crate::source_type::{
    is_jsx_extension, is_known_extension, source_type_is_javascript, source_type_is_jsx,
    source_type_is_module,
};
use crate::tag::{
    comment_open_at, first_script_open, in_comment, is_script_open, is_unquoted_close,
    lemma_first_script_open_found, lemma_first_script_open_is, lemma_tag_close_is_first_unquoted,
    quote_state, tag_close, tag_name_ends,
};
use oxc_span::SourceType;
use vstd::prelude::*;

verus! {

/// Every block that a scan from `cursor` on extracts is a script block of
/// the document and lies at or behind the cursor, and each block ends before
/// the next one opens: the blocks come in the order of the document, and
/// their offsets grow strictly.
pub proof fn lemma_blocks_in_order(doc: Seq<u8>, cursor: int)
    ensures
        forall|i: int|
            0 <= i < script_blocks_from(doc, cursor).len() ==> {
                let block = #[trigger] script_blocks_from(doc, cursor)[i];
                &&& is_block_of(doc, block)
                &&& cursor <= block.open
                &&& block.open < block.close < block.start() <= block.end < block.next()
                    <= doc.len()
            },
        forall|i: int, j: int|
            0 <= i < j < script_blocks_from(doc, cursor).len() ==> (
            #[trigger] script_blocks_from(doc, cursor)[i]).next() <= (#[trigger] script_blocks_from(
                doc,
                cursor,
            )[j]).open,
    decreases doc.len() - cursor,
{
    lemma_next_block_advances(doc, cursor);
    lemma_marker_bytes();
    let blocks = script_blocks_from(doc, cursor);
    match next_block(doc, cursor) {
        Step::Stop { .. } => {},
        Step::Found { block, next } => {
            lemma_blocks_in_order(doc, next);
            lemma_tag_close_is_first_unquoted(doc, block.open + script_start().len());
            let rest = script_blocks_from(doc, next);
            assert forall|i: int| 0 <= i < blocks.len() implies {
                let b = #[trigger] blocks[i];
                &&& is_block_of(doc, b)
                &&& cursor <= b.open
                &&& b.open < b.close < b.start() <= b.end < b.next() <= doc.len()
            } by {
                if i > 0 {
                    assert(blocks[i] == rest[i - 1]);
                }
            }
            assert forall|i: int, j: int| 0 <= i < j < blocks.len() implies (
            #[trigger] blocks[i]).next() <= (#[trigger] blocks[j]).open by {
                assert(blocks[j] == rest[j - 1]);
                if i > 0 {
                    assert(blocks[i] == rest[i - 1]);
                }
            }
        },
    }
}

/// The offset of a block is the length of the part of the document that
/// ends with the `>` of the block's opening tag.
pub proof fn lemma_start_follows_tag(doc: Seq<u8>, i: int)
    requires
        0 <= i < script_blocks(doc).len(),
    ensures
        ({
            let block = script_blocks(doc)[i];
            let head = doc.subrange(0, block.start());
            &&& head.len() == block.start()
            &&& head.last() == GREATER_THAN
            &&& tag_close(doc, block.open + script_start().len()) == Some(block.start() - 1)
        }),
{
    lemma_blocks_in_order(doc, 0);
    let block = script_blocks(doc)[i];
    lemma_tag_close_is_first_unquoted(doc, block.open + script_start().len());
}

/// A `<script` inside a comment opens no block: where a comment opens
/// before it, and the first end of a comment behind that opening comes only
/// behind the `<script`, no block opens there.
pub proof fn lemma_commented_tag_opens_no_block(doc: Seq<u8>, pos: int, open: int, end: int)
    requires
        matches_at(doc, comment_start(), open),
        open + comment_start().len() <= pos <= end,
        is_first_match(doc, comment_end(), open + comment_start().len(), end),
    ensures
        in_comment(doc, pos),
        forall|i: int|
            0 <= i < script_blocks(doc).len() ==> (#[trigger] script_blocks(doc)[i]).open != pos,
{
    assert(comment_open_at(doc, open, pos));
    lemma_blocks_in_order(doc, 0);
}

/// A tag whose name goes on behind `script`, as in `<script-view`, opens no
/// block.
pub proof fn lemma_longer_name_opens_no_block(doc: Seq<u8>, pos: int)
    requires
        !tag_name_ends(doc, pos + script_start().len()),
    ensures
        forall|i: int|
            0 <= i < script_blocks(doc).len() ==> (#[trigger] script_blocks(doc)[i]).open != pos,
{
    lemma_blocks_in_order(doc, 0);
}

/// A tag whose name goes on behind `script` is passed over: the scan finds
/// behind it what it would find if the scan started there.
pub proof fn lemma_longer_name_is_passed_over(doc: Seq<u8>, cursor: int, pos: int)
    requires
        first_script_open(doc, cursor) == Some(pos),
        !tag_name_ends(doc, pos + script_start().len()),
    ensures
        next_block(doc, cursor) == next_block(doc, pos + script_start().len()),
        script_blocks_from(doc, cursor) == script_blocks_from(doc, pos + script_start().len()),
{
    lemma_marker_bytes();
    lemma_first_script_open_found(doc, cursor);
}

/// A `>` inside a quoted attribute value does not close the tag: every `>`
/// between `<script` and the `>` that closes the tag of a block stands
/// inside a quoted value.
pub proof fn lemma_quoted_close_is_ignored(doc: Seq<u8>, i: int, pos: int)
    requires
        0 <= i < script_blocks(doc).len(),
        script_blocks(doc)[i].open + script_start().len() <= pos < script_blocks(doc)[i].close,
        doc[pos] == GREATER_THAN,
    ensures
        !(quote_state(doc, script_blocks(doc)[i].open + script_start().len(), pos) is Normal),
{
    lemma_blocks_in_order(doc, 0);
    let interior = script_blocks(doc)[i].open + script_start().len();
    lemma_tag_close_is_first_unquoted(doc, interior);
    assert(!is_unquoted_close(doc, interior, pos));
}

/// The token of a tag without `lang` in its interior is the default, `mjs`.
/// The registry knows it, so that such a tag is never dropped for its
/// language, and a source type that is tagged with it is a plain module of
/// JavaScript: not of the JSX variant.
pub proof fn lemma_absent_lang_is_plain_module(text: Seq<char>, source_type: SourceType)
    requires
        forall|k: int| !matches_at(text, lang_key(), k),
        is_tagged(source_type, lang_token(text)),
    ensures
        lang_token(text) == "mjs"@,
        is_known_extension(lang_token(text)),
        source_type_is_module(source_type),
        source_type_is_javascript(source_type),
        !source_type_is_jsx(source_type),
{
    lemma_absent_lang_is_default(text);
    reveal_strlit("mjs");
}

/// A source type that is tagged with a token of the registry is of the JSX
/// variant for `jsx` and `tsx`, which hold the letter `x`, and for no other
/// token.
pub proof fn lemma_jsx_goes_by_the_letter(source_type: SourceType, token: Seq<char>)
    requires
        is_known_extension(token),
        is_tagged(source_type, token),
    ensures
        source_type_is_jsx(source_type) <==> token.contains('x'),
        source_type_is_jsx(source_type) <==> is_jsx_extension(token),
{
    lemma_known_extensions_with_x(token);
}

/// A tag with a language token that the registry does not know yields no
/// block: the scan goes on behind the tag.
pub proof fn lemma_unknown_language_is_dropped(doc: Seq<u8>, cursor: int, open: int, close: int)
    requires
        first_script_open(doc, cursor) == Some(open),
        tag_name_ends(doc, open + script_start().len()),
        tag_close(doc, open + script_start().len()) == Some(close),
        !is_known_extension(lang_token(tag_interior(doc, open, close))),
    ensures
        next_block(doc, cursor) == next_block(doc, close + 1),
        script_blocks_from(doc, cursor) == script_blocks_from(doc, close + 1),
        forall|i: int|
            0 <= i < script_blocks(doc).len() ==> (#[trigger] script_blocks(doc)[i]).open != open,
{
    lemma_marker_bytes();
    lemma_first_script_open_found(doc, cursor);
    lemma_tag_close_is_first_unquoted(doc, open + script_start().len());
    lemma_blocks_in_order(doc, 0);
}

/// A tag that is not terminated ends the scan: where its opening tag never
/// closes, or no closing marker follows it, the scan yields nothing from
/// there on, whatever follows.
pub proof fn lemma_unterminated_tag_stops_scan(doc: Seq<u8>, cursor: int, open: int)
    requires
        first_script_open(doc, cursor) == Some(open),
        tag_name_ends(doc, open + script_start().len()),
        match tag_close(doc, open + script_start().len()) {
            None => true,
            Some(close) => is_known_extension(lang_token(tag_interior(doc, open, close)))
                && first_match(doc, script_end(), close + 1) is None,
        },
    ensures
        next_block(doc, cursor) is Stop,
        script_blocks_from(doc, cursor) == Seq::<ScriptBlock>::empty(),
{
    lemma_marker_bytes();
    lemma_first_script_open_found(doc, cursor);
    lemma_tag_close_is_first_unquoted(doc, open + script_start().len());
}

/// A script tag stands at `pos`: `<script` outside any comment, with the
/// name ending behind it.
pub open spec fn is_script_tag(doc: Seq<u8>, pos: int) -> bool {
    is_script_open(doc, pos) && tag_name_ends(doc, pos + script_start().len())
}

/// The block of the tag at `pos`, where the tag is complete.
pub open spec fn block_at(doc: Seq<u8>, pos: int) -> ScriptBlock {
    let close = tag_close(doc, pos + script_start().len())->0;
    ScriptBlock {
        open: pos,
        close,
        end: first_match(doc, script_end(), close + 1)->0,
        token: lang_token(tag_interior(doc, pos, close)),
    }
}

/// The script tag at `pos` is complete: its opening tag closes, the registry
/// knows its language token, and a closing marker follows.
pub open spec fn is_complete_tag(doc: Seq<u8>, pos: int) -> bool {
    &&& is_script_tag(doc, pos)
    &&& tag_close(doc, pos + script_start().len()) matches Some(close) && {
        &&& is_known_extension(lang_token(tag_interior(doc, pos, close)))
        &&& first_match(doc, script_end(), close + 1) is Some
    }
}

/// The document is well formed, with its script tags at the offsets `tags`:
/// these are all its script tags, in the order of the document, each of
/// them is complete, and each opens behind the closing marker of the one
/// before it.
#[verifier::opaque]
pub open spec fn is_well_formed(doc: Seq<u8>, tags: Seq<int>) -> bool {
    &&& forall|pos: int| is_script_tag(doc, pos) <==> tags.contains(pos)
    &&& forall|i: int, j: int| 0 <= i < j < tags.len() ==> tags[i] < tags[j]
    &&& forall|i: int| 0 <= i < tags.len() ==> is_complete_tag(doc, #[trigger] tags[i])
    &&& forall|i: int|
        0 <= i && i + 1 < tags.len() ==> block_at(doc, #[trigger] tags[i]).next() <= tags[i + 1]
}

/// Two occurrences of `<script` do not overlap.
proof fn lemma_script_starts_apart(doc: Seq<u8>, first: int, second: int)
    requires
        matches_at(doc, script_start(), first),
        matches_at(doc, script_start(), second),
        first < second,
    ensures
        first + script_start().len() <= second,
{
    lemma_marker_bytes();
    let len = script_start().len();
    if second < first + len {
        let at_first = doc.subrange(first, first + len);
        let at_second = doc.subrange(second, second + len);
        assert(at_second[0] == doc[second]);
        assert(at_first[second - first] == doc[second]);
    }
}

/// A scan that starts at or before a script tag, with no other script tag
/// in between, finds what a scan from the tag finds.
proof fn lemma_scan_reaches_tag(doc: Seq<u8>, cursor: int, tag: int)
    requires
        cursor <= tag,
        is_script_tag(doc, tag),
        forall|k: int| cursor <= k < tag ==> !is_script_tag(doc, k),
    ensures
        next_block(doc, cursor) == next_block(doc, tag),
    decreases tag - cursor,
{
    lemma_marker_bytes();
    lemma_first_script_open_found(doc, cursor);
    lemma_first_script_open_is(doc, tag, tag);
    let open = first_script_open(doc, cursor)->0;
    if open < tag {
        assert(!is_script_tag(doc, open));
        lemma_script_starts_apart(doc, open, tag);
        lemma_scan_reaches_tag(doc, open + script_start().len(), tag);
    }
}

/// A scan that starts behind the last script tag finds nothing.
proof fn lemma_scan_without_tags(doc: Seq<u8>, cursor: int)
    requires
        forall|k: int| cursor <= k ==> !is_script_tag(doc, k),
    ensures
        next_block(doc, cursor) is Stop,
    decreases doc.len() - cursor,
{
    lemma_marker_bytes();
    lemma_first_script_open_found(doc, cursor);
    if let Some(open) = first_script_open(doc, cursor) {
        assert(!is_script_tag(doc, open));
        lemma_scan_without_tags(doc, open + script_start().len());
    }
}

/// The scan from a complete tag finds the block of that tag.
proof fn lemma_complete_tag_is_found(doc: Seq<u8>, tag: int)
    requires
        is_complete_tag(doc, tag),
    ensures
        next_block(doc, tag) == (Step::Found {
            block: block_at(doc, tag),
            next: block_at(doc, tag).next(),
        }),
{
    lemma_first_script_open_is(doc, tag, tag);
}

/// In a well-formed document every script tag behind `tags[i - 1]` is one of
/// the tags from `tags[i]` on.
proof fn lemma_tags_behind(doc: Seq<u8>, tags: Seq<int>, i: int, pos: int)
    requires
        is_well_formed(doc, tags),
        0 <= i <= tags.len(),
        i > 0 ==> tags[i - 1] < pos,
        is_script_tag(doc, pos),
    ensures
        i < tags.len(),
        tags[i] <= pos,
{
    reveal(is_well_formed);
    assert(tags.contains(pos));
    let j = choose|j: int| 0 <= j < tags.len() && tags[j] == pos;
    if j < i - 1 {
        assert(tags[j] < tags[i - 1]);
    }
    if i < j {
        assert(tags[i] < tags[j]);
    }
}

/// Each tag of a well-formed document is complete, and its block ends
/// before the next tag.
proof fn lemma_tag_of_well_formed(doc: Seq<u8>, tags: Seq<int>, i: int)
    requires
        is_well_formed(doc, tags),
        0 <= i < tags.len(),
    ensures
        is_complete_tag(doc, tags[i]),
        i + 1 < tags.len() ==> block_at(doc, tags[i]).next() <= tags[i + 1],
{
    reveal(is_well_formed);
}

/// A scan from `cursor` that meets the complete tag `tag` first yields the
/// block of that tag, and then what a scan from behind that block yields.
proof fn lemma_blocks_from_tag(doc: Seq<u8>, cursor: int, tag: int)
    requires
        cursor <= tag,
        is_complete_tag(doc, tag),
        forall|k: int| cursor <= k < tag ==> !is_script_tag(doc, k),
    ensures
        tag < block_at(doc, tag).next(),
        script_blocks_from(doc, cursor) == seq![block_at(doc, tag)] + script_blocks_from(
            doc,
            block_at(doc, tag).next(),
        ),
{
    lemma_scan_reaches_tag(doc, cursor, tag);
    lemma_complete_tag_is_found(doc, tag);
    lemma_next_block_advances(doc, tag);
}

/// A scan from `cursor` with no script tag at or behind it yields nothing.
proof fn lemma_blocks_without_tags(doc: Seq<u8>, cursor: int)
    requires
        forall|k: int| cursor <= k ==> !is_script_tag(doc, k),
    ensures
        script_blocks_from(doc, cursor) == Seq::<ScriptBlock>::empty(),
{
    lemma_scan_without_tags(doc, cursor);
}

/// The scan of a well-formed document from a cursor between the tag before
/// `tags[i]` and `tags[i]` itself yields the blocks of the tags from the
/// `i`-th on.
proof fn lemma_well_formed_from(doc: Seq<u8>, tags: Seq<int>, i: int, cursor: int)
    requires
        is_well_formed(doc, tags),
        0 <= i <= tags.len(),
        i > 0 ==> tags[i - 1] < cursor,
        i < tags.len() ==> cursor <= tags[i],
    ensures
        script_blocks_from(doc, cursor).len() == tags.len() - i,
        forall|j: int|
            0 <= j < tags.len() - i ==> #[trigger] script_blocks_from(doc, cursor)[j] == block_at(
                doc,
                tags[i + j],
            ),
    decreases tags.len() - i,
{
    if i == tags.len() {
        assert forall|k: int| cursor <= k implies !is_script_tag(doc, k) by {
            if is_script_tag(doc, k) {
                lemma_tags_behind(doc, tags, i, k);
            }
        }
        lemma_blocks_without_tags(doc, cursor);
    } else {
        let tag = tags[i];
        let block = block_at(doc, tag);
        lemma_tag_of_well_formed(doc, tags, i);
        assert forall|k: int| cursor <= k < tag implies !is_script_tag(doc, k) by {
            if is_script_tag(doc, k) {
                lemma_tags_behind(doc, tags, i, k);
            }
        }
        lemma_blocks_from_tag(doc, cursor, tag);
        lemma_well_formed_from(doc, tags, i + 1, block.next());
        let blocks = script_blocks_from(doc, cursor);
        let rest = script_blocks_from(doc, block.next());
        assert(blocks == seq![block] + rest);
        assert forall|j: int| 0 <= j < tags.len() - i implies #[trigger] blocks[j] == block_at(
            doc,
            tags[i + j],
        ) by {
            if j > 0 {
                assert(blocks[j] == rest[j - 1]);
            }
        }
    }
}

/// A well-formed document with `n` script tags has `n` blocks, one for each
/// tag, in the order of the document.
pub proof fn lemma_well_formed_document(doc: Seq<u8>, tags: Seq<int>)
    requires
        is_well_formed(doc, tags),
    ensures
        script_blocks(doc).len() == tags.len(),
        forall|i: int|
            0 <= i < tags.len() ==> #[trigger] script_blocks(doc)[i] == block_at(doc, tags[i]),
{
    lemma_marker_bytes();
    if tags.len() > 0 {
        lemma_tag_of_well_formed(doc, tags, 0);
        assert(matches_at(doc, script_start(), tags[0]));
    }
    lemma_well_formed_from(doc, tags, 0, 0);
}

} // verus!
