//! The scan of a document as a mathematical function: which script blocks it
//! holds, in the order in which a single forward cursor meets them.

use crate::lang::lang_token;
use crate::markers::{lemma_marker_bytes, script_end, script_start};
use crate::search::{first_match, is_first_match, lemma_first_match_found};
use crate::source_type::{
    extension_source_type, is_javascript_extension, is_jsx_extension, is_known_extension,
    is_module_extension, source_type_is_javascript, source_type_is_jsx, source_type_is_module,
    with_standard_variant,
};
use crate::tag::{
    first_script_open, is_script_open, lemma_first_script_open_found,
    lemma_tag_close_is_first_unquoted, tag_close, tag_name_ends,
};
use oxc_span::SourceType;
use vstd::prelude::*;
use vstd::utf8::*;

verus! {

/// One script block of a document, by the offsets of its parts.
pub struct ScriptBlock {
    /// Where `<script` starts.
    pub open: int,
    /// Where the `>` stands that closes the opening tag.
    pub close: int,
    /// Where the closing marker starts.
    pub end: int,
    /// The language token of the tag.
    pub token: Seq<char>,
}

/// The text between `<script` and the `>` that closes the tag.
pub open spec fn tag_interior(doc: Seq<u8>, open: int, close: int) -> Seq<char> {
    decode_utf8(doc.subrange(open + script_start().len(), close))
}

/// The source type of a block with the language token `token`, which the
/// registry resolves to `resolved`: a token without the letter `x` never
/// stands for a JSX variant.
pub open spec fn tagged_source_type(token: Seq<char>, resolved: SourceType) -> SourceType {
    if token.contains('x') {
        resolved
    } else {
        with_standard_variant(resolved, true)
    }
}

/// `source_type` is what the token `token` stands for: the language and the
/// module kind are those of the token in the registry, and the variant is
/// JSX where the token holds the letter `x`, and standard where not.
pub open spec fn is_tagged(source_type: SourceType, token: Seq<char>) -> bool {
    &&& source_type_is_jsx(source_type) <==> token.contains('x')
    &&& source_type_is_javascript(source_type) <==> is_javascript_extension(token)
    &&& source_type_is_module(source_type) <==> is_module_extension(token)
}

/// The known extensions that hold the letter `x` are `jsx` and `tsx`.
pub proof fn lemma_known_extensions_with_x(extension: Seq<char>)
    requires
        is_known_extension(extension),
    ensures
        extension.contains('x') <==> is_jsx_extension(extension),
{
    reveal_strlit("js");
    reveal_strlit("mjs");
    reveal_strlit("cjs");
    reveal_strlit("jsx");
    reveal_strlit("ts");
    reveal_strlit("mts");
    reveal_strlit("cts");
    reveal_strlit("tsx");
    if extension == "jsx"@ || extension == "tsx"@ {
        assert(extension[2] == 'x');
    }
}

impl ScriptBlock {
    /// The offset of the body: just behind the `>` of the opening tag.
    pub open spec fn start(self) -> int {
        self.close + 1
    }

    /// The bytes of the body.
    pub open spec fn body(self, doc: Seq<u8>) -> Seq<u8> {
        doc.subrange(self.start(), self.end)
    }

    /// The offset just behind the closing marker, where the scan goes on.
    pub open spec fn next(self) -> int {
        self.end + script_end().len()
    }

    /// The source type that the block is tagged with.
    pub open spec fn source_type(self) -> SourceType {
        tagged_source_type(self.token, extension_source_type(self.token))
    }
}

/// What the scan meets next: a block, or the end of what it can scan.
pub enum Step {
    /// A block, and the cursor behind it.
    Found { block: ScriptBlock, next: int },
    /// No further block; the cursor stays where the scan gave up.
    Stop { cursor: int },
}

/// The next block at or after `cursor`.
///
/// The scan goes to the first `<script` outside a comment. Where the tag's
/// name goes on, it resumes behind `<script`. Where the tag never closes, it
/// stops. Where the registry does not know the language token, it resumes
/// behind the tag. Where no closing marker follows the tag, it stops.
pub open spec fn next_block(doc: Seq<u8>, cursor: int) -> Step
    decreases doc.len() - cursor,
{
    match first_script_open(doc, cursor) {
        None => Step::Stop { cursor },
        Some(open) => {
            let interior = open + script_start().len();
            proof {
                lemma_marker_bytes();
                lemma_first_script_open_found(doc, cursor);
            }
            if !tag_name_ends(doc, interior) {
                next_block(doc, interior)
            } else {
                match tag_close(doc, interior) {
                    None => Step::Stop { cursor: interior },
                    Some(close) => {
                        let token = lang_token(tag_interior(doc, open, close));
                        proof {
                            lemma_tag_close_is_first_unquoted(doc, interior);
                        }
                        if !is_known_extension(token) {
                            next_block(doc, close + 1)
                        } else {
                            match first_match(doc, script_end(), close + 1) {
                                None => Step::Stop { cursor: close + 1 },
                                Some(end) => {
                                    let block = ScriptBlock { open, close, end, token };
                                    Step::Found { block, next: block.next() }
                                },
                            }
                        }
                    },
                }
            }
        },
    }
}

/// The script blocks that a scan from `cursor` on extracts, in the order of
/// the document.
pub open spec fn script_blocks_from(doc: Seq<u8>, cursor: int) -> Seq<ScriptBlock>
    decreases doc.len() - cursor,
{
    match next_block(doc, cursor) {
        Step::Stop { .. } => Seq::empty(),
        Step::Found { block, next } => {
            proof {
                lemma_next_block_advances(doc, cursor);
            }
            seq![block] + script_blocks_from(doc, next)
        },
    }
}

/// The script blocks of a document.
pub open spec fn script_blocks(doc: Seq<u8>) -> Seq<ScriptBlock> {
    script_blocks_from(doc, 0)
}

/// A block that the scan finds from `cursor` on is well formed, lies behind
/// the cursor and leaves the cursor inside the document; a scan that stops
/// never leaves the cursor before the place where it started.
pub proof fn lemma_next_block_advances(doc: Seq<u8>, cursor: int)
    ensures
        match next_block(doc, cursor) {
            Step::Found { block, next } => {
                &&& cursor <= block.open
                &&& is_block_of(doc, block)
                &&& next == block.next()
                &&& cursor < next <= doc.len()
            },
            Step::Stop { cursor: last } => cursor <= last && (cursor <= doc.len() ==> last
                <= doc.len()),
        },
    decreases doc.len() - cursor,
{
    lemma_marker_bytes();
    lemma_first_script_open_found(doc, cursor);
    if let Some(open) = first_script_open(doc, cursor) {
        let interior = open + script_start().len();
        if !tag_name_ends(doc, interior) {
            lemma_next_block_advances(doc, interior);
        } else {
            lemma_tag_close_is_first_unquoted(doc, interior);
            if let Some(close) = tag_close(doc, interior) {
                let token = lang_token(tag_interior(doc, open, close));
                if !is_known_extension(token) {
                    lemma_next_block_advances(doc, close + 1);
                } else {
                    lemma_first_match_found(doc, script_end(), close + 1);
                }
            }
        }
    }
}

/// `block` is a script block of `doc`: an opening tag outside any comment
/// whose name ends behind `<script`, closed by the first `>` outside a
/// quoted value, with a language token that the registry knows, and a body
/// that runs up to the first closing marker behind the tag.
pub open spec fn is_block_of(doc: Seq<u8>, block: ScriptBlock) -> bool {
    let interior = block.open + script_start().len();
    &&& is_script_open(doc, block.open)
    &&& tag_name_ends(doc, interior)
    &&& tag_close(doc, interior) == Some(block.close)
    &&& block.token == lang_token(tag_interior(doc, block.open, block.close))
    &&& is_known_extension(block.token)
    &&& is_first_match(doc, script_end(), block.start(), block.end)
}

} // verus!
