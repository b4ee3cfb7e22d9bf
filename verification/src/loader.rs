//! The loader: it walks a document with one forward cursor and hands out
//! each script block with its language and its offset.

use crate::lang::{chars_of, find_lang_value, lang_token, trim_bounds, DEFAULT_LANG};
use crate::markers::{lemma_marker_bytes, script_end, script_end_bytes, script_start_bytes};
use crate::scan::{
    is_tagged, lemma_known_extensions_with_x, lemma_next_block_advances, next_block,
    script_blocks, script_blocks_from, tagged_source_type, ScriptBlock, Step,
};
use crate::search::{find_from, first_match};
use crate::source_type::{
    extension_source_type, is_known_extension, source_type_is_javascript, source_type_is_jsx,
    source_type_is_module,
};
use crate::tag::{
    find_script_closing_angle, find_script_start, is_tag_name_end, lemma_first_script_open_found,
    lemma_tag_close_is_first_unquoted,
};
use crate::text::{contains_char, lemma_boundary_after_ascii, slice_text};
use oxc_span::SourceType;
use vstd::prelude::*;
use vstd::string::*;
use vstd::utf8::*;

verus! {

/// A script that was extracted from a document.
#[derive(Clone, Copy, Debug)]
pub struct JavaScriptSource<'a> {
    /// The body of the script block.
    pub source_text: &'a str,
    /// The language of the script.
    pub source_type: SourceType,
    /// The byte offset of the body in the document.
    pub start: usize,
}

impl<'a> JavaScriptSource<'a> {
    /// A script that is a part of a larger document, `start` bytes into it.
    pub fn partial(source_text: &'a str, source_type: SourceType, start: usize) -> (r: Self)
        ensures
            r.source_text == source_text,
            r.source_type == source_type,
            r.start == start,
    {
        JavaScriptSource { source_text, source_type, start }
    }

    /// This script is the block `block` of the document `doc`: it holds the
    /// block's body, starts just behind the opening tag, and has the source
    /// type of the block's language token.
    pub open spec fn is_block(self, doc: Seq<u8>, block: ScriptBlock) -> bool {
        &&& self.source_text.spec_bytes() == block.body(doc)
        &&& self.start == block.start()
        &&& self.source_type == block.source_type()
        &&& is_tagged(self.source_type, block.token)
    }
}

/// Gives the source type that the registry resolved for the token `lang` the
/// variant that the token asks for: without the letter `x` in the token the
/// source type is made standard, whatever the registry said.
pub fn tag_source_type(lang: &str, resolved: SourceType) -> (r: SourceType)
    ensures
        r == tagged_source_type(lang@, resolved),
        lang@.contains('x') ==> r == resolved,
        !lang@.contains('x') ==> !source_type_is_jsx(r),
        source_type_is_javascript(r) == source_type_is_javascript(resolved),
        source_type_is_module(r) == source_type_is_module(resolved),
{
    if contains_char(lang, 'x') {
        resolved
    } else {
        resolved.with_standard(true)
    }
}

/// Resolves a language token: the source type of a token that the registry
/// knows, with the variant that the token asks for, and `None` for any
/// other token.
pub fn resolve_language(lang: &str) -> (r: Option<SourceType>)
    ensures
        r is Some <==> is_known_extension(lang@),
        r matches Some(source_type) ==> {
            &&& source_type == tagged_source_type(lang@, extension_source_type(lang@))
            &&& is_tagged(source_type, lang@)
        },
{
    match SourceType::from_extension(lang) {
        Ok(resolved) => {
            proof {
                lemma_known_extensions_with_x(lang@);
            }
            Some(tag_source_type(lang, resolved))
        },
        Err(_) => None,
    }
}

/// Extracts the body that starts at `js_start`, just behind an opening tag:
/// it runs up to the next closing marker. Returns the script and the offset
/// behind the marker, or `None` where no closing marker follows.
pub fn extract_body<'a>(source_text: &'a str, js_start: usize, source_type: SourceType) -> (r:
    Option<(JavaScriptSource<'a>, usize)>)
    requires
        js_start <= source_text.spec_bytes().len(),
        is_char_boundary(source_text.spec_bytes(), js_start as int),
    ensures
        match first_match(source_text.spec_bytes(), script_end(), js_start as int) {
            Some(end) => r matches Some((source, next)) && {
                &&& source.source_text.spec_bytes() == source_text.spec_bytes().subrange(
                    js_start as int,
                    end,
                )
                &&& source.source_type == source_type
                &&& source.start == js_start
                &&& next == end + script_end().len()
            },
            None => r is None,
        },
{
    broadcast use encode_utf8_valid_utf8;

    let doc = source_text.as_bytes();
    let marker = script_end_bytes();
    match find_from(doc, marker, js_start) {
        None => None,
        Some(js_end) => {
            proof {
                lemma_marker_bytes();
                vstd::slice::axiom_spec_len(doc);
                assert(doc@.subrange(js_end as int, js_end + script_end().len())[0]
                    == doc@[js_end as int]);
                lemma_boundary_after_ascii(doc@, js_end as int);
            }
            let body = slice_text(source_text, js_start, js_end);
            Some((JavaScriptSource::partial(body, source_type, js_start), js_end + marker.len()))
        },
    }
}

/// The loader of one document.
pub struct MpxPartialLoader<'a> {
    source_text: &'a str,
}

impl<'a> View for MpxPartialLoader<'a> {
    type V = Seq<char>;

    closed spec fn view(&self) -> Seq<char> {
        self.source_text@
    }
}

impl<'a> MpxPartialLoader<'a> {
    /// The document as bytes, which all offsets count.
    pub open spec fn document(&self) -> Seq<u8> {
        encode_utf8(self@)
    }

    /// `sources` are the script blocks of the document: one script for each
    /// block, in the order of the document.
    pub open spec fn extracts(&self, sources: Seq<JavaScriptSource<'a>>) -> bool {
        &&& sources.len() == script_blocks(self.document()).len()
        &&& forall|i: int|
            0 <= i < sources.len() ==> (#[trigger] sources[i]).is_block(
                self.document(),
                script_blocks(self.document())[i],
            )
    }

    /// A loader for the document `source_text`.
    pub fn new(source_text: &'a str) -> (r: Self)
        ensures
            r@ == source_text@,
    {
        Self { source_text }
    }

    /// Extracts the language token from the interior of a script tag: the
    /// value of the `lang` attribute, quoted or not, and `mjs` where the
    /// attribute is absent or malformed.
    pub fn extract_lang_attribute<'b>(content: &'b str) -> (r: &'b str)
        ensures
            r@ == lang_token(content@),
    {
        let chars = chars_of(content);
        let (start, end) = trim_bounds(&chars);
        let content = content.substring_char(start, end);
        let chars = chars_of(content);
        match find_lang_value(&chars) {
            Some((start, end)) => content.substring_char(start, end),
            None => DEFAULT_LANG,
        }
    }

    /// Extracts the script blocks of the document, in its order: each with
    /// its body, its language and the byte offset of its body. A document
    /// without a block gives an empty result.
    pub fn parse(self) -> (r: Vec<JavaScriptSource<'a>>)
        ensures
            self.extracts(r@),
    {
        self.parse_scripts()
    }

    /// Extracts one block after the other from the start of the document,
    /// until the scan stops.
    pub fn parse_scripts(&self) -> (r: Vec<JavaScriptSource<'a>>)
        ensures
            self.extracts(r@),
    {
        let mut results: Vec<JavaScriptSource<'a>> = Vec::new();
        let mut pointer: usize = 0;
        let ghost doc = self.document();
        let ghost blocks = script_blocks(doc);
        loop
            invariant_except_break
                pointer <= doc.len(),
                blocks.skip(results@.len() as int) == script_blocks_from(doc, pointer as int),
            invariant
                doc == self.document(),
                blocks == script_blocks(doc),
                results@.len() <= blocks.len(),
                forall|i: int|
                    0 <= i < results@.len() ==> (#[trigger] results@[i]).is_block(doc, blocks[i]),
            ensures
                results@.len() == blocks.len(),
                forall|i: int|
                    0 <= i < results@.len() ==> (#[trigger] results@[i]).is_block(doc, blocks[i]),
            decreases doc.len() - pointer,
        {
            proof {
                lemma_next_block_advances(doc, pointer as int);
            }
            let ghost before = results@.len() as int;
            match self.parse_script(&mut pointer) {
                Some(result) => {
                    results.push(result);
                    proof {
                        let rest = blocks.skip(before);
                        assert(rest.len() > 0);
                        assert(blocks[before] == rest[0]);
                        assert(blocks.skip(before + 1) =~= rest.skip(1));
                        assert(rest.skip(1) =~= script_blocks_from(doc, pointer as int));
                    }
                },
                None => {
                    proof {
                        assert(blocks.skip(before).len() == 0);
                    }
                    break ;
                },
            }
        }
        results
    }

    /// Extracts the next block at or after `pointer`, and moves `pointer`
    /// behind it. Returns `None` where the scan stops; `pointer` then stays
    /// where the scan gave up.
    pub fn parse_script(&self, pointer: &mut usize) -> (r: Option<JavaScriptSource<'a>>)
        requires
            *old(pointer) <= self.document().len(),
        ensures
            match next_block(self.document(), *old(pointer) as int) {
                Step::Found { block, next } => {
                    &&& r matches Some(source) && source.is_block(self.document(), block)
                    &&& *final(pointer) == next
                },
                Step::Stop { cursor } => r is None && *final(pointer) == cursor,
            },
    {
        broadcast use encode_utf8_valid_utf8;

        let source_text = self.source_text;
        let len = source_text.as_bytes().len();
        let ghost doc = self.document();
        loop
            invariant
                doc == self.document(),
                doc == source_text.spec_bytes(),
                valid_utf8(doc),
                len == doc.len(),
                *pointer <= len,
                next_block(doc, *old(pointer) as int) == next_block(doc, *pointer as int),
            decreases doc.len() - *pointer,
        {
            proof {
                lemma_marker_bytes();
                lemma_first_script_open_found(doc, *pointer as int);
            }
            let Some(open) = find_script_start(source_text, *pointer) else {
                return None;
            };
            *pointer = open + script_start_bytes().len();
            if !is_tag_name_end(source_text, *pointer) {
                continue ;
            }
            proof {
                lemma_tag_close_is_first_unquoted(doc, *pointer as int);
            }
            let Some(close) = find_script_closing_angle(source_text, *pointer) else {
                return None;
            };
            proof {
                lemma_boundary_after_ascii(doc, *pointer as int);
                lemma_boundary_after_ascii(doc, close as int);
            }
            let content = slice_text(source_text, *pointer, close);
            let lang = Self::extract_lang_attribute(content);
            *pointer = close + 1;
            let Some(source_type) = resolve_language(lang) else {
                continue ;
            };
            let Some((source, next)) = extract_body(source_text, *pointer, source_type) else {
                return None;
            };
            *pointer = next;
            return Some(source);
        }
    }
}

} // verus!
