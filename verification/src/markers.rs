//! The four literal markers that the scan looks for, as bytes.

use vstd::prelude::*;
use vstd::string::*;

verus! {

/// What a script tag opens with.
pub const SCRIPT_START: &'static str = "<script";

/// What closes a script block.
pub const SCRIPT_END: &'static str = "</script>";

/// What a comment opens with.
pub const COMMENT_START: &'static str = "<!--";

/// What a comment ends with.
pub const COMMENT_END: &'static str = "-->";

/// The byte `>`.
pub const GREATER_THAN: u8 = 0x3e;

/// The byte of a space.
pub const SPACE: u8 = 0x20;

/// The byte `'`.
pub const SINGLE_QUOTE: u8 = 0x27;

/// The byte `"`.
pub const DOUBLE_QUOTE: u8 = 0x22;

/// The bytes of a text of ASCII characters: one byte for each character.
pub open spec fn ascii_bytes(text: Seq<char>) -> Seq<u8> {
    Seq::new(text.len(), |i: int| text[i] as u8)
}

/// The opening of a script tag.
pub open spec fn script_start() -> Seq<u8> {
    ascii_bytes("<script"@)
}

/// The marker that closes a script block.
pub open spec fn script_end() -> Seq<u8> {
    ascii_bytes("</script>"@)
}

/// The opening of a comment.
pub open spec fn comment_start() -> Seq<u8> {
    ascii_bytes("<!--"@)
}

/// The end of a comment.
pub open spec fn comment_end() -> Seq<u8> {
    ascii_bytes("-->"@)
}

/// The markers byte by byte.
pub proof fn lemma_marker_bytes()
    ensures
        script_start() =~= seq![0x3cu8, 0x73, 0x63, 0x72, 0x69, 0x70, 0x74],
        script_end() =~= seq![0x3cu8, 0x2f, 0x73, 0x63, 0x72, 0x69, 0x70, 0x74, 0x3e],
        comment_start() =~= seq![0x3cu8, 0x21, 0x2d, 0x2d],
        comment_end() =~= seq![0x2du8, 0x2d, 0x3e],
{
    reveal_strlit("<script");
    reveal_strlit("</script>");
    reveal_strlit("<!--");
    reveal_strlit("-->");
}

/// The bytes of a marker that is written in ASCII.
fn marker_bytes(marker: &'static str) -> (r: &'static [u8])
    requires
        is_ascii(marker),
    ensures
        r@ == ascii_bytes(marker@),
{
    broadcast use is_ascii_spec_bytes;

    let r = marker.as_bytes();
    assert(r@ =~= ascii_bytes(marker@));
    r
}

/// The bytes of `SCRIPT_START`.
pub fn script_start_bytes() -> (r: &'static [u8])
    ensures
        r@ == script_start(),
{
    proof {
        reveal_strlit("<script");
    }
    marker_bytes(SCRIPT_START)
}

/// The bytes of `SCRIPT_END`.
pub fn script_end_bytes() -> (r: &'static [u8])
    ensures
        r@ == script_end(),
{
    proof {
        reveal_strlit("</script>");
    }
    marker_bytes(SCRIPT_END)
}

/// The bytes of `COMMENT_START`.
pub fn comment_start_bytes() -> (r: &'static [u8])
    ensures
        r@ == comment_start(),
{
    proof {
        reveal_strlit("<!--");
    }
    marker_bytes(COMMENT_START)
}

/// The bytes of `COMMENT_END`.
pub fn comment_end_bytes() -> (r: &'static [u8])
    ensures
        r@ == comment_end(),
{
    proof {
        reveal_strlit("-->");
    }
    marker_bytes(COMMENT_END)
}

} // verus!
