//! Extraction of the `<script>` blocks of an MPX single-file component, each
//! with its language and its byte offset in the document.
//!
//! [`MpxPartialLoader`] walks a document with one forward cursor. It looks
//! for `<script` outside comments, passes over longer tag names such as
//! `<script-view`, finds the `>` that closes the tag outside quoted attribute
//! values, reads the `lang` attribute, resolves it with the registry of
//! `oxc_span`, and cuts the body out up to the closing marker.
//!
//! - `search`, `markers`, `text`: substring search, the markers, and cutting
//!   a text at byte offsets.
//! - `tag`: where a tag opens and closes.
//! - `lang`: the value of the `lang` attribute.
//! - `source_type`: what is taken on trust of `oxc_span`.
//! - `scan`: the scan as a function of the document.
//! - `loader`: the loader itself.
//! - `laws`: what holds of every scan.

pub mod lang;
pub mod laws;
pub mod loader;
pub mod markers;
pub mod scan;
pub mod search;
pub mod source_type;
pub mod tag;
pub mod text;

pub use loader::{JavaScriptSource, MpxPartialLoader};
