//! The language registry: `oxc_span` resolves a file extension to a source
//! type. The library only carries that value through; what it knows of it
//! is stated here.

use oxc_span::{SourceType, UnknownExtension};
use vstd::prelude::*;

verus! {

/// `oxc_span::SourceType`, the language of a script: nothing inside it is
/// visible here.
#[verifier::external_type_specification]
#[verifier::external_body]
pub struct ExSourceType(SourceType);

/// `oxc_span::UnknownExtension`, the error of the registry: nothing inside
/// it is visible here.
#[verifier::external_type_specification]
#[verifier::external_body]
pub struct ExUnknownExtension(UnknownExtension);

/// The source type that `SourceType::from_extension` gives for a known
/// extension.
pub uninterp spec fn extension_source_type(extension: Seq<char>) -> SourceType;

/// What `SourceType::with_standard` returns.
pub uninterp spec fn with_standard_variant(source_type: SourceType, yes: bool) -> SourceType;

/// What `SourceType::is_jsx` returns: the source type is of the JSX variant.
pub uninterp spec fn source_type_is_jsx(source_type: SourceType) -> bool;

/// What `SourceType::is_javascript` returns: the language is JavaScript, not
/// TypeScript.
pub uninterp spec fn source_type_is_javascript(source_type: SourceType) -> bool;

/// What `SourceType::is_module` returns: the source is an ECMAScript module.
pub uninterp spec fn source_type_is_module(source_type: SourceType) -> bool;

/// The extensions that the registry knows.
pub open spec fn is_known_extension(extension: Seq<char>) -> bool {
    ||| extension == "js"@
    ||| extension == "mjs"@
    ||| extension == "cjs"@
    ||| extension == "jsx"@
    ||| extension == "ts"@
    ||| extension == "mts"@
    ||| extension == "cts"@
    ||| extension == "tsx"@
}

/// The known extensions of the JSX variant.
pub open spec fn is_jsx_extension(extension: Seq<char>) -> bool {
    extension == "jsx"@ || extension == "tsx"@
}

/// The known extensions of JavaScript; the others are of TypeScript.
pub open spec fn is_javascript_extension(extension: Seq<char>) -> bool {
    ||| extension == "js"@
    ||| extension == "mjs"@
    ||| extension == "cjs"@
    ||| extension == "jsx"@
}

/// The known extensions of ECMAScript modules; `cjs` and `cts` are scripts.
pub open spec fn is_module_extension(extension: Seq<char>) -> bool {
    ||| extension == "js"@
    ||| extension == "mjs"@
    ||| extension == "jsx"@
    ||| extension == "ts"@
    ||| extension == "mts"@
    ||| extension == "tsx"@
}

/// `SourceType::from_extension` succeeds on the eight extensions `js`, `mjs`,
/// `cjs`, `jsx`, `ts`, `mts`, `cts` and `tsx`, and on nothing else. The source
/// type depends on the extension alone. It is of the JSX variant for `jsx`
/// and `tsx`, of JavaScript for `js`, `mjs`, `cjs` and `jsx`, and a module
/// for all but `cjs` and `cts`.
pub assume_specification[ SourceType::from_extension ](extension: &str) -> (r: Result<
    SourceType,
    UnknownExtension,
>)
    ensures
        r is Ok <==> is_known_extension(extension@),
        r matches Ok(source_type) ==> {
            &&& source_type == extension_source_type(extension@)
            &&& source_type_is_jsx(source_type) <==> is_jsx_extension(extension@)
            &&& source_type_is_javascript(source_type) <==> is_javascript_extension(extension@)
            &&& source_type_is_module(source_type) <==> is_module_extension(extension@)
        },
;

/// `SourceType::with_standard` sets the variant to standard where `yes` holds,
/// so that the result is not of the JSX variant, and changes nothing else: a
/// source type that is not of the JSX variant, or any with `yes` false, comes
/// back as it was, and the language and the module kind stay in any case.
pub assume_specification[ SourceType::with_standard ](source_type: SourceType, yes: bool) -> (r:
    SourceType)
    ensures
        r == with_standard_variant(source_type, yes),
        yes ==> !source_type_is_jsx(r),
        !yes || !source_type_is_jsx(source_type) ==> r == source_type,
        source_type_is_javascript(r) == source_type_is_javascript(source_type),
        source_type_is_module(r) == source_type_is_module(source_type),
;

} // verus!
