//! The closed error taxonomy of the engine. Every failure, at parse time or
//! at run time, is one of these variants; each carries enough context (file,
//! line and the offending values) to render a precise diagnostic.

use crate::text::dec_digits;
use crate::text::push_all;
use crate::text::u64_to_dec;
use vstd::prelude::*;

verus! {

/// Every error the engine can produce. Text payloads are byte strings, as
/// all recipe-file text is.
#[derive(Debug, Clone, PartialEq, Eq)]
pub enum HakuError {
    /// No recipe name was given and no default recipe exists.
    DefaultRecipeError,
    /// An engine invariant was broken; carries a description.
    InternalError(Vec<u8>),
    /// A feature guard names a malformed feature; carries the name and a
    /// source-position suffix.
    InvalidFeatureName(Vec<u8>, Vec<u8>),
    /// A file could not be opened; carries the path and the reason.
    FileOpenFailure(Vec<u8>, Vec<u8>),
    /// A file could not be read; carries the path.
    FileReadFailure(Vec<u8>),
    /// A file index is not loaded; carries the index.
    FileNotLoaded(usize),
    /// A file-inclusion target does not exist; carries the resolved path and
    /// a source-position suffix.
    IncludeNotFound(Vec<u8>, Vec<u8>),
    /// Malformed syntax; carries the offending text and a source-position
    /// suffix.
    ParseError(Vec<u8>, Vec<u8>),
    /// A FOR range bound is not an integer; carries the bound's role and the
    /// offending text.
    SeqIntError(Vec<u8>, Vec<u8>),
    /// A FOR range is invalid; carries from, to and step.
    SeqError(i64, i64, i64),
    /// A FOR loop variable name is empty; carries a source-position suffix.
    SeqVarNameError(Vec<u8>),
    /// A file-inclusion chain revisits a file already being parsed; carries
    /// the resolved path.
    IncludeRecursionError(Vec<u8>),
    /// A recipe re-enters itself through its dependency chain; carries the
    /// recipe name and a source-position suffix.
    RecipeRecursionError(Vec<u8>, Vec<u8>),
    /// No recipe of this name exists; carries the name.
    RecipeNotFoundError(Vec<u8>),
    /// The recipe exists but its feature guard is false; carries the name.
    RecipeDisabledError(Vec<u8>),
    /// A shell command failed to spawn or exited non-zero; carries the
    /// command, the underlying reason and a source-position suffix.
    ExecFailureError(Vec<u8>, Vec<u8>, Vec<u8>),
    /// A built-in function call failed; carries a description.
    FunctionError(Vec<u8>),
    /// A file-inclusion directive stood inside a recipe body; carries a
    /// source-position suffix.
    IncludeInRecipeError(Vec<u8>),
    /// An END with no open IF/WHILE/FOR block; carries a source-position
    /// suffix.
    StrayEndError(Vec<u8>),
    /// A FOR loop whose step is zero would never end; carries a
    /// source-position suffix.
    ForeverForError(Vec<u8>),
    /// An IF/WHILE/FOR block was never closed; carries the construct's
    /// keyword and a source-position suffix.
    NoMatchingEndError(Vec<u8>, Vec<u8>),
    /// A BREAK or CONTINUE with no enclosing FOR or WHILE; carries a
    /// source-position suffix.
    NoMatchingForWhileError(Vec<u8>),
    /// An ELSE with no open IF block; carries a source-position suffix.
    StrayElseError(Vec<u8>),
    /// An ELSEIF with no open IF block; carries a source-position suffix.
    StrayElseIfError(Vec<u8>),
    /// A variadic recipe parameter is not the last one; carries the name.
    RecipeListArgError(Vec<u8>),
    /// An ASSERT condition was false; carries the condition text and a
    /// source-position suffix.
    AssertError(Vec<u8>, Vec<u8>),
    /// A user-raised error; carries the message and a source-position
    /// suffix.
    UserError(Vec<u8>, Vec<u8>),
    /// A directory change failed; carries the target and the reason.
    CdError(Vec<u8>, Vec<u8>),
}

/// The byte text `"\n    at "` that prefixes every source-position suffix.
pub open spec fn at_prefix() -> Seq<u8> {
    seq![10u8, 32u8, 32u8, 32u8, 32u8, 97u8, 116u8, 32u8]
}

/// What `HakuError::error_extra` renders: `"\n    at <filename>:<line>"`,
/// with the filename omitted when it is empty.
pub open spec fn error_extra_spec(filename: Seq<u8>, line_no: nat) -> Seq<u8> {
    at_prefix() + filename + seq![58u8] + dec_digits(line_no)
}

impl HakuError {
    /// Generates detailed information about the place where an error
    /// happened: `"\n    at <filename>:<line>"`.
    pub fn error_extra(filename: &[u8], line_no: usize) -> (r: Vec<u8>)
        ensures
            r@ == error_extra_spec(filename@, line_no as nat),
    {
        let mut r: Vec<u8> = Vec::new();
        r.push(10);
        r.push(32);
        r.push(32);
        r.push(32);
        r.push(32);
        r.push(97);
        r.push(116);
        r.push(32);
        proof {
            assert(r@ =~= at_prefix());
        }
        push_all(&mut r, filename);
        r.push(58);
        let digits = u64_to_dec(line_no as u64);
        push_all(&mut r, digits.as_slice());
        proof {
            assert(r@ =~= error_extra_spec(filename@, line_no as nat));
        }
        r
    }
}

} // verus!
