//! Pre-tokenizers split a text into the chunks that BPE then works on.

use vstd::prelude::*;
use crate::error::Error;

verus! {

#[verifier::external_type_specification]
#[verifier::external_body]
pub struct ExRegex(fancy_regex::Regex);

/// The byte contents of a sequence of chunks.
pub open spec fn chunk_views<T>(v: Seq<&[T]>) -> Seq<Seq<T>> {
    Seq::new(v.len(), |i: int| v[i]@)
}

/// Splits a text into chunks.
pub trait PreTokenizer: Send + Sync {
    /// The chunks of `text`, or `None` when the split fails.
    spec fn chunks(&self, text: Seq<char>) -> Option<Seq<Seq<u8>>>;

    fn pre_tokenize<'a>(&self, text: &'a str) -> (res: Result<Vec<&'a [u8]>, Error>)
        ensures
            match res {
                Ok(v) => self.chunks(text@) == Some(chunk_views(v@)),
                Err(_) => self.chunks(text@) is None,
            },
    ;
}

/// Whether `fancy_regex` compiles `pattern` (with default options).
pub uninterp spec fn regex_compiles(pattern: Seq<char>) -> bool;

/// The matches, as UTF-8 bytes, that `fancy_regex` finds one after the
/// other in `text` for the regex compiled from `pattern`; `None` when the
/// search stops with an error (such as the backtracking limit).
pub uninterp spec fn regex_find_all(pattern: Seq<char>, text: Seq<char>) -> Option<
    Seq<Seq<u8>>,
>;

/// A pre-tokenizer that takes the successive matches of a regular
/// expression as chunks.
pub struct RegexPreTokenizer {
    regex: fancy_regex::Regex,
    pattern: String,
}

/// Calls `fancy_regex::Regex::new(pattern)` and keeps the compiled regex
/// together with its source. The contract claims that the call succeeds
/// exactly when the named predicate `regex_compiles` holds of the pattern,
/// and that the kept source is the pattern. Since this is the only place
/// that builds a `RegexPreTokenizer`, the regex of each one is the regex
/// compiled from its `pattern`.
#[verifier::external_body]
fn compile(pattern: &str) -> (res: Option<RegexPreTokenizer>)
    ensures
        res is Some <==> regex_compiles(pattern@),
        res matches Some(t) ==> t.pattern@ == pattern@,
{
    match fancy_regex::Regex::new(pattern) {
        Ok(regex) => Some(RegexPreTokenizer { regex, pattern: pattern.to_string() }),
        Err(_) => None,
    }
}

/// Calls `fancy_regex::Regex::find_iter` with the pre-tokenizer's regex on
/// `text` and collects the bytes of the matches, in order, stopping with
/// `None` at the first error the iterator yields. The contract claims the
/// result is the named `regex_find_all` of the pre-tokenizer's pattern and
/// the text; no property of the matches is claimed.
#[verifier::external_body]
fn find_all<'a>(t: &RegexPreTokenizer, text: &'a str) -> (res: Option<Vec<&'a [u8]>>)
    ensures
        match res {
            Some(v) => regex_find_all(t.pattern@, text@) == Some(chunk_views(v@)),
            None => regex_find_all(t.pattern@, text@) is None,
        },
{
    let mut chunks = Vec::new();
    for m in t.regex.find_iter(text) {
        match m {
            Ok(m) => chunks.push(m.as_str().as_bytes()),
            Err(_) => return None,
        }
    }
    Some(chunks)
}

impl RegexPreTokenizer {
    /// The source of the regex.
    pub closed spec fn pattern(&self) -> Seq<char> {
        self.pattern@
    }

    /// Compiles `pattern`; fails when it does not compile.
    pub fn new(pattern: &str) -> (res: Result<Self, Error>)
        ensures
            match res {
                Ok(t) => regex_compiles(pattern@) && t.pattern() == pattern@,
                Err(e) => !regex_compiles(pattern@) && e == Error::InvalidPattern,
            },
    {
        match compile(pattern) {
            Some(t) => Ok(t),
            None => Err(Error::InvalidPattern),
        }
    }
}

impl PreTokenizer for RegexPreTokenizer {
    open spec fn chunks(&self, text: Seq<char>) -> Option<Seq<Seq<u8>>> {
        regex_find_all(self.pattern(), text)
    }

    fn pre_tokenize<'a>(&self, text: &'a str) -> (res: Result<Vec<&'a [u8]>, Error>)
        ensures
            res matches Err(e) ==> e == Error::PreTokenizeFailed,
    {
        match find_all(self, text) {
            Some(v) => Ok(v),
            None => Err(Error::PreTokenizeFailed),
        }
    }
}

/// The pattern of the Llama 3 pre-tokenizer.
pub open spec fn llama_bpe_pattern() -> Seq<char> {
    r"(?:'[sS]|'[tT]|'[rR][eE]|'[vV][eE]|'[mM]|'[lL][lL]|'[dD])|[^\r\n\p{L}\p{N}]?\p{L}+|\p{N}{1,3}| ?[^\s\p{L}\p{N}]+[\r\n]*|\s*[\r\n]+|\s+(?!\S)|\s+"@
}

/// The pattern of the GPT-2 pre-tokenizer.
pub open spec fn gpt2_pattern() -> Seq<char> {
    r"'s|'t|'re|'ve|'m|'ll|'d| ?\p{L}+| ?\p{N}+| ?[^\s\p{L}\p{N}]+|\s+(?!\S)|\s+"@
}

/// The pattern of the pre-tokenizer called `name`, if there is one.
pub open spec fn pattern_for(name: Seq<char>) -> Option<Seq<char>> {
    if name == "llama-bpe"@ {
        Some(llama_bpe_pattern())
    } else if name == "gpt2"@ || name == "gpt-2"@ {
        Some(gpt2_pattern())
    } else {
        None
    }
}

/// The pre-tokenizers by name: `gpt2` and `gpt-2` both have the GPT-2
/// pattern, which keeps a run of digits (with an optional leading space)
/// whole; `llama-bpe` has the Llama 3 pattern, which cuts digits into
/// groups of at most three; no other name has a pattern.
pub proof fn law_pre_tokenizer_patterns(name: Seq<char>)
    ensures
        pattern_for("gpt2"@) == Some(
            r"'s|'t|'re|'ve|'m|'ll|'d| ?\p{L}+| ?\p{N}+| ?[^\s\p{L}\p{N}]+|\s+(?!\S)|\s+"@,
        ),
        pattern_for("gpt-2"@) == Some(
            r"'s|'t|'re|'ve|'m|'ll|'d| ?\p{L}+| ?\p{N}+| ?[^\s\p{L}\p{N}]+|\s+(?!\S)|\s+"@,
        ),
        pattern_for("gpt-2"@) == pattern_for("gpt2"@),
        pattern_for("llama-bpe"@) == Some(
            r"(?:'[sS]|'[tT]|'[rR][eE]|'[vV][eE]|'[mM]|'[lL][lL]|'[dD])|[^\r\n\p{L}\p{N}]?\p{L}+|\p{N}{1,3}| ?[^\s\p{L}\p{N}]+[\r\n]*|\s*[\r\n]+|\s+(?!\S)|\s+"@,
        ),
        pattern_for(name) is Some <==> name == "gpt2"@ || name == "gpt-2"@ || name
            == "llama-bpe"@,
{
    reveal_strlit("gpt2");
    reveal_strlit("gpt-2");
    reveal_strlit("llama-bpe");
    assert("gpt2"@.len() == 4 && "gpt-2"@.len() == 5 && "llama-bpe"@.len() == 9);
}

/// The pre-tokenizer called `name`: `llama-bpe`, or `gpt2` (also spelled
/// `gpt-2`).
pub fn create_pre_tokenizer(name: &str) -> (res: Result<RegexPreTokenizer, Error>)
    ensures
        match res {
            Ok(t) => pattern_for(name@) == Some(t.pattern()) && regex_compiles(t.pattern()),
            Err(e) => match pattern_for(name@) {
                None => e == Error::UnsupportedPreTokenizer,
                Some(p) => !regex_compiles(p) && e == Error::InvalidPattern,
            },
        },
{
    let n = name.to_owned();
    if n == "llama-bpe".to_owned() {
        RegexPreTokenizer::new(
            r"(?:'[sS]|'[tT]|'[rR][eE]|'[vV][eE]|'[mM]|'[lL][lL]|'[dD])|[^\r\n\p{L}\p{N}]?\p{L}+|\p{N}{1,3}| ?[^\s\p{L}\p{N}]+[\r\n]*|\s*[\r\n]+|\s+(?!\S)|\s+",
        )
    } else if n == "gpt2".to_owned() || n == "gpt-2".to_owned() {
        RegexPreTokenizer::new(
            r"'s|'t|'re|'ve|'m|'ll|'d| ?\p{L}+| ?\p{N}+| ?[^\s\p{L}\p{N}]+|\s+(?!\S)|\s+",
        )
    } else {
        Err(Error::UnsupportedPreTokenizer)
    }
}

} // verus!
