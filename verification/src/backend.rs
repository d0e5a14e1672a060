//! Trusted bindings to the text-processing backend.
//!
//! Every function here wraps exactly one backend operation of the
//! `tokenizers` crate. The engine trusts the stated contracts; results that
//! would take pages to state (Unicode normalization, case folding, the
//! splitting rules) are given names — uninterpreted spec functions — and the
//! contracts of the verified engine speak of those names.

use vstd::prelude::*;

use tokenizers::{Normalizer, PreTokenizer};

use crate::errors::ExecutionError;
use crate::pre_tokenizers::SplitBehavior;

verus! {

// ---------------------------------------------------------------------------
// Names for backend results. Each names the result of one backend operation,
// a function of the listed arguments alone.
// ---------------------------------------------------------------------------

/// Whether `char::is_whitespace` holds of `c`.
pub uninterp spec fn whitespace_char(c: char) -> bool;

/// What tk's `Lowercase` normalizer turns `s` into.
pub uninterp spec fn lower_of(s: Seq<char>) -> Seq<char>;

/// What tk's `NFC` normalizer turns `s` into.
pub uninterp spec fn nfc_of(s: Seq<char>) -> Seq<char>;

/// What tk's `NFD` normalizer turns `s` into.
pub uninterp spec fn nfd_of(s: Seq<char>) -> Seq<char>;

/// What tk's `NFKC` normalizer turns `s` into.
pub uninterp spec fn nfkc_of(s: Seq<char>) -> Seq<char>;

/// What tk's `NFKD` normalizer turns `s` into.
pub uninterp spec fn nfkd_of(s: Seq<char>) -> Seq<char>;

/// What tk's `Nmt` normalizer turns `s` into.
pub uninterp spec fn nmt_of(s: Seq<char>) -> Seq<char>;

/// What tk's `StripAccents` normalizer turns `s` into.
pub uninterp spec fn accents_stripped_of(s: Seq<char>) -> Seq<char>;

/// What tk's `BertNormalizer` with the given configuration turns `s` into.
pub uninterp spec fn bert_of(
    clean_text: bool,
    handle_chinese_chars: bool,
    strip_accents: Option<bool>,
    lowercase: bool,
    s: Seq<char>,
) -> Seq<char>;

/// What tk's `Replace` normalizer with the given literal pattern and
/// replacement turns `s` into.
pub uninterp spec fn replace_of(pattern: Seq<char>, content: Seq<char>, s: Seq<char>) -> Seq<char>;

/// Whether `Replace::new` accepts the given literal pattern.
pub uninterp spec fn replace_pattern_ok(pattern: Seq<char>) -> bool;

// ---------------------------------------------------------------------------
// Whitespace, stated exactly: tk's Strip trims the characters that
// `char::is_whitespace` accepts.
// ---------------------------------------------------------------------------

/// Relies on `char::is_whitespace`: a pure predicate on the character.
pub assume_specification[ char::is_whitespace ](c: char) -> (r: bool)
    ensures
        r == whitespace_char(c),
;

/// How many leading whitespace characters `s` carries.
pub open spec fn leading_ws(s: Seq<char>) -> int
    decreases s.len(),
{
    if s.len() == 0 || !whitespace_char(s.first()) {
        0
    } else {
        1 + leading_ws(s.drop_first())
    }
}

/// How many trailing whitespace characters `s` carries.
pub open spec fn trailing_ws(s: Seq<char>) -> int
    decreases s.len(),
{
    if s.len() == 0 || !whitespace_char(s.last()) {
        0
    } else {
        1 + trailing_ws(s.drop_last())
    }
}

/// What trimming whitespace on the chosen ends leaves of `s`: the substring
/// between the trimmed prefix and suffix, or nothing when they cover all of
/// `s`.
pub open spec fn strip_of(left: bool, right: bool, s: Seq<char>) -> Seq<char> {
    let l = if left {
        leading_ws(s)
    } else {
        0
    };
    let t = if right {
        trailing_ws(s)
    } else {
        0
    };
    if l + t >= s.len() {
        Seq::empty()
    } else {
        s.subrange(l, s.len() - t)
    }
}

/// What prepending `prefix` leaves of `s`: unchanged when `s` is empty, the
/// concatenation otherwise.
pub open spec fn prepend_of(prefix: Seq<char>, s: Seq<char>) -> Seq<char> {
    if s.len() == 0 {
        s
    } else {
        prefix + s
    }
}

// ---------------------------------------------------------------------------
// Normalizer runs. Each builds one backend normalizer, runs it over a fresh
// normalized string and hands back the rewritten text.
// ---------------------------------------------------------------------------

/// Relies on tk's `Lowercase` normalizer: lowercases every character; its
/// `normalize` always returns `Ok`.
#[verifier::external_body]
pub(crate) fn run_lowercase(input: &str) -> (r: Result<String, ExecutionError>)
    ensures
        r is Ok,
        r matches Ok(out) ==> out@ == lower_of(input@),
{
    let mut n = tokenizers::NormalizedString::from(input);
    match tokenizers::normalizers::Lowercase.normalize(&mut n) {
        Ok(()) => Ok(n.get().to_owned()),
        Err(e) => Err(ExecutionError::Backend(e.to_string())),
    }
}

/// Relies on tk's `NFC` normalizer: Unicode normalization form C; its
/// `normalize` always returns `Ok`.
#[verifier::external_body]
pub(crate) fn run_nfc(input: &str) -> (r: Result<String, ExecutionError>)
    ensures
        r is Ok,
        r matches Ok(out) ==> out@ == nfc_of(input@),
{
    let mut n = tokenizers::NormalizedString::from(input);
    match tokenizers::normalizers::NFC.normalize(&mut n) {
        Ok(()) => Ok(n.get().to_owned()),
        Err(e) => Err(ExecutionError::Backend(e.to_string())),
    }
}

/// Relies on tk's `NFD` normalizer: Unicode normalization form D; its
/// `normalize` always returns `Ok`.
#[verifier::external_body]
pub(crate) fn run_nfd(input: &str) -> (r: Result<String, ExecutionError>)
    ensures
        r is Ok,
        r matches Ok(out) ==> out@ == nfd_of(input@),
{
    let mut n = tokenizers::NormalizedString::from(input);
    match tokenizers::normalizers::NFD.normalize(&mut n) {
        Ok(()) => Ok(n.get().to_owned()),
        Err(e) => Err(ExecutionError::Backend(e.to_string())),
    }
}

/// Relies on tk's `NFKC` normalizer: Unicode normalization form KC; its
/// `normalize` always returns `Ok`.
#[verifier::external_body]
pub(crate) fn run_nfkc(input: &str) -> (r: Result<String, ExecutionError>)
    ensures
        r is Ok,
        r matches Ok(out) ==> out@ == nfkc_of(input@),
{
    let mut n = tokenizers::NormalizedString::from(input);
    match tokenizers::normalizers::NFKC.normalize(&mut n) {
        Ok(()) => Ok(n.get().to_owned()),
        Err(e) => Err(ExecutionError::Backend(e.to_string())),
    }
}

/// Relies on tk's `NFKD` normalizer: Unicode normalization form KD; its
/// `normalize` always returns `Ok`.
#[verifier::external_body]
pub(crate) fn run_nfkd(input: &str) -> (r: Result<String, ExecutionError>)
    ensures
        r is Ok,
        r matches Ok(out) ==> out@ == nfkd_of(input@),
{
    let mut n = tokenizers::NormalizedString::from(input);
    match tokenizers::normalizers::NFKD.normalize(&mut n) {
        Ok(()) => Ok(n.get().to_owned()),
        Err(e) => Err(ExecutionError::Backend(e.to_string())),
    }
}

/// Relies on tk's `Nmt` normalizer: control-character and whitespace
/// cleaning; its `normalize` always returns `Ok`.
#[verifier::external_body]
pub(crate) fn run_nmt(input: &str) -> (r: Result<String, ExecutionError>)
    ensures
        r is Ok,
        r matches Ok(out) ==> out@ == nmt_of(input@),
{
    let mut n = tokenizers::NormalizedString::from(input);
    match tokenizers::normalizers::Nmt.normalize(&mut n) {
        Ok(()) => Ok(n.get().to_owned()),
        Err(e) => Err(ExecutionError::Backend(e.to_string())),
    }
}

/// Relies on tk's `StripAccents` normalizer: removes combining marks; its
/// `normalize` always returns `Ok`.
#[verifier::external_body]
pub(crate) fn run_strip_accents(input: &str) -> (r: Result<String, ExecutionError>)
    ensures
        r is Ok,
        r matches Ok(out) ==> out@ == accents_stripped_of(input@),
{
    let mut n = tokenizers::NormalizedString::from(input);
    match tokenizers::normalizers::StripAccents.normalize(&mut n) {
        Ok(()) => Ok(n.get().to_owned()),
        Err(e) => Err(ExecutionError::Backend(e.to_string())),
    }
}

/// Relies on tk's `BertNormalizer`: the result depends on the four
/// configuration fields and the characters alone; its `normalize` always
/// returns `Ok`.
#[verifier::external_body]
pub(crate) fn run_bert(
    clean_text: bool,
    handle_chinese_chars: bool,
    strip_accents: Option<bool>,
    lowercase: bool,
    input: &str,
) -> (r: Result<String, ExecutionError>)
    ensures
        r is Ok,
        r matches Ok(out) ==> out@ == bert_of(clean_text, handle_chinese_chars, strip_accents, lowercase, input@),
{
    let b = tokenizers::normalizers::BertNormalizer::new(
        clean_text,
        handle_chinese_chars,
        strip_accents,
        lowercase,
    );
    let mut n = tokenizers::NormalizedString::from(input);
    match b.normalize(&mut n) {
        Ok(()) => Ok(n.get().to_owned()),
        Err(e) => Err(ExecutionError::Backend(e.to_string())),
    }
}

/// Relies on tk's `Strip` normalizer, which trims the characters accepted by
/// `char::is_whitespace` from the chosen ends; its `normalize` always
/// returns `Ok`.
#[verifier::external_body]
pub(crate) fn run_strip(strip_left: bool, strip_right: bool, input: &str) -> (r: Result<String, ExecutionError>)
    ensures
        r is Ok,
        r matches Ok(out) ==> out@ == strip_of(strip_left, strip_right, input@),
{
    let s = tokenizers::normalizers::Strip::new(strip_left, strip_right);
    let mut n = tokenizers::NormalizedString::from(input);
    match s.normalize(&mut n) {
        Ok(()) => Ok(n.get().to_owned()),
        Err(e) => Err(ExecutionError::Backend(e.to_string())),
    }
}

/// Relies on tk's `Prepend` normalizer, which prepends its string to every
/// non-empty input and leaves the empty input alone; its `normalize` always
/// returns `Ok`.
#[verifier::external_body]
pub(crate) fn run_prepend(prefix: &str, input: &str) -> (r: Result<String, ExecutionError>)
    ensures
        r is Ok,
        r matches Ok(out) ==> out@ == prepend_of(prefix@, input@),
{
    let p = tokenizers::normalizers::Prepend::new(prefix.to_owned());
    let mut n = tokenizers::NormalizedString::from(input);
    match p.normalize(&mut n) {
        Ok(()) => Ok(n.get().to_owned()),
        Err(e) => Err(ExecutionError::Backend(e.to_string())),
    }
}

/// Relies on tk's `Replace::new` with a literal (escaped) pattern: whether
/// the pattern is accepted depends on the pattern alone.
#[verifier::external_body]
pub(crate) fn replace_pattern_valid(pattern: &str) -> (ok: bool)
    ensures
        ok == replace_pattern_ok(pattern@),
{
    tokenizers::normalizers::Replace::new(pattern, String::new()).is_ok()
}

/// Relies on tk's `Replace` normalizer with a literal pattern: construction
/// succeeds exactly when `Replace::new` accepts the pattern, and its
/// `normalize` then always returns `Ok` with every occurrence replaced.
#[verifier::external_body]
pub(crate) fn run_replace(pattern: &str, content: &str, input: &str) -> (r: Result<String, ExecutionError>)
    ensures
        r.is_ok() <==> replace_pattern_ok(pattern@),
        r matches Ok(out) ==> out@ == replace_of(pattern@, content@, input@),
{
    match tokenizers::normalizers::Replace::new(pattern, content) {
        Ok(rep) => {
            let mut n = tokenizers::NormalizedString::from(input);
            match rep.normalize(&mut n) {
                Ok(()) => Ok(n.get().to_owned()),
                Err(e) => Err(ExecutionError::Backend(e.to_string())),
            }
        },
        Err(e) => Err(ExecutionError::Backend(e.to_string())),
    }
}


// ---------------------------------------------------------------------------
// Pre-tokenizer runs. Each builds one backend pre-tokenizer, runs it over a
// fresh pre-tokenized string and hands back the ordered spans with their
// character offsets into the given text.
// ---------------------------------------------------------------------------

/// The mathematical image of a span list: each span's text together with
/// its character offsets.
pub open spec fn splits_view(v: Seq<(String, (usize, usize))>) -> Seq<(Seq<char>, (int, int))> {
    v.map(|i: int, t: (String, (usize, usize))| (t.0@, (t.1.0 as int, t.1.1 as int)))
}

/// What tk's `BertPreTokenizer` splits `s` into.
pub uninterp spec fn bert_splits_of(s: Seq<char>) -> Seq<(Seq<char>, (int, int))>;

/// What tk's `ByteLevel` pre-tokenizer with the given configuration splits
/// `s` into.
pub uninterp spec fn byte_level_splits_of(add_prefix_space: bool, use_regex: bool, s: Seq<char>) -> Seq<(Seq<char>, (int, int))>;

/// What tk's `CharDelimiterSplit` on the given delimiter splits `s` into.
pub uninterp spec fn char_delimiter_splits_of(delimiter: char, s: Seq<char>) -> Seq<(Seq<char>, (int, int))>;

/// What tk's `Digits` pre-tokenizer splits `s` into.
pub uninterp spec fn digits_splits_of(individual_digits: bool, s: Seq<char>) -> Seq<(Seq<char>, (int, int))>;

/// What tk's `Metaspace` pre-tokenizer splits `s` into.
pub uninterp spec fn metaspace_splits_of(replacement: char, add_prefix_space: bool, s: Seq<char>) -> Seq<(Seq<char>, (int, int))>;

/// What tk's `Punctuation` pre-tokenizer splits `s` into.
pub uninterp spec fn punctuation_splits_of(behavior: SplitBehavior, s: Seq<char>) -> Seq<(Seq<char>, (int, int))>;

/// What tk's `Split` pre-tokenizer with the given literal pattern splits
/// `s` into.
pub uninterp spec fn split_splits_of(pattern: Seq<char>, behavior: SplitBehavior, invert: bool, s: Seq<char>) -> Seq<(Seq<char>, (int, int))>;

/// Whether `Split::new` accepts the given literal pattern.
pub uninterp spec fn split_pattern_ok(pattern: Seq<char>) -> bool;

/// What tk's `UnicodeScripts` pre-tokenizer splits `s` into.
pub uninterp spec fn unicode_scripts_splits_of(s: Seq<char>) -> Seq<(Seq<char>, (int, int))>;

/// What tk's `Whitespace` pre-tokenizer splits `s` into.
pub uninterp spec fn whitespace_splits_of(s: Seq<char>) -> Seq<(Seq<char>, (int, int))>;

/// What tk's `WhitespaceSplit` pre-tokenizer splits `s` into.
pub uninterp spec fn whitespace_split_splits_of(s: Seq<char>) -> Seq<(Seq<char>, (int, int))>;

/// tk's split-delimiter behavior, carried opaquely through the conversion
/// below.
#[verifier::external_type_specification]
#[verifier::external_body]
pub struct ExSplitDelimiterBehavior(tokenizers::SplitDelimiterBehavior);

/// tk's pre-tokenized string, carried opaquely into `collect_splits`.
#[verifier::external_type_specification]
#[verifier::external_body]
pub struct ExPreTokenizedString(tokenizers::PreTokenizedString);

/// Relies on tk's `SplitDelimiterBehavior`: translates the library's
/// behavior, one variant to one variant.
#[verifier::external_body]
fn tk_behavior(b: SplitBehavior) -> tokenizers::SplitDelimiterBehavior {
    match b {
        SplitBehavior::Removed => tokenizers::SplitDelimiterBehavior::Removed,
        SplitBehavior::Isolated => tokenizers::SplitDelimiterBehavior::Isolated,
        SplitBehavior::MergedWithPrevious => tokenizers::SplitDelimiterBehavior::MergedWithPrevious,
        SplitBehavior::MergedWithNext => tokenizers::SplitDelimiterBehavior::MergedWithNext,
        SplitBehavior::Contiguous => tokenizers::SplitDelimiterBehavior::Contiguous,
    }
}

/// Relies on tk's `BertPreTokenizer`: whitespace split then isolated
/// punctuation; its `pre_tokenize` always returns `Ok`.
#[verifier::external_body]
pub(crate) fn run_pt_bert(input: &str) -> (r: Result<Vec<(String, (usize, usize))>, ExecutionError>)
    ensures
        r is Ok,
        r matches Ok(out) ==> splits_view(out@) == bert_splits_of(input@),
{
    let mut p = tokenizers::PreTokenizedString::from(input);
    match tokenizers::pre_tokenizers::bert::BertPreTokenizer.pre_tokenize(&mut p) {
        Ok(()) => Ok(collect_splits(p)),
        Err(e) => Err(ExecutionError::Backend(e.to_string())),
    }
}

/// Relies on tk's `ByteLevel` pre-tokenizer (with offset trimming left at
/// its default); its `pre_tokenize` always returns `Ok`.
#[verifier::external_body]
pub(crate) fn run_pt_byte_level(add_prefix_space: bool, use_regex: bool, input: &str) -> (r: Result<Vec<(String, (usize, usize))>, ExecutionError>)
    ensures
        r is Ok,
        r matches Ok(out) ==> splits_view(out@) == byte_level_splits_of(add_prefix_space, use_regex, input@),
{
    let b = tokenizers::pre_tokenizers::byte_level::ByteLevel::default()
        .add_prefix_space(add_prefix_space)
        .use_regex(use_regex);
    let mut p = tokenizers::PreTokenizedString::from(input);
    match b.pre_tokenize(&mut p) {
        Ok(()) => Ok(collect_splits(p)),
        Err(e) => Err(ExecutionError::Backend(e.to_string())),
    }
}

/// Relies on tk's `ByteLevel::alphabet`: the byte-level alphabet holds one
/// printable representation for each of the 256 byte values; the iteration
/// order of the set is not fixed.
#[verifier::external_body]
pub(crate) fn byte_level_alphabet() -> (r: Vec<String>)
    ensures
        r@.len() == 256,
{
    tokenizers::pre_tokenizers::byte_level::ByteLevel::alphabet()
        .into_iter()
        .map(|c| c.to_string())
        .collect()
}

/// Relies on tk's `CharDelimiterSplit`: splits at the delimiter character,
/// dropping it; its `pre_tokenize` always returns `Ok`.
#[verifier::external_body]
pub(crate) fn run_pt_delimiter(delimiter: char, input: &str) -> (r: Result<Vec<(String, (usize, usize))>, ExecutionError>)
    ensures
        r is Ok,
        r matches Ok(out) ==> splits_view(out@) == char_delimiter_splits_of(delimiter, input@),
{
    let d = tokenizers::pre_tokenizers::delimiter::CharDelimiterSplit::new(delimiter);
    let mut p = tokenizers::PreTokenizedString::from(input);
    match d.pre_tokenize(&mut p) {
        Ok(()) => Ok(collect_splits(p)),
        Err(e) => Err(ExecutionError::Backend(e.to_string())),
    }
}

/// Relies on tk's `Digits` pre-tokenizer; its `pre_tokenize` always returns
/// `Ok`.
#[verifier::external_body]
pub(crate) fn run_pt_digits(individual_digits: bool, input: &str) -> (r: Result<Vec<(String, (usize, usize))>, ExecutionError>)
    ensures
        r is Ok,
        r matches Ok(out) ==> splits_view(out@) == digits_splits_of(individual_digits, input@),
{
    let d = tokenizers::pre_tokenizers::digits::Digits::new(individual_digits);
    let mut p = tokenizers::PreTokenizedString::from(input);
    match d.pre_tokenize(&mut p) {
        Ok(()) => Ok(collect_splits(p)),
        Err(e) => Err(ExecutionError::Backend(e.to_string())),
    }
}

/// Relies on tk's `Metaspace` pre-tokenizer; its `pre_tokenize` always
/// returns `Ok`.
#[verifier::external_body]
pub(crate) fn run_pt_metaspace(replacement: char, add_prefix_space: bool, input: &str) -> (r: Result<Vec<(String, (usize, usize))>, ExecutionError>)
    ensures
        r is Ok,
        r matches Ok(out) ==> splits_view(out@) == metaspace_splits_of(replacement, add_prefix_space, input@),
{
    let m = tokenizers::pre_tokenizers::metaspace::Metaspace::new(replacement, add_prefix_space);
    let mut p = tokenizers::PreTokenizedString::from(input);
    match m.pre_tokenize(&mut p) {
        Ok(()) => Ok(collect_splits(p)),
        Err(e) => Err(ExecutionError::Backend(e.to_string())),
    }
}

/// Relies on tk's `Punctuation` pre-tokenizer; its `pre_tokenize` always
/// returns `Ok`.
#[verifier::external_body]
pub(crate) fn run_pt_punctuation(behavior: SplitBehavior, input: &str) -> (r: Result<Vec<(String, (usize, usize))>, ExecutionError>)
    ensures
        r is Ok,
        r matches Ok(out) ==> splits_view(out@) == punctuation_splits_of(behavior, input@),
{
    let pt = tokenizers::pre_tokenizers::punctuation::Punctuation::new(tk_behavior(behavior));
    let mut p = tokenizers::PreTokenizedString::from(input);
    match pt.pre_tokenize(&mut p) {
        Ok(()) => Ok(collect_splits(p)),
        Err(e) => Err(ExecutionError::Backend(e.to_string())),
    }
}

/// Relies on tk's `Split::new` with a literal (escaped) pattern: whether
/// the pattern is accepted depends on the pattern alone.
#[verifier::external_body]
pub(crate) fn split_pattern_valid(pattern: &str) -> (ok: bool)
    ensures
        ok == split_pattern_ok(pattern@),
{
    tokenizers::pre_tokenizers::split::Split::new(
        pattern,
        tokenizers::SplitDelimiterBehavior::Removed,
        false,
    ).is_ok()
}

/// Relies on tk's `Split` pre-tokenizer with a literal pattern:
/// construction succeeds exactly when `Split::new` accepts the pattern, and
/// its `pre_tokenize` then always returns `Ok`.
#[verifier::external_body]
pub(crate) fn run_pt_split(pattern: &str, behavior: SplitBehavior, invert: bool, input: &str) -> (r: Result<Vec<(String, (usize, usize))>, ExecutionError>)
    ensures
        r is Ok <==> split_pattern_ok(pattern@),
        r matches Ok(out) ==> splits_view(out@) == split_splits_of(pattern@, behavior, invert, input@),
{
    match tokenizers::pre_tokenizers::split::Split::new(pattern, tk_behavior(behavior), invert) {
        Ok(sp) => {
            let mut p = tokenizers::PreTokenizedString::from(input);
            match sp.pre_tokenize(&mut p) {
                Ok(()) => Ok(collect_splits(p)),
                Err(e) => Err(ExecutionError::Backend(e.to_string())),
            }
        },
        Err(e) => Err(ExecutionError::Backend(e.to_string())),
    }
}

/// Relies on tk's `UnicodeScripts` pre-tokenizer; its `pre_tokenize` always
/// returns `Ok`.
#[verifier::external_body]
pub(crate) fn run_pt_unicode_scripts(input: &str) -> (r: Result<Vec<(String, (usize, usize))>, ExecutionError>)
    ensures
        r is Ok,
        r matches Ok(out) ==> splits_view(out@) == unicode_scripts_splits_of(input@),
{
    let u = tokenizers::pre_tokenizers::unicode_scripts::UnicodeScripts::new();
    let mut p = tokenizers::PreTokenizedString::from(input);
    match u.pre_tokenize(&mut p) {
        Ok(()) => Ok(collect_splits(p)),
        Err(e) => Err(ExecutionError::Backend(e.to_string())),
    }
}

/// Relies on tk's `Whitespace` pre-tokenizer (word or non-word runs); its
/// `pre_tokenize` always returns `Ok`.
#[verifier::external_body]
pub(crate) fn run_pt_whitespace(input: &str) -> (r: Result<Vec<(String, (usize, usize))>, ExecutionError>)
    ensures
        r is Ok,
        r matches Ok(out) ==> splits_view(out@) == whitespace_splits_of(input@),
{
    let mut p = tokenizers::PreTokenizedString::from(input);
    match tokenizers::pre_tokenizers::whitespace::Whitespace.pre_tokenize(&mut p) {
        Ok(()) => Ok(collect_splits(p)),
        Err(e) => Err(ExecutionError::Backend(e.to_string())),
    }
}

/// Relies on tk's `WhitespaceSplit` pre-tokenizer (split at whitespace,
/// dropped); its `pre_tokenize` always returns `Ok`.
#[verifier::external_body]
pub(crate) fn run_pt_whitespace_split(input: &str) -> (r: Result<Vec<(String, (usize, usize))>, ExecutionError>)
    ensures
        r is Ok,
        r matches Ok(out) ==> splits_view(out@) == whitespace_split_splits_of(input@),
{
    let mut p = tokenizers::PreTokenizedString::from(input);
    match tokenizers::pre_tokenizers::whitespace::WhitespaceSplit.pre_tokenize(&mut p) {
        Ok(()) => Ok(collect_splits(p)),
        Err(e) => Err(ExecutionError::Backend(e.to_string())),
    }
}

/// Relies on `char`'s `ToString`: the string holding exactly the one
/// character.
#[verifier::external_body]
pub(crate) fn char_to_string(c: char) -> (r: String)
    ensures
        r@ == seq![c],
{
    c.to_string()
}

/// Relies on tk's `PreTokenizedString::get_splits` in the original
/// referential with character offsets: reads the spans out of the backend
/// state, one pair per span.
#[verifier::external_body]
fn collect_splits(p: tokenizers::PreTokenizedString) -> Vec<(String, (usize, usize))> {
    p.get_splits(tokenizers::OffsetReferential::Original, tokenizers::OffsetType::Char)
        .into_iter()
        .map(|(s, o, _)| (s.to_owned(), o))
        .collect()
}

} // verus!
