//! The pre-tokenization pipeline family.
//!
//! A pre-tokenizer stage cuts text into ordered spans with character offsets
//! reported relative to the text the pipeline was given, however many stages
//! ran before. As with normalizers, a pipeline is one shared stage cell or a
//! flattened sequence of cells, and the no-nesting invariant is enforced by
//! the type: a sequence carries cell handles, never pipelines.

use vstd::prelude::*;

use crate::arena::{StageArena, StageCell};
use crate::backend;
use crate::backend::splits_view;
use crate::codec::{
    fid, lookup_field, obj_has, obj_lookup, obj_view, obj_within, sig_has_all, FieldKey, Value,
    ValueSpec,
};
use crate::errors::{ConstructionError, DecodeError, ExecutionError};

verus! {

broadcast use {
    vstd::seq::axiom_seq_index_decreases,
    vstd::std_specs::vec::axiom_vec_index_decreases,
};

/// What becomes of a matched delimiter when a stage splits around it.
#[derive(Clone, Copy, Debug, PartialEq, Eq, Structural)]
pub enum SplitBehavior {
    /// The delimiter is dropped.
    Removed,
    /// The delimiter stands alone as its own span.
    Isolated,
    /// The delimiter is glued onto the span before it.
    MergedWithPrevious,
    /// The delimiter is glued onto the span after it.
    MergedWithNext,
    /// Runs of matches and non-matches are kept contiguous.
    Contiguous,
}

/// One concrete pre-tokenizer stage of the closed catalog. Leaf behaviour is
/// delegated to the text-processing backend; the fields here are the stage's
/// whole configuration.
pub enum PreTokenizerStage {
    /// Whitespace split followed by isolated punctuation.
    BertPreTokenizer,
    /// Byte-level segmentation.
    ByteLevel {
        /// Add a leading space to the first word.
        add_prefix_space: bool,
        /// Split with the standard word-boundary expression first.
        use_regex: bool,
    },
    /// Split at one delimiter character, dropping it.
    CharDelimiterSplit {
        /// The delimiter character.
        delimiter: char,
    },
    /// Cut numbers apart from the rest.
    Digits {
        /// Cut every digit into its own span.
        individual_digits: bool,
    },
    /// Replace spaces by a marker character and split on it.
    Metaspace {
        /// The marker character.
        replacement: char,
        /// Add a leading marker to the first word.
        add_prefix_space: bool,
    },
    /// Split around punctuation.
    Punctuation {
        /// What becomes of the punctuation characters.
        behavior: SplitBehavior,
    },
    /// Split around a literal pattern.
    Split {
        /// The literal pattern.
        pattern: String,
        /// What becomes of the matches.
        behavior: SplitBehavior,
        /// Split around what does not match instead.
        invert: bool,
    },
    /// Split at Unicode script boundaries.
    UnicodeScripts,
    /// Word or non-word runs, whitespace dropped.
    Whitespace,
    /// Split at whitespace, dropped.
    WhitespaceSplit,
}

/// The mathematical image of a `PreTokenizerStage`.
pub enum PreTokStageSpec {
    /// Image of `PreTokenizerStage::BertPreTokenizer`.
    BertPreTokenizer,
    /// Image of `PreTokenizerStage::ByteLevel`.
    ByteLevel {
        /// See the stage field of the same name.
        add_prefix_space: bool,
        /// See the stage field of the same name.
        use_regex: bool,
    },
    /// Image of `PreTokenizerStage::CharDelimiterSplit`.
    CharDelimiterSplit {
        /// See the stage field of the same name.
        delimiter: char,
    },
    /// Image of `PreTokenizerStage::Digits`.
    Digits {
        /// See the stage field of the same name.
        individual_digits: bool,
    },
    /// Image of `PreTokenizerStage::Metaspace`.
    Metaspace {
        /// See the stage field of the same name.
        replacement: char,
        /// See the stage field of the same name.
        add_prefix_space: bool,
    },
    /// Image of `PreTokenizerStage::Punctuation`.
    Punctuation {
        /// See the stage field of the same name.
        behavior: SplitBehavior,
    },
    /// Image of `PreTokenizerStage::Split`.
    Split {
        /// See the stage field of the same name.
        pattern: Seq<char>,
        /// See the stage field of the same name.
        behavior: SplitBehavior,
        /// See the stage field of the same name.
        invert: bool,
    },
    /// Image of `PreTokenizerStage::UnicodeScripts`.
    UnicodeScripts,
    /// Image of `PreTokenizerStage::Whitespace`.
    Whitespace,
    /// Image of `PreTokenizerStage::WhitespaceSplit`.
    WhitespaceSplit,
}

impl View for PreTokenizerStage {
    type V = PreTokStageSpec;

    open spec fn view(&self) -> PreTokStageSpec {
        match self {
            PreTokenizerStage::BertPreTokenizer => PreTokStageSpec::BertPreTokenizer,
            PreTokenizerStage::ByteLevel { add_prefix_space, use_regex } => PreTokStageSpec::ByteLevel {
                add_prefix_space: *add_prefix_space,
                use_regex: *use_regex,
            },
            PreTokenizerStage::CharDelimiterSplit { delimiter } => PreTokStageSpec::CharDelimiterSplit {
                delimiter: *delimiter,
            },
            PreTokenizerStage::Digits { individual_digits } => PreTokStageSpec::Digits {
                individual_digits: *individual_digits,
            },
            PreTokenizerStage::Metaspace { replacement, add_prefix_space } => PreTokStageSpec::Metaspace {
                replacement: *replacement,
                add_prefix_space: *add_prefix_space,
            },
            PreTokenizerStage::Punctuation { behavior } => PreTokStageSpec::Punctuation {
                behavior: *behavior,
            },
            PreTokenizerStage::Split { pattern, behavior, invert } => PreTokStageSpec::Split {
                pattern: pattern@,
                behavior: *behavior,
                invert: *invert,
            },
            PreTokenizerStage::UnicodeScripts => PreTokStageSpec::UnicodeScripts,
            PreTokenizerStage::Whitespace => PreTokStageSpec::Whitespace,
            PreTokenizerStage::WhitespaceSplit => PreTokStageSpec::WhitespaceSplit,
        }
    }
}

/// The arena holding this family's stage cells.
pub type PreTokenizerArena = StageArena<PreTokenizerStage>;

/// A pre-tokenization pipeline: one shared stage cell, or a flattened,
/// ordered sequence of cells.
#[derive(Debug)]
pub enum PreTokenizerPipeline {
    /// Exactly one stage.
    Single(StageCell),
    /// Zero or more stages executed left to right.
    Sequence(Vec<StageCell>),
}

impl PreTokenizerPipeline {
    /// The ordered cell handles this pipeline executes.
    pub open spec fn leaves(self) -> Seq<int> {
        match self {
            PreTokenizerPipeline::Single(c) => seq![c@],
            PreTokenizerPipeline::Sequence(cells) => Seq::new(
                cells@.len(),
                |i: int| cells@[i]@,
            ),
        }
    }

    /// Every leaf handle points into an arena of the given length.
    pub open spec fn valid(self, arena_len: int) -> bool {
        forall|i: int|
            0 <= i < self.leaves().len() ==> 0 <= #[trigger] self.leaves()[i] < arena_len
    }

    /// The ordered stage images this pipeline executes, read off an arena.
    pub open spec fn stages(self, arena: Seq<PreTokStageSpec>) -> Seq<PreTokStageSpec> {
        self.leaves().map(|i: int, h: int| arena[h])
    }
}

/// A runtime pre-tokenizer value: a pipeline over shared stage cells.
#[derive(Debug)]
pub struct RbPreTokenizer {
    /// The pipeline this value executes.
    pub pipeline: PreTokenizerPipeline,
}

/// The identifying label of a runtime pipeline value's concrete kind.
#[derive(Clone, Copy, Debug, PartialEq, Eq, Structural)]
pub enum PreTokenizerDescriptor {
    /// A sequence pipeline.
    Sequence,
    /// A single Bert-style pre-tokenizer.
    BertPreTokenizer,
    /// A single byte-level stage.
    ByteLevel,
    /// A single delimiter-split stage.
    CharDelimiterSplit,
    /// A single digit-splitting stage.
    Digits,
    /// A single metaspace stage.
    Metaspace,
    /// A single punctuation stage.
    Punctuation,
    /// A single pattern-split stage.
    Split,
    /// A single script-boundary stage.
    UnicodeScripts,
    /// A single whitespace-run stage.
    Whitespace,
    /// A single whitespace-split stage.
    WhitespaceSplit,
}

/// The descriptor of one concrete stage.
pub open spec fn pt_stage_descriptor(st: PreTokStageSpec) -> PreTokenizerDescriptor {
    match st {
        PreTokStageSpec::BertPreTokenizer => PreTokenizerDescriptor::BertPreTokenizer,
        PreTokStageSpec::ByteLevel { .. } => PreTokenizerDescriptor::ByteLevel,
        PreTokStageSpec::CharDelimiterSplit { .. } => PreTokenizerDescriptor::CharDelimiterSplit,
        PreTokStageSpec::Digits { .. } => PreTokenizerDescriptor::Digits,
        PreTokStageSpec::Metaspace { .. } => PreTokenizerDescriptor::Metaspace,
        PreTokStageSpec::Punctuation { .. } => PreTokenizerDescriptor::Punctuation,
        PreTokStageSpec::Split { .. } => PreTokenizerDescriptor::Split,
        PreTokStageSpec::UnicodeScripts => PreTokenizerDescriptor::UnicodeScripts,
        PreTokStageSpec::Whitespace => PreTokenizerDescriptor::Whitespace,
        PreTokStageSpec::WhitespaceSplit => PreTokenizerDescriptor::WhitespaceSplit,
    }
}

impl RbPreTokenizer {
    /// The descriptor of this runtime value: the sequence descriptor for a
    /// sequence, and the single stage's own descriptor otherwise.
    pub open spec fn spec_describe(self, arena: Seq<PreTokStageSpec>) -> PreTokenizerDescriptor {
        match self.pipeline {
            PreTokenizerPipeline::Sequence(_) => PreTokenizerDescriptor::Sequence,
            PreTokenizerPipeline::Single(c) => pt_stage_descriptor(arena[c@]),
        }
    }

    /// Resolve the concrete kind of this runtime value.
    ///
    /// A total function over the closed catalog: the match below is
    /// exhaustive, so a stage kind without a descriptor arm cannot compile.
    pub fn describe(&self, arena: &PreTokenizerArena) -> (d: PreTokenizerDescriptor)
        requires
            self.pipeline.valid(arena@.len() as int),
        ensures
            d == self.spec_describe(arena@),
    {
        match &self.pipeline {
            PreTokenizerPipeline::Sequence(_) => PreTokenizerDescriptor::Sequence,
            PreTokenizerPipeline::Single(c) => {
                proof {
                    assert(self.pipeline.leaves()[0] == c@);
                }
                match arena.read(*c) {
                    PreTokenizerStage::BertPreTokenizer => PreTokenizerDescriptor::BertPreTokenizer,
                    PreTokenizerStage::ByteLevel { .. } => PreTokenizerDescriptor::ByteLevel,
                    PreTokenizerStage::CharDelimiterSplit { .. } => PreTokenizerDescriptor::CharDelimiterSplit,
                    PreTokenizerStage::Digits { .. } => PreTokenizerDescriptor::Digits,
                    PreTokenizerStage::Metaspace { .. } => PreTokenizerDescriptor::Metaspace,
                    PreTokenizerStage::Punctuation { .. } => PreTokenizerDescriptor::Punctuation,
                    PreTokenizerStage::Split { .. } => PreTokenizerDescriptor::Split,
                    PreTokenizerStage::UnicodeScripts => PreTokenizerDescriptor::UnicodeScripts,
                    PreTokenizerStage::Whitespace => PreTokenizerDescriptor::Whitespace,
                    PreTokenizerStage::WhitespaceSplit => PreTokenizerDescriptor::WhitespaceSplit,
                }
            },
        }
    }
}

/// The concatenated leaves of a list of pipelines, in order.
pub open spec fn leaves_of_list(ps: Seq<PreTokenizerPipeline>) -> Seq<int>
    decreases ps.len(),
{
    if ps.len() == 0 {
        Seq::empty()
    } else {
        ps.first().leaves() + leaves_of_list(ps.drop_first())
    }
}

/// Concatenating pipeline lists concatenates their leaves.
pub proof fn lemma_leaves_of_list_concat(a: Seq<PreTokenizerPipeline>, b: Seq<PreTokenizerPipeline>)
    ensures
        leaves_of_list(a + b) == leaves_of_list(a) + leaves_of_list(b),
    decreases a.len(),
{
    if a.len() == 0 {
        assert(a + b =~= b);
        assert(leaves_of_list(a) + leaves_of_list(b) =~= leaves_of_list(b));
    } else {
        lemma_leaves_of_list_concat(a.drop_first(), b);
        assert((a + b).drop_first() =~= a.drop_first() + b);
        assert(leaves_of_list(a) + leaves_of_list(b) =~= a.first().leaves() + (leaves_of_list(
            a.drop_first(),
        ) + leaves_of_list(b)));
    }
}

/// A one-entry list contributes exactly that entry's leaves.
pub proof fn lemma_leaves_of_list_singleton(p: PreTokenizerPipeline)
    ensures
        leaves_of_list(seq![p]) == p.leaves(),
{
    assert(seq![p].drop_first() =~= Seq::<PreTokenizerPipeline>::empty());
    assert(leaves_of_list(Seq::<PreTokenizerPipeline>::empty()) =~= Seq::<int>::empty());
    assert(leaves_of_list(seq![p]) =~= p.leaves());
}

/// Flattening law for this family: composing a list in which one entry is
/// itself the composition of an inner list yields the same ordered leaf-cell
/// list as composing the inner list's entries in place.
pub proof fn lemma_compose_flattens(
    before: Seq<PreTokenizerPipeline>,
    mid: PreTokenizerPipeline,
    inner: Seq<PreTokenizerPipeline>,
    after: Seq<PreTokenizerPipeline>,
)
    requires
        mid.leaves() == leaves_of_list(inner),
    ensures
        leaves_of_list(before + seq![mid] + after) == leaves_of_list(before + inner + after),
{
    lemma_leaves_of_list_concat(before + seq![mid], after);
    lemma_leaves_of_list_concat(before, seq![mid]);
    lemma_leaves_of_list_concat(before + inner, after);
    lemma_leaves_of_list_concat(before, inner);
    lemma_leaves_of_list_singleton(mid);
    assert(leaves_of_list(before + seq![mid] + after) =~= leaves_of_list(before + inner + after));
}

/// Aliasing law for this family: when two pipelines both reference the cell
/// `h`, writing a new stage into `h` is visible through both afterwards.
pub proof fn lemma_shared_cell_mutation(
    arena: Seq<PreTokStageSpec>,
    st: PreTokStageSpec,
    h: int,
    p1: PreTokenizerPipeline,
    p2: PreTokenizerPipeline,
    i: int,
    j: int,
)
    requires
        0 <= h < arena.len(),
        p1.valid(arena.len() as int),
        p2.valid(arena.len() as int),
        0 <= i < p1.leaves().len(),
        0 <= j < p2.leaves().len(),
        p1.leaves()[i] == h,
        p2.leaves()[j] == h,
    ensures
        p1.stages(arena.update(h, st))[i] == st,
        p2.stages(arena.update(h, st))[j] == st,
{
}

/// The handle images of a cell list, in order.
pub open spec fn handles_view(cells: Seq<StageCell>) -> Seq<int> {
    cells.map(|i: int, c: StageCell| c@)
}

/// Appending one cell appends its handle image.
proof fn lemma_handles_view_push(cells: Seq<StageCell>, c: StageCell)
    ensures
        handles_view(cells.push(c)) == handles_view(cells).push(c@),
{
    assert(handles_view(cells.push(c)) =~= handles_view(cells).push(c@));
}

/// One more pipeline extends the flattened leaves by that pipeline's leaves.
proof fn lemma_leaves_of_list_take(ps: Seq<PreTokenizerPipeline>, k: int)
    requires
        0 <= k < ps.len(),
    ensures
        leaves_of_list(ps.take(k + 1)) == leaves_of_list(ps.take(k)) + ps[k].leaves(),
{
    lemma_leaves_of_list_concat(ps.take(k), seq![ps[k]]);
    assert(ps.take(k + 1) =~= ps.take(k) + seq![ps[k]]);
    lemma_leaves_of_list_singleton(ps[k]);
}

/// Composes pre-tokenization pipelines into one flattened sequence.
pub struct RbSequence {}

impl RbSequence {
    /// Build a sequence from the given pipelines, flattening one level; the
    /// new sequence shares the very same cells, so later mutation through
    /// any handle stays visible here.
    pub fn new(pre_tokenizers: &Vec<RbPreTokenizer>) -> (n: RbPreTokenizer)
        ensures
            n.pipeline is Sequence,
            n.pipeline.leaves() == leaves_of_list(
                pre_tokenizers@.map(|i: int, rb: RbPreTokenizer| rb.pipeline),
            ),
    {
        let ghost ps = pre_tokenizers@.map(|i: int, rb: RbPreTokenizer| rb.pipeline);
        let mut cells: Vec<StageCell> = Vec::new();
        let mut k: usize = 0;
        proof {
            assert(ps.take(0) =~= Seq::empty());
            assert(handles_view(cells@) =~= leaves_of_list(ps.take(0)));
        }
        while k < pre_tokenizers.len()
            invariant
                k <= pre_tokenizers.len(),
                ps == pre_tokenizers@.map(|i: int, rb: RbPreTokenizer| rb.pipeline),
                handles_view(cells@) == leaves_of_list(ps.take(k as int)),
            decreases pre_tokenizers.len() - k,
        {
            proof {
                lemma_leaves_of_list_take(ps, k as int);
            }
            match &pre_tokenizers[k].pipeline {
                PreTokenizerPipeline::Single(c) => {
                    proof {
                        lemma_handles_view_push(cells@, *c);
                        assert(ps[k as int].leaves() =~= seq![c@]);
                        assert(handles_view(cells@).push(c@) =~= leaves_of_list(
                            ps.take(k as int),
                        ) + ps[k as int].leaves());
                    }
                    cells.push(*c);
                },
                PreTokenizerPipeline::Sequence(inner) => {
                    let ghost lv = ps[k as int].leaves();
                    let mut m: usize = 0;
                    proof {
                        assert(lv.take(0) =~= Seq::empty());
                        assert(handles_view(cells@) =~= leaves_of_list(ps.take(k as int)) + lv.take(
                            0,
                        ));
                    }
                    while m < inner.len()
                        invariant
                            m <= inner.len(),
                            ps == pre_tokenizers@.map(|i: int, rb: RbPreTokenizer| rb.pipeline),
                            ps[k as int] == PreTokenizerPipeline::Sequence(*inner),
                            k < ps.len(),
                            lv == ps[k as int].leaves(),
                            handles_view(cells@) == leaves_of_list(ps.take(k as int)) + lv.take(
                                m as int,
                            ),
                        decreases inner.len() - m,
                    {
                        proof {
                            lemma_handles_view_push(cells@, inner@[m as int]);
                            assert(lv[m as int] == inner@[m as int]@);
                            assert(lv.take(m as int + 1) =~= lv.take(m as int).push(lv[m as int]));
                            assert((leaves_of_list(ps.take(k as int)) + lv.take(m as int)).push(
                                lv[m as int],
                            ) =~= leaves_of_list(ps.take(k as int)) + lv.take(m as int + 1));
                        }
                        cells.push(inner[m]);
                        m = m + 1;
                    }
                    proof {
                        assert(lv.take(inner@.len() as int) =~= lv);
                    }
                },
            }
            k = k + 1;
        }
        proof {
            assert(ps.take(pre_tokenizers@.len() as int) =~= ps);
        }
        let n = RbPreTokenizer { pipeline: PreTokenizerPipeline::Sequence(cells) };
        proof {
            assert(n.pipeline.leaves() =~= handles_view(cells@));
        }
        n
    }
}

/// Wrap one freshly configured stage into a new cell and a single-stage
/// pipeline around it.
fn single_stage(arena: &mut PreTokenizerArena, stage: PreTokenizerStage) -> (n: RbPreTokenizer)
    ensures
        final(arena)@ == old(arena)@.push(stage@),
        n.pipeline matches PreTokenizerPipeline::Single(c) && c@ == old(arena)@.len(),
        n.pipeline.valid(final(arena)@.len() as int),
        n.pipeline.stages(final(arena)@) == seq![stage@],
{
    let h = arena.insert(stage);
    let n = RbPreTokenizer { pipeline: PreTokenizerPipeline::Single(h) };
    proof {
        assert(n.pipeline.leaves() =~= seq![h@]);
        assert(n.pipeline.stages(arena@) =~= seq![stage@]);
    }
    n
}

/// Builds a Bert-style pre-tokenizer stage.
pub struct RbBertPreTokenizer {}

impl RbBertPreTokenizer {
    /// A new Bert-style pre-tokenizer stage.
    pub fn new(arena: &mut PreTokenizerArena) -> (n: RbPreTokenizer)
        ensures
            final(arena)@ == old(arena)@.push(PreTokStageSpec::BertPreTokenizer),
            n.pipeline is Single,
            n.pipeline.valid(final(arena)@.len() as int),
            n.pipeline.stages(final(arena)@) == seq![PreTokStageSpec::BertPreTokenizer],
    {
        single_stage(arena, PreTokenizerStage::BertPreTokenizer)
    }
}

/// Builds a byte-level stage.
pub struct RbByteLevel {}

impl RbByteLevel {
    /// A new byte-level stage with the given configuration.
    pub fn new(arena: &mut PreTokenizerArena, add_prefix_space: bool, use_regex: bool) -> (n:
        RbPreTokenizer)
        ensures
            final(arena)@ == old(arena)@.push(
                PreTokStageSpec::ByteLevel { add_prefix_space, use_regex },
            ),
            n.pipeline is Single,
            n.pipeline.valid(final(arena)@.len() as int),
            n.pipeline.stages(final(arena)@) == seq![
                PreTokStageSpec::ByteLevel { add_prefix_space, use_regex },
            ],
    {
        single_stage(arena, PreTokenizerStage::ByteLevel { add_prefix_space, use_regex })
    }

    /// The byte-level alphabet: one printable representation for each of the
    /// 256 byte values, in the backend's own order.
    pub fn alphabet() -> (r: Vec<String>)
        ensures
            r@.len() == 256,
    {
        backend::byte_level_alphabet()
    }
}

/// Builds a delimiter-split stage.
pub struct RbCharDelimiterSplit {}

impl RbCharDelimiterSplit {
    /// A new delimiter-split stage.
    pub fn new(arena: &mut PreTokenizerArena, delimiter: char) -> (n: RbPreTokenizer)
        ensures
            final(arena)@ == old(arena)@.push(PreTokStageSpec::CharDelimiterSplit { delimiter }),
            n.pipeline is Single,
            n.pipeline.valid(final(arena)@.len() as int),
            n.pipeline.stages(final(arena)@) == seq![
                PreTokStageSpec::CharDelimiterSplit { delimiter },
            ],
    {
        single_stage(arena, PreTokenizerStage::CharDelimiterSplit { delimiter })
    }
}

/// Builds a digit-splitting stage.
pub struct RbDigits {}

impl RbDigits {
    /// A new digit-splitting stage.
    pub fn new(arena: &mut PreTokenizerArena, individual_digits: bool) -> (n: RbPreTokenizer)
        ensures
            final(arena)@ == old(arena)@.push(PreTokStageSpec::Digits { individual_digits }),
            n.pipeline is Single,
            n.pipeline.valid(final(arena)@.len() as int),
            n.pipeline.stages(final(arena)@) == seq![PreTokStageSpec::Digits { individual_digits }],
    {
        single_stage(arena, PreTokenizerStage::Digits { individual_digits })
    }
}

/// Builds a metaspace stage.
pub struct RbMetaspace {}

impl RbMetaspace {
    /// A new metaspace stage.
    pub fn new(arena: &mut PreTokenizerArena, replacement: char, add_prefix_space: bool) -> (n:
        RbPreTokenizer)
        ensures
            final(arena)@ == old(arena)@.push(
                PreTokStageSpec::Metaspace { replacement, add_prefix_space },
            ),
            n.pipeline is Single,
            n.pipeline.valid(final(arena)@.len() as int),
            n.pipeline.stages(final(arena)@) == seq![
                PreTokStageSpec::Metaspace { replacement, add_prefix_space },
            ],
    {
        single_stage(arena, PreTokenizerStage::Metaspace { replacement, add_prefix_space })
    }
}

/// Builds a punctuation stage.
pub struct RbPunctuation {}

impl RbPunctuation {
    /// A new punctuation stage with the given delimiter behavior.
    pub fn new(arena: &mut PreTokenizerArena, behavior: SplitBehavior) -> (n: RbPreTokenizer)
        ensures
            final(arena)@ == old(arena)@.push(PreTokStageSpec::Punctuation { behavior }),
            n.pipeline is Single,
            n.pipeline.valid(final(arena)@.len() as int),
            n.pipeline.stages(final(arena)@) == seq![PreTokStageSpec::Punctuation { behavior }],
    {
        single_stage(arena, PreTokenizerStage::Punctuation { behavior })
    }
}

/// Builds a pattern-split stage.
pub struct RbSplit {}

impl RbSplit {
    /// A new pattern-split stage. The pattern is validated eagerly: the
    /// stage is built exactly when the backend accepts the pattern, and a
    /// refused pattern leaves the arena unchanged.
    pub fn new(
        arena: &mut PreTokenizerArena,
        pattern: String,
        behavior: SplitBehavior,
        invert: bool,
    ) -> (r: Result<RbPreTokenizer, ConstructionError>)
        ensures
            r is Ok <==> backend::split_pattern_ok(pattern@),
            r matches Ok(n) ==> {
                &&& final(arena)@ == old(arena)@.push(
                    PreTokStageSpec::Split { pattern: pattern@, behavior, invert },
                )
                &&& n.pipeline is Single
                &&& n.pipeline.valid(final(arena)@.len() as int)
                &&& n.pipeline.stages(final(arena)@) == seq![
                    PreTokStageSpec::Split { pattern: pattern@, behavior, invert },
                ]
            },
            r is Err ==> final(arena)@ == old(arena)@,
    {
        if backend::split_pattern_valid(pattern.as_str()) {
            Ok(single_stage(arena, PreTokenizerStage::Split { pattern, behavior, invert }))
        } else {
            Err(ConstructionError { message: "pattern refused by the backend".to_owned() })
        }
    }
}

/// Builds a script-boundary stage.
pub struct RbUnicodeScripts {}

impl RbUnicodeScripts {
    /// A new script-boundary stage.
    pub fn new(arena: &mut PreTokenizerArena) -> (n: RbPreTokenizer)
        ensures
            final(arena)@ == old(arena)@.push(PreTokStageSpec::UnicodeScripts),
            n.pipeline is Single,
            n.pipeline.valid(final(arena)@.len() as int),
            n.pipeline.stages(final(arena)@) == seq![PreTokStageSpec::UnicodeScripts],
    {
        single_stage(arena, PreTokenizerStage::UnicodeScripts)
    }
}

/// Builds a whitespace-run stage.
pub struct RbWhitespace {}

impl RbWhitespace {
    /// A new whitespace-run stage.
    pub fn new(arena: &mut PreTokenizerArena) -> (n: RbPreTokenizer)
        ensures
            final(arena)@ == old(arena)@.push(PreTokStageSpec::Whitespace),
            n.pipeline is Single,
            n.pipeline.valid(final(arena)@.len() as int),
            n.pipeline.stages(final(arena)@) == seq![PreTokStageSpec::Whitespace],
    {
        single_stage(arena, PreTokenizerStage::Whitespace)
    }
}

/// Builds a whitespace-split stage.
pub struct RbWhitespaceSplit {}

impl RbWhitespaceSplit {
    /// A new whitespace-split stage.
    pub fn new(arena: &mut PreTokenizerArena) -> (n: RbPreTokenizer)
        ensures
            final(arena)@ == old(arena)@.push(PreTokStageSpec::WhitespaceSplit),
            n.pipeline is Single,
            n.pipeline.valid(final(arena)@.len() as int),
            n.pipeline.stages(final(arena)@) == seq![PreTokStageSpec::WhitespaceSplit],
    {
        single_stage(arena, PreTokenizerStage::WhitespaceSplit)
    }
}


// ---------------------------------------------------------------------------
// Dispatch.
// ---------------------------------------------------------------------------

/// The spans one stage cuts a text into, by the backend's contracts: each
/// span's text with its character offsets into that text.
pub open spec fn pt_stage_splits(st: PreTokStageSpec, s: Seq<char>) -> Seq<(Seq<char>, (int, int))> {
    match st {
        PreTokStageSpec::BertPreTokenizer => backend::bert_splits_of(s),
        PreTokStageSpec::ByteLevel { add_prefix_space, use_regex } => backend::byte_level_splits_of(
            add_prefix_space,
            use_regex,
            s,
        ),
        PreTokStageSpec::CharDelimiterSplit { delimiter } => backend::char_delimiter_splits_of(
            delimiter,
            s,
        ),
        PreTokStageSpec::Digits { individual_digits } => backend::digits_splits_of(
            individual_digits,
            s,
        ),
        PreTokStageSpec::Metaspace { replacement, add_prefix_space } => backend::metaspace_splits_of(
            replacement,
            add_prefix_space,
            s,
        ),
        PreTokStageSpec::Punctuation { behavior } => backend::punctuation_splits_of(behavior, s),
        PreTokStageSpec::Split { pattern, behavior, invert } => backend::split_splits_of(
            pattern,
            behavior,
            invert,
            s,
        ),
        PreTokStageSpec::UnicodeScripts => backend::unicode_scripts_splits_of(s),
        PreTokStageSpec::Whitespace => backend::whitespace_splits_of(s),
        PreTokStageSpec::WhitespaceSplit => backend::whitespace_split_splits_of(s),
    }
}

/// A fragment's spans, re-based onto the original input by the fragment's
/// own start offset.
pub open spec fn rebase(base: int, sp: Seq<(Seq<char>, (int, int))>) -> Seq<(Seq<char>, (int, int))> {
    sp.map(|i: int, t: (Seq<char>, (int, int))| (t.0, (base + t.1.0, base + t.1.1)))
}

/// Whether every re-based offset fits in `usize`.
pub open spec fn rebase_ok(base: int, sp: Seq<(Seq<char>, (int, int))>) -> bool {
    forall|j: int|
        0 <= j < sp.len() ==> {
            &&& 0 <= base + (#[trigger] sp[j]).1.0 <= usize::MAX
            &&& 0 <= base + sp[j].1.1 <= usize::MAX
        }
}

/// The per-fragment re-based span lists one stage produces.
pub open spec fn rebased_splits(
    st: PreTokStageSpec,
    frags: Seq<(Seq<char>, (int, int))>,
) -> Seq<Seq<(Seq<char>, (int, int))>> {
    Seq::new(frags.len(), |i: int| rebase(frags[i].1.0, pt_stage_splits(st, frags[i].0)))
}

/// What one stage leaves of the fragment list: every fragment's spans,
/// re-based onto the original input and concatenated in fragment order —
/// this is how offsets stay relative to the pipeline's original input no
/// matter how many stages ran.
pub open spec fn apply_pt_stage(
    st: PreTokStageSpec,
    frags: Seq<(Seq<char>, (int, int))>,
) -> Seq<(Seq<char>, (int, int))> {
    rebased_splits(st, frags).flatten()
}

/// Whether one stage's re-based offsets all fit in `usize`.
pub open spec fn pt_stage_offsets_ok(st: PreTokStageSpec, frags: Seq<(Seq<char>, (int, int))>) -> bool {
    forall|i: int|
        0 <= i < frags.len() ==> rebase_ok(
            (#[trigger] frags[i]).1.0,
            pt_stage_splits(st, frags[i].0),
        )
}

/// What the whole chain leaves of the fragment list, stage by stage.
pub open spec fn pt_chain(
    stages: Seq<PreTokStageSpec>,
    frags: Seq<(Seq<char>, (int, int))>,
) -> Seq<(Seq<char>, (int, int))>
    decreases stages.len(),
{
    if stages.len() == 0 {
        frags
    } else {
        pt_chain(stages.drop_first(), apply_pt_stage(stages.first(), frags))
    }
}

/// Whether the backend accepts this stage's configuration: only a `Split`
/// stage carries a pattern the backend may refuse.
pub open spec fn pt_stage_ok(st: PreTokStageSpec) -> bool {
    st matches PreTokStageSpec::Split { pattern, .. } ==> backend::split_pattern_ok(pattern)
}

/// Whether a chain runs to completion: every stage that still has fragments
/// to cut is accepted by the backend, and every re-based offset along the
/// way fits in `usize`.
pub open spec fn pt_chain_ok(
    stages: Seq<PreTokStageSpec>,
    frags: Seq<(Seq<char>, (int, int))>,
) -> bool
    decreases stages.len(),
{
    if stages.len() == 0 {
        true
    } else {
        &&& (frags.len() > 0 ==> pt_stage_ok(stages.first()))
        &&& pt_stage_offsets_ok(stages.first(), frags)
        &&& pt_chain_ok(stages.drop_first(), apply_pt_stage(stages.first(), frags))
    }
}

/// The starting fragment list: the whole input at offset zero.
pub open spec fn init_splits(s: Seq<char>) -> Seq<(Seq<char>, (int, int))> {
    seq![(s, (0int, s.len() as int))]
}

/// Appending one span appends its image.
proof fn lemma_splits_view_push(v: Seq<(String, (usize, usize))>, e: (String, (usize, usize)))
    ensures
        splits_view(v.push(e)) == splits_view(v).push((e.0@, (e.1.0 as int, e.1.1 as int))),
{
    assert(splits_view(v.push(e)) =~= splits_view(v).push((e.0@, (e.1.0 as int, e.1.1 as int))));
}

/// Empty-sequence law: a chain with no stages leaves the fragment list
/// unchanged and always runs to completion, so executing an empty sequence
/// returns the whole input as its one span, as `pre_tokenize_str`'s
/// contract then promises.
pub proof fn lemma_pt_empty_chain(frags: Seq<(Seq<char>, (int, int))>)
    ensures
        pt_chain(Seq::empty(), frags) == frags,
        pt_chain_ok(Seq::empty(), frags),
{
}

/// Run one stage over a fragment's text through the backend.
fn run_pt_stage(stage: &PreTokenizerStage, input: &str) -> (r: Result<
    Vec<(String, (usize, usize))>,
    ExecutionError,
>)
    ensures
        r matches Ok(out) ==> splits_view(out@) == pt_stage_splits(stage@, input@),
        r is Ok <==> pt_stage_ok(stage@),
{
    match stage {
        PreTokenizerStage::BertPreTokenizer => backend::run_pt_bert(input),
        PreTokenizerStage::ByteLevel { add_prefix_space, use_regex } => backend::run_pt_byte_level(
            *add_prefix_space,
            *use_regex,
            input,
        ),
        PreTokenizerStage::CharDelimiterSplit { delimiter } => backend::run_pt_delimiter(
            *delimiter,
            input,
        ),
        PreTokenizerStage::Digits { individual_digits } => backend::run_pt_digits(
            *individual_digits,
            input,
        ),
        PreTokenizerStage::Metaspace { replacement, add_prefix_space } => backend::run_pt_metaspace(
            *replacement,
            *add_prefix_space,
            input,
        ),
        PreTokenizerStage::Punctuation { behavior } => backend::run_pt_punctuation(
            *behavior,
            input,
        ),
        PreTokenizerStage::Split { pattern, behavior, invert } => backend::run_pt_split(
            pattern.as_str(),
            *behavior,
            *invert,
            input,
        ),
        PreTokenizerStage::UnicodeScripts => backend::run_pt_unicode_scripts(input),
        PreTokenizerStage::Whitespace => backend::run_pt_whitespace(input),
        PreTokenizerStage::WhitespaceSplit => backend::run_pt_whitespace_split(input),
    }
}

impl RbPreTokenizer {
    /// Execute the pipeline over `s`: each stage further cuts the spans the
    /// previous stage produced, and every reported offset is re-based onto
    /// the original input, so the result's offsets always refer to `s`
    /// itself. The first failing stage stops the run; a run fails exactly
    /// when it reaches a stage the backend refuses or an offset that does
    /// not fit, so an empty sequence returns the whole input as its one
    /// span.
    pub fn pre_tokenize_str(&self, arena: &PreTokenizerArena, s: String) -> (r: Result<
        Vec<(String, (usize, usize))>,
        ExecutionError,
    >)
        requires
            self.pipeline.valid(arena@.len() as int),
        ensures
            r matches Ok(out) ==> splits_view(out@) == pt_chain(
                self.pipeline.stages(arena@),
                init_splits(s@),
            ),
            r is Ok <==> pt_chain_ok(self.pipeline.stages(arena@), init_splits(s@)),
    {
        let ghost stages = self.pipeline.stages(arena@);
        let ghost s0 = s@;
        match &self.pipeline {
            PreTokenizerPipeline::Single(c) => {
                proof {
                    assert(self.pipeline.leaves()[0] == c@);
                    assert(stages[0] == arena@[c@]);
                    assert(stages.len() == 1);
                    assert(stages.drop_first() =~= Seq::<PreTokStageSpec>::empty());
                }
                let st = arena.read(*c);
                match run_pt_stage(st, s.as_str()) {
                    Ok(out) => {
                        proof {
                            let x = splits_view(out@);
                            let rs = rebased_splits(stages[0], init_splits(s0));
                            assert(init_splits(s0)[0] == (s0, (0int, s0.len() as int)));
                            assert(rs.len() == 1);
                            assert(rs[0] == rebase(0, x));
                            rs.lemma_flatten_singleton();
                            assert(rebase(0, x) =~= x) by {
                                assert forall|j: int| 0 <= j < x.len() implies rebase(0, x)[j] == x[j] by {
                                    assert(x[j] == (out@[j as int].0@, (
                                        out@[j as int].1.0 as int,
                                        out@[j as int].1.1 as int,
                                    )));
                                }
                            }
                            assert(apply_pt_stage(stages[0], init_splits(s0)) == x);
                            assert(stages.first() == stages[0]);
                            assert(pt_chain(
                                stages.drop_first(),
                                apply_pt_stage(stages[0], init_splits(s0)),
                            ) == apply_pt_stage(stages[0], init_splits(s0)));
                            assert(pt_chain(stages, init_splits(s0)) == x);
                            assert(rebase_ok(0, pt_stage_splits(stages[0], s0))) by {
                                assert forall|j: int|
                                    0 <= j < x.len() implies 0 <= 0 + (#[trigger] x[j]).1.0
                                    <= usize::MAX && 0 <= 0 + x[j].1.1 <= usize::MAX by {
                                    assert(x[j] == (out@[j as int].0@, (
                                        out@[j as int].1.0 as int,
                                        out@[j as int].1.1 as int,
                                    )));
                                }
                            }
                            assert(pt_stage_offsets_ok(stages[0], init_splits(s0)));
                            assert(pt_chain_ok(
                                stages.drop_first(),
                                apply_pt_stage(stages[0], init_splits(s0)),
                            ));
                            assert(pt_chain_ok(stages, init_splits(s0)));
                        }
                        Ok(out)
                    },
                    Err(e) => {
                        proof {
                            assert(!pt_stage_ok(stages[0]));
                            assert(init_splits(s0).len() > 0);
                            assert(!pt_chain_ok(stages, init_splits(s0)));
                        }
                        Err(e)
                    },
                }
            },
            PreTokenizerPipeline::Sequence(cells) => {
                let mut frags: Vec<(String, (usize, usize))> = Vec::new();
                let n0 = s.as_str().unicode_len();
                frags.push((s, (0, n0)));
                proof {
                    assert(splits_view(frags@) =~= init_splits(s0));
                    assert(stages.skip(0) =~= stages);
                }
                let mut i: usize = 0;
                #[verifier::loop_isolation(false)]
                while i < cells.len()
                    invariant
                        i <= cells.len(),
                        pt_chain(stages, init_splits(s0)) == pt_chain(
                            stages.skip(i as int),
                            splits_view(frags@),
                        ),
                        pt_chain_ok(stages, init_splits(s0)) == pt_chain_ok(
                            stages.skip(i as int),
                            splits_view(frags@),
                        ),
                    decreases cells.len() - i,
                {
                    proof {
                        assert(self.pipeline.leaves()[i as int] == cells@[i as int]@);
                        assert(stages[i as int] == arena@[cells@[i as int]@]);
                        assert(stages.skip(i as int).first() == stages[i as int]);
                        assert(stages.skip(i as int).drop_first() =~= stages.skip(i as int + 1));
                    }
                    let st = arena.read(cells[i]);
                    let ghost fv = splits_view(frags@);
                    let ghost rs = rebased_splits(st@, fv);
                    let mut new_frags: Vec<(String, (usize, usize))> = Vec::new();
                    let mut j: usize = 0;
                    proof {
                        assert(rs.take(0) =~= Seq::<Seq<(Seq<char>, (int, int))>>::empty());
                        assert(rs.take(0).flatten() =~= Seq::<(Seq<char>, (int, int))>::empty());
                        assert(splits_view(new_frags@) =~= rs.take(0).flatten());
                    }
                    #[verifier::loop_isolation(false)]
                    while j < frags.len()
                        invariant
                            j <= frags.len(),
                            j > 0 ==> pt_stage_ok(st@),
                            splits_view(new_frags@) == rs.take(j as int).flatten(),
                            forall|jj: int|
                                0 <= jj < j ==> rebase_ok(
                                    (#[trigger] fv[jj]).1.0,
                                    pt_stage_splits(st@, fv[jj].0),
                                ),
                        decreases frags.len() - j,
                    {
                        proof {
                            assert(fv[j as int] == (frags@[j as int].0@, (
                                frags@[j as int].1.0 as int,
                                frags@[j as int].1.1 as int,
                            )));
                        }
                        let spl = match run_pt_stage(st, frags[j].0.as_str()) {
                            Ok(spl) => spl,
                            Err(e) => {
                                proof {
                                    assert(!pt_stage_ok(stages[i as int]));
                                    assert(fv.len() > 0);
                                    assert(!pt_chain_ok(stages.skip(i as int), fv));
                                }
                                return Err(e);
                            },
                        };
                        let ghost x = splits_view(spl@);
                        let ghost base_g = fv[j as int].1.0;
                        let ghost reb = rebase(base_g, pt_stage_splits(st@, fv[j as int].0));
                        proof {
                            assert(rs[j as int] == reb);
                            assert(reb.len() == x.len());
                            assert(reb.take(0) =~= Seq::<(Seq<char>, (int, int))>::empty());
                        }
                        let base = frags[j].1.0;
                        let mut k: usize = 0;
                        #[verifier::loop_isolation(false)]
                        while k < spl.len()
                            invariant
                                k <= spl.len(),
                                splits_view(new_frags@) == rs.take(j as int).flatten() + reb.take(
                                    k as int,
                                ),
                            decreases spl.len() - k,
                        {
                            proof {
                                assert(x[k as int] == (spl@[k as int].0@, (
                                    spl@[k as int].1.0 as int,
                                    spl@[k as int].1.1 as int,
                                )));
                                assert(reb[k as int] == (x[k as int].0, (
                                    base_g + x[k as int].1.0,
                                    base_g + x[k as int].1.1,
                                )));
                            }
                            let a = match base.checked_add(spl[k].1.0) {
                                Some(a) => a,
                                None => {
                                    proof {
                                        assert(!rebase_ok(base_g, pt_stage_splits(st@, fv[j as int].0)));
                                        assert(!pt_stage_offsets_ok(st@, fv));
                                        assert(!pt_chain_ok(stages.skip(i as int), fv));
                                    }
                                    return Err(ExecutionError::OffsetOverflow);
                                },
                            };
                            let b = match base.checked_add(spl[k].1.1) {
                                Some(b) => b,
                                None => {
                                    proof {
                                        assert(!rebase_ok(base_g, pt_stage_splits(st@, fv[j as int].0)));
                                        assert(!pt_stage_offsets_ok(st@, fv));
                                        assert(!pt_chain_ok(stages.skip(i as int), fv));
                                    }
                                    return Err(ExecutionError::OffsetOverflow);
                                },
                            };
                            let txt = spl[k].0.clone();
                            proof {
                                assert(a as int == base_g + x[k as int].1.0);
                                assert(b as int == base_g + x[k as int].1.1);
                                assert(txt@ == x[k as int].0);
                            }
                            let ghost before = new_frags@;
                            let ghost elem = (txt, (a, b));
                            new_frags.push((txt, (a, b)));
                            proof {
                                lemma_splits_view_push(before, elem);
                                assert(splits_view(new_frags@) == splits_view(before).push(
                                    reb[k as int],
                                ));
                                assert(reb.take(k as int + 1) =~= reb.take(k as int).push(
                                    reb[k as int],
                                ));
                                assert((rs.take(j as int).flatten() + reb.take(k as int)).push(
                                    reb[k as int],
                                ) =~= rs.take(j as int).flatten() + reb.take(k as int + 1));
                            }
                            k = k + 1;
                        }
                        proof {
                            assert(reb.take(spl@.len() as int) =~= reb);
                            assert(rs.take(j as int).push(reb) =~= rs.take(j as int + 1));
                            rs.take(j as int).lemma_flatten_push(reb);
                            assert(rebase_ok(base_g, pt_stage_splits(st@, fv[j as int].0))) by {
                                assert forall|j2: int|
                                    0 <= j2 < x.len() implies 0 <= base_g + (#[trigger] x[j2]).1.0
                                    <= usize::MAX && 0 <= base_g + x[j2].1.1 <= usize::MAX by {
                                    assert(reb[j2] == (x[j2].0, (
                                        base_g + x[j2].1.0,
                                        base_g + x[j2].1.1,
                                    )));
                                    assert(splits_view(new_frags@)[rs.take(j as int).flatten().len()
                                        + j2] == reb[j2]);
                                }
                            }
                        }
                        j = j + 1;
                    }
                    proof {
                        assert(rs.take(frags@.len() as int) =~= rs);
                        assert(apply_pt_stage(st@, fv) == splits_view(new_frags@));
                        assert(pt_stage_offsets_ok(st@, fv));
                        if fv.len() > 0 {
                            assert(pt_stage_ok(stages[i as int]));
                        }
                        assert(pt_chain(stages.skip(i as int), fv) == pt_chain(
                            stages.skip(i as int + 1),
                            apply_pt_stage(st@, fv),
                        ));
                        assert(pt_chain_ok(stages.skip(i as int), fv) == pt_chain_ok(
                            stages.skip(i as int + 1),
                            apply_pt_stage(st@, fv),
                        ));
                    }
                    frags = new_frags;
                    i = i + 1;
                }
                proof {
                    assert(stages.skip(cells@.len() as int) =~= Seq::<PreTokStageSpec>::empty());
                }
                Ok(frags)
            },
        }
    }
}


// ---------------------------------------------------------------------------
// The structural codec of this family.
// ---------------------------------------------------------------------------

/// A decoded pipeline, shape and stages.
pub enum PreTokPipeSpec {
    /// A single stage.
    Single(PreTokStageSpec),
    /// A flattened sequence of stages.
    Sequence(Seq<PreTokStageSpec>),
}

/// The interchange name of a delimiter behavior.
pub open spec fn behavior_name(b: SplitBehavior) -> Seq<char> {
    match b {
        SplitBehavior::Removed => "Removed"@,
        SplitBehavior::Isolated => "Isolated"@,
        SplitBehavior::MergedWithPrevious => "MergedWithPrevious"@,
        SplitBehavior::MergedWithNext => "MergedWithNext"@,
        SplitBehavior::Contiguous => "Contiguous"@,
    }
}

/// The behavior a name denotes, if any.
pub open spec fn behavior_of_name(name: Seq<char>) -> Option<SplitBehavior> {
    if name == "Removed"@ {
        Some(SplitBehavior::Removed)
    } else if name == "Isolated"@ {
        Some(SplitBehavior::Isolated)
    } else if name == "MergedWithPrevious"@ {
        Some(SplitBehavior::MergedWithPrevious)
    } else if name == "MergedWithNext"@ {
        Some(SplitBehavior::MergedWithNext)
    } else if name == "Contiguous"@ {
        Some(SplitBehavior::Contiguous)
    } else {
        None
    }
}

/// The behavior names denote exactly their own behaviors.
pub proof fn lemma_behavior_names()
    ensures
        forall|b: SplitBehavior| #[trigger] behavior_of_name(behavior_name(b)) == Some(b),
{
    reveal_strlit("Removed");
    reveal_strlit("Isolated");
    reveal_strlit("MergedWithPrevious");
    reveal_strlit("MergedWithNext");
    reveal_strlit("Contiguous");
    assert("Removed"@.len() == 7);
    assert("Isolated"@.len() == 8);
    assert("MergedWithPrevious"@.len() == 18);
    assert("MergedWithNext"@.len() == 14);
    assert("Contiguous"@.len() == 10);
    assert forall|b: SplitBehavior| #[trigger] behavior_of_name(behavior_name(b)) == Some(b) by {
        match b {
            SplitBehavior::Removed => {},
            SplitBehavior::Isolated => {},
            SplitBehavior::MergedWithPrevious => {},
            SplitBehavior::MergedWithNext => {},
            SplitBehavior::Contiguous => {},
        }
    }
}

/// The interchange name of a delimiter behavior, as a string.
fn behavior_name_exec(b: SplitBehavior) -> (r: String)
    ensures
        r@ == behavior_name(b),
{
    match b {
        SplitBehavior::Removed => "Removed".to_owned(),
        SplitBehavior::Isolated => "Isolated".to_owned(),
        SplitBehavior::MergedWithPrevious => "MergedWithPrevious".to_owned(),
        SplitBehavior::MergedWithNext => "MergedWithNext".to_owned(),
        SplitBehavior::Contiguous => "Contiguous".to_owned(),
    }
}

/// The behavior a string denotes, if any.
fn behavior_of_name_exec(name: &String) -> (r: Option<SplitBehavior>)
    ensures
        r == behavior_of_name(name@),
{
    if *name == "Removed".to_owned() {
        Some(SplitBehavior::Removed)
    } else if *name == "Isolated".to_owned() {
        Some(SplitBehavior::Isolated)
    } else if *name == "MergedWithPrevious".to_owned() {
        Some(SplitBehavior::MergedWithPrevious)
    } else if *name == "MergedWithNext".to_owned() {
        Some(SplitBehavior::MergedWithNext)
    } else if *name == "Contiguous".to_owned() {
        Some(SplitBehavior::Contiguous)
    } else {
        None
    }
}

/// The required field set of a variant's interchange signature.
pub open spec fn pt_sig_required(d: PreTokenizerDescriptor) -> Seq<FieldKey> {
    match d {
        PreTokenizerDescriptor::Sequence => seq![FieldKey::TypeTag, FieldKey::PreTokenizers],
        PreTokenizerDescriptor::BertPreTokenizer => Seq::empty(),
        PreTokenizerDescriptor::ByteLevel => seq![FieldKey::AddPrefixSpace, FieldKey::UseRegex],
        PreTokenizerDescriptor::CharDelimiterSplit => seq![FieldKey::Delimiter],
        PreTokenizerDescriptor::Digits => seq![FieldKey::IndividualDigits],
        PreTokenizerDescriptor::Metaspace => seq![FieldKey::Replacement, FieldKey::AddPrefixSpace],
        PreTokenizerDescriptor::Punctuation => seq![FieldKey::Behavior],
        PreTokenizerDescriptor::Split => seq![
            FieldKey::Pattern,
            FieldKey::Behavior,
            FieldKey::Invert,
        ],
        PreTokenizerDescriptor::UnicodeScripts => Seq::empty(),
        PreTokenizerDescriptor::Whitespace => Seq::empty(),
        PreTokenizerDescriptor::WhitespaceSplit => Seq::empty(),
    }
}

/// The full allowed field set of a variant's interchange signature; no
/// variant of this family has optional fields.
pub open spec fn pt_sig_allowed(d: PreTokenizerDescriptor) -> Seq<FieldKey> {
    pt_sig_required(d)
}

/// Whether an object's field shape matches a variant's signature.
pub open spec fn pt_shape_matches(
    obj: Seq<(Seq<char>, ValueSpec)>,
    d: PreTokenizerDescriptor,
) -> bool {
    sig_has_all(obj, pt_sig_required(d)) && obj_within(obj, pt_sig_allowed(d))
}

/// Decode a ByteLevel stage from an object matching its signature.
pub open spec fn spec_decode_byte_level(obj: Seq<(Seq<char>, ValueSpec)>) -> Result<
    PreTokStageSpec,
    DecodeError,
> {
    match (obj_lookup(obj, FieldKey::AddPrefixSpace), obj_lookup(obj, FieldKey::UseRegex)) {
        (Some(ValueSpec::Bool(add_prefix_space)), Some(ValueSpec::Bool(use_regex))) => Ok(
            PreTokStageSpec::ByteLevel { add_prefix_space, use_regex },
        ),
        _ => Err(DecodeError::BadField),
    }
}

/// Decode a CharDelimiterSplit stage: the delimiter travels as a
/// one-character string.
pub open spec fn spec_decode_delimiter(obj: Seq<(Seq<char>, ValueSpec)>) -> Result<
    PreTokStageSpec,
    DecodeError,
> {
    match obj_lookup(obj, FieldKey::Delimiter) {
        Some(ValueSpec::Str(t)) => if t.len() == 1 {
            Ok(PreTokStageSpec::CharDelimiterSplit { delimiter: t[0] })
        } else {
            Err(DecodeError::BadField)
        },
        _ => Err(DecodeError::BadField),
    }
}

/// Decode a Digits stage from an object matching its signature.
pub open spec fn spec_decode_digits(obj: Seq<(Seq<char>, ValueSpec)>) -> Result<
    PreTokStageSpec,
    DecodeError,
> {
    match obj_lookup(obj, FieldKey::IndividualDigits) {
        Some(ValueSpec::Bool(individual_digits)) => Ok(
            PreTokStageSpec::Digits { individual_digits },
        ),
        _ => Err(DecodeError::BadField),
    }
}

/// Decode a Metaspace stage from an object matching its signature.
pub open spec fn spec_decode_metaspace(obj: Seq<(Seq<char>, ValueSpec)>) -> Result<
    PreTokStageSpec,
    DecodeError,
> {
    match (obj_lookup(obj, FieldKey::Replacement), obj_lookup(obj, FieldKey::AddPrefixSpace)) {
        (Some(ValueSpec::Str(t)), Some(ValueSpec::Bool(add_prefix_space))) => if t.len() == 1 {
            Ok(PreTokStageSpec::Metaspace { replacement: t[0], add_prefix_space })
        } else {
            Err(DecodeError::BadField)
        },
        _ => Err(DecodeError::BadField),
    }
}

/// Decode a Punctuation stage from an object matching its signature.
pub open spec fn spec_decode_punctuation(obj: Seq<(Seq<char>, ValueSpec)>) -> Result<
    PreTokStageSpec,
    DecodeError,
> {
    match obj_lookup(obj, FieldKey::Behavior) {
        Some(ValueSpec::Str(t)) => match behavior_of_name(t) {
            Some(behavior) => Ok(PreTokStageSpec::Punctuation { behavior }),
            None => Err(DecodeError::BadField),
        },
        _ => Err(DecodeError::BadField),
    }
}

/// Decode a Split stage from an object matching its signature; the decoded
/// pattern goes through the same eager validation as the constructor's.
pub open spec fn spec_decode_split(obj: Seq<(Seq<char>, ValueSpec)>) -> Result<
    PreTokStageSpec,
    DecodeError,
> {
    match (
        obj_lookup(obj, FieldKey::Pattern),
        obj_lookup(obj, FieldKey::Behavior),
        obj_lookup(obj, FieldKey::Invert),
    ) {
        (Some(ValueSpec::Str(pattern)), Some(ValueSpec::Str(bname)), Some(
            ValueSpec::Bool(invert),
        )) => match behavior_of_name(bname) {
            Some(behavior) => if backend::split_pattern_ok(pattern) {
                Ok(PreTokStageSpec::Split { pattern, behavior, invert })
            } else {
                Err(DecodeError::InvalidStage)
            },
            None => Err(DecodeError::BadField),
        },
        _ => Err(DecodeError::BadField),
    }
}

/// Decode a single stage from a tag-less object: try each signature in the
/// fixed priority order; the first shape match decides the variant.
pub open spec fn spec_decode_pt_stage(obj: Seq<(Seq<char>, ValueSpec)>) -> Result<
    PreTokStageSpec,
    DecodeError,
> {
    if pt_shape_matches(obj, PreTokenizerDescriptor::BertPreTokenizer) {
        Ok(PreTokStageSpec::BertPreTokenizer)
    } else if pt_shape_matches(obj, PreTokenizerDescriptor::ByteLevel) {
        spec_decode_byte_level(obj)
    } else if pt_shape_matches(obj, PreTokenizerDescriptor::CharDelimiterSplit) {
        spec_decode_delimiter(obj)
    } else if pt_shape_matches(obj, PreTokenizerDescriptor::Metaspace) {
        spec_decode_metaspace(obj)
    } else if pt_shape_matches(obj, PreTokenizerDescriptor::Whitespace) {
        Ok(PreTokStageSpec::Whitespace)
    } else if pt_shape_matches(obj, PreTokenizerDescriptor::Split) {
        spec_decode_split(obj)
    } else if pt_shape_matches(obj, PreTokenizerDescriptor::Punctuation) {
        spec_decode_punctuation(obj)
    } else if pt_shape_matches(obj, PreTokenizerDescriptor::WhitespaceSplit) {
        Ok(PreTokStageSpec::WhitespaceSplit)
    } else if pt_shape_matches(obj, PreTokenizerDescriptor::Digits) {
        spec_decode_digits(obj)
    } else if pt_shape_matches(obj, PreTokenizerDescriptor::UnicodeScripts) {
        Ok(PreTokStageSpec::UnicodeScripts)
    } else {
        Err(DecodeError::NoMatch)
    }
}

/// Whether the object carries the sequence discriminator `"type": "Sequence"`.
pub open spec fn pt_has_sequence_tag(obj: Seq<(Seq<char>, ValueSpec)>) -> bool {
    obj_lookup(obj, FieldKey::TypeTag) == Some(ValueSpec::Str("Sequence"@))
}

/// A found field value is a component of the object.
proof fn lemma_pt_obj_lookup_component(obj: Seq<(Seq<char>, ValueSpec)>, k: FieldKey)
    requires
        obj_lookup(obj, k) is Some,
    ensures
        exists|i: int|
            0 <= i < obj.len() && #[trigger] obj[i].1 == obj_lookup(obj, k).unwrap(),
    decreases obj.len(),
{
    if obj.len() > 0 && fid(obj.first().0) != k {
        lemma_pt_obj_lookup_component(obj.drop_first(), k);
        let i = choose|i: int|
            0 <= i < obj.drop_first().len() && #[trigger] obj.drop_first()[i].1 == obj_lookup(
                obj.drop_first(),
                k,
            ).unwrap();
        assert(obj[i + 1].1 == obj_lookup(obj, k).unwrap());
    } else if obj.len() > 0 {
        assert(obj[0].1 == obj_lookup(obj, k).unwrap());
    }
}

#[via_fn]
proof fn spec_decode_pt_decreases(v: ValueSpec) {
    match v {
        ValueSpec::Obj(obj) => {
            match obj_lookup(obj, FieldKey::PreTokenizers) {
                Some(ValueSpec::List(items)) => {
                    lemma_pt_obj_lookup_component(obj, FieldKey::PreTokenizers);
                    let i = choose|i: int|
                        0 <= i < obj.len() && #[trigger] obj[i].1 == obj_lookup(
                            obj,
                            FieldKey::PreTokenizers,
                        ).unwrap();
                    assert(decreases_to!(obj => obj[i]));
                    assert(decreases_to!(v => items));
                },
                _ => {},
            }
        },
        _ => {},
    }
}

/// Decode a structural value into a pipeline, as for normalizers: the
/// sequence discriminator decodes a flattened sequence, anything else a
/// single stage by signature matching.
pub open spec fn spec_decode_pt(v: ValueSpec) -> Result<PreTokPipeSpec, DecodeError>
    decreases v,
    via spec_decode_pt_decreases
{
    match v {
        ValueSpec::Obj(obj) => {
            if pt_has_sequence_tag(obj) {
                if !obj_within(obj, seq![FieldKey::TypeTag, FieldKey::PreTokenizers]) {
                    Err(DecodeError::BadSequence)
                } else {
                    match obj_lookup(obj, FieldKey::PreTokenizers) {
                        Some(ValueSpec::List(items)) => match spec_decode_pt_list(items) {
                            Ok(stages) => Ok(PreTokPipeSpec::Sequence(stages)),
                            Err(e) => Err(e),
                        },
                        _ => Err(DecodeError::BadSequence),
                    }
                }
            } else {
                match spec_decode_pt_stage(obj) {
                    Ok(st) => Ok(PreTokPipeSpec::Single(st)),
                    Err(e) => Err(e),
                }
            }
        },
        _ => Err(DecodeError::NotAnObject),
    }
}

/// Decode the elements of an encoded stage list and flatten them.
pub open spec fn spec_decode_pt_list(items: Seq<ValueSpec>) -> Result<
    Seq<PreTokStageSpec>,
    DecodeError,
>
    decreases items,
{
    if items.len() == 0 {
        Ok(Seq::empty())
    } else {
        match spec_decode_pt(items.first()) {
            Err(e) => Err(e),
            Ok(first) => match spec_decode_pt_list(items.drop_first()) {
                Err(e) => Err(e),
                Ok(rest) => match first {
                    PreTokPipeSpec::Single(st) => Ok(seq![st] + rest),
                    PreTokPipeSpec::Sequence(sts) => Ok(sts + rest),
                },
            },
        }
    }
}

/// Encode one stage as a flat object holding exactly its variant's field
/// set; characters travel as one-character strings, behaviors by name.
pub open spec fn spec_encode_pt_stage(st: PreTokStageSpec) -> ValueSpec {
    match st {
        PreTokStageSpec::BertPreTokenizer => ValueSpec::Obj(Seq::empty()),
        PreTokStageSpec::ByteLevel { add_prefix_space, use_regex } => ValueSpec::Obj(
            seq![
                ("add_prefix_space"@, ValueSpec::Bool(add_prefix_space)),
                ("use_regex"@, ValueSpec::Bool(use_regex)),
            ],
        ),
        PreTokStageSpec::CharDelimiterSplit { delimiter } => ValueSpec::Obj(
            seq![("delimiter"@, ValueSpec::Str(seq![delimiter]))],
        ),
        PreTokStageSpec::Digits { individual_digits } => ValueSpec::Obj(
            seq![("individual_digits"@, ValueSpec::Bool(individual_digits))],
        ),
        PreTokStageSpec::Metaspace { replacement, add_prefix_space } => ValueSpec::Obj(
            seq![
                ("replacement"@, ValueSpec::Str(seq![replacement])),
                ("add_prefix_space"@, ValueSpec::Bool(add_prefix_space)),
            ],
        ),
        PreTokStageSpec::Punctuation { behavior } => ValueSpec::Obj(
            seq![("behavior"@, ValueSpec::Str(behavior_name(behavior)))],
        ),
        PreTokStageSpec::Split { pattern, behavior, invert } => ValueSpec::Obj(
            seq![
                ("pattern"@, ValueSpec::Str(pattern)),
                ("behavior"@, ValueSpec::Str(behavior_name(behavior))),
                ("invert"@, ValueSpec::Bool(invert)),
            ],
        ),
        PreTokStageSpec::UnicodeScripts => ValueSpec::Obj(Seq::empty()),
        PreTokStageSpec::Whitespace => ValueSpec::Obj(Seq::empty()),
        PreTokStageSpec::WhitespaceSplit => ValueSpec::Obj(Seq::empty()),
    }
}

/// Encode a sequence's stages as the discriminated object.
pub open spec fn spec_encode_pt_sequence(stages: Seq<PreTokStageSpec>) -> ValueSpec {
    ValueSpec::Obj(
        seq![
            ("type"@, ValueSpec::Str("Sequence"@)),
            (
                "pretokenizers"@,
                ValueSpec::List(stages.map(|i: int, st: PreTokStageSpec| spec_encode_pt_stage(st))),
            ),
        ],
    )
}


/// The required keys of a variant's signature.
fn pt_sig_required_vec(d: PreTokenizerDescriptor) -> (v: Vec<FieldKey>)
    ensures
        v@ == pt_sig_required(d),
{
    match d {
        PreTokenizerDescriptor::Sequence => {
            let v = vec![FieldKey::TypeTag, FieldKey::PreTokenizers];
            proof {
                assert(v@ =~= pt_sig_required(d));
            }
            v
        },
        PreTokenizerDescriptor::ByteLevel => {
            let v = vec![FieldKey::AddPrefixSpace, FieldKey::UseRegex];
            proof {
                assert(v@ =~= pt_sig_required(d));
            }
            v
        },
        PreTokenizerDescriptor::CharDelimiterSplit => {
            let v = vec![FieldKey::Delimiter];
            proof {
                assert(v@ =~= pt_sig_required(d));
            }
            v
        },
        PreTokenizerDescriptor::Digits => {
            let v = vec![FieldKey::IndividualDigits];
            proof {
                assert(v@ =~= pt_sig_required(d));
            }
            v
        },
        PreTokenizerDescriptor::Metaspace => {
            let v = vec![FieldKey::Replacement, FieldKey::AddPrefixSpace];
            proof {
                assert(v@ =~= pt_sig_required(d));
            }
            v
        },
        PreTokenizerDescriptor::Punctuation => {
            let v = vec![FieldKey::Behavior];
            proof {
                assert(v@ =~= pt_sig_required(d));
            }
            v
        },
        PreTokenizerDescriptor::Split => {
            let v = vec![FieldKey::Pattern, FieldKey::Behavior, FieldKey::Invert];
            proof {
                assert(v@ =~= pt_sig_required(d));
            }
            v
        },
        _ => {
            let v = Vec::new();
            proof {
                assert(v@ =~= pt_sig_required(d));
            }
            v
        },
    }
}

/// Whether the object carries every one of the required keys.
fn pt_has_all_fields(fields: &Vec<(String, Value)>, req: &Vec<FieldKey>) -> (r: bool)
    ensures
        r == sig_has_all(obj_view(fields), req@),
{
    let mut i: usize = 0;
    while i < req.len()
        invariant
            i <= req.len(),
            forall|j: int| 0 <= j < i ==> obj_has(obj_view(fields), #[trigger] req@[j]),
        decreases req.len() - i,
    {
        match lookup_field(fields, req[i]) {
            Some(_) => {},
            None => {
                proof {
                    assert(!obj_has(obj_view(fields), req@[i as int]));
                }
                return false;
            },
        }
        i = i + 1;
    }
    true
}

/// Whether the object's field shape matches a variant's signature.
fn pt_shape_matches_exec(fields: &Vec<(String, Value)>, d: PreTokenizerDescriptor) -> (r: bool)
    ensures
        r == pt_shape_matches(obj_view(fields), d),
{
    let req = pt_sig_required_vec(d);
    pt_has_all_fields(fields, &req) && crate::codec::fields_within(fields, &req)
}

/// Read a one-character string field.
fn as_single_char(v: &Value) -> (r: Option<char>)
    ensures
        r matches Some(c) ==> v@ matches ValueSpec::Str(t) && t.len() == 1 && t[0] == c,
        r is None ==> !(v@ matches ValueSpec::Str(t) && t.len() == 1),
{
    match v {
        Value::Str(s) => {
            if s.as_str().unicode_len() == 1 {
                Some(s.as_str().get_char(0))
            } else {
                None
            }
        },
        _ => None,
    }
}

/// Decode a single stage from a tag-less object by signature matching.
fn decode_pt_stage(fields: &Vec<(String, Value)>) -> (r: Result<PreTokenizerStage, DecodeError>)
    ensures
        r matches Ok(st) ==> spec_decode_pt_stage(obj_view(fields)) == Ok::<
            PreTokStageSpec,
            DecodeError,
        >(st@) && pt_stage_ok(st@),
        r matches Err(e) ==> spec_decode_pt_stage(obj_view(fields)) == Err::<
            PreTokStageSpec,
            DecodeError,
        >(e),
{
    if pt_shape_matches_exec(fields, PreTokenizerDescriptor::BertPreTokenizer) {
        Ok(PreTokenizerStage::BertPreTokenizer)
    } else if pt_shape_matches_exec(fields, PreTokenizerDescriptor::ByteLevel) {
        let aps = match lookup_field(fields, FieldKey::AddPrefixSpace) {
            Some(v) => crate::codec::as_bool(v),
            None => None,
        };
        let ur = match lookup_field(fields, FieldKey::UseRegex) {
            Some(v) => crate::codec::as_bool(v),
            None => None,
        };
        match (aps, ur) {
            (Some(add_prefix_space), Some(use_regex)) => Ok(
                PreTokenizerStage::ByteLevel { add_prefix_space, use_regex },
            ),
            _ => Err(DecodeError::BadField),
        }
    } else if pt_shape_matches_exec(fields, PreTokenizerDescriptor::CharDelimiterSplit) {
        match lookup_field(fields, FieldKey::Delimiter) {
            Some(v) => match as_single_char(v) {
                Some(delimiter) => Ok(PreTokenizerStage::CharDelimiterSplit { delimiter }),
                None => Err(DecodeError::BadField),
            },
            None => Err(DecodeError::BadField),
        }
    } else if pt_shape_matches_exec(fields, PreTokenizerDescriptor::Metaspace) {
        let rep = match lookup_field(fields, FieldKey::Replacement) {
            Some(v) => as_single_char(v),
            None => None,
        };
        let aps = match lookup_field(fields, FieldKey::AddPrefixSpace) {
            Some(v) => crate::codec::as_bool(v),
            None => None,
        };
        match (rep, aps) {
            (Some(replacement), Some(add_prefix_space)) => Ok(
                PreTokenizerStage::Metaspace { replacement, add_prefix_space },
            ),
            _ => Err(DecodeError::BadField),
        }
    } else if pt_shape_matches_exec(fields, PreTokenizerDescriptor::Whitespace) {
        Ok(PreTokenizerStage::Whitespace)
    } else if pt_shape_matches_exec(fields, PreTokenizerDescriptor::Split) {
        let p = match lookup_field(fields, FieldKey::Pattern) {
            Some(v) => crate::codec::as_text(v),
            None => None,
        };
        let bh = match lookup_field(fields, FieldKey::Behavior) {
            Some(v) => match crate::codec::as_text(v) {
                Some(t) => Some(behavior_of_name_exec(&t)),
                None => None,
            },
            None => None,
        };
        let inv = match lookup_field(fields, FieldKey::Invert) {
            Some(v) => crate::codec::as_bool(v),
            None => None,
        };
        match (p, bh, inv) {
            (Some(pattern), Some(Some(behavior)), Some(invert)) => {
                if backend::split_pattern_valid(pattern.as_str()) {
                    Ok(PreTokenizerStage::Split { pattern, behavior, invert })
                } else {
                    Err(DecodeError::InvalidStage)
                }
            },
            _ => Err(DecodeError::BadField),
        }
    } else if pt_shape_matches_exec(fields, PreTokenizerDescriptor::Punctuation) {
        match lookup_field(fields, FieldKey::Behavior) {
            Some(v) => match crate::codec::as_text(v) {
                Some(t) => match behavior_of_name_exec(&t) {
                    Some(behavior) => Ok(PreTokenizerStage::Punctuation { behavior }),
                    None => Err(DecodeError::BadField),
                },
                None => Err(DecodeError::BadField),
            },
            None => Err(DecodeError::BadField),
        }
    } else if pt_shape_matches_exec(fields, PreTokenizerDescriptor::WhitespaceSplit) {
        Ok(PreTokenizerStage::WhitespaceSplit)
    } else if pt_shape_matches_exec(fields, PreTokenizerDescriptor::Digits) {
        match lookup_field(fields, FieldKey::IndividualDigits) {
            Some(v) => match crate::codec::as_bool(v) {
                Some(individual_digits) => Ok(PreTokenizerStage::Digits { individual_digits }),
                None => Err(DecodeError::BadField),
            },
            None => Err(DecodeError::BadField),
        }
    } else if pt_shape_matches_exec(fields, PreTokenizerDescriptor::UnicodeScripts) {
        Ok(PreTokenizerStage::UnicodeScripts)
    } else {
        Err(DecodeError::NoMatch)
    }
}

/// Whether every part's pipeline is valid for an arena of the given length.
pub open spec fn pt_parts_valid(parts: Seq<RbPreTokenizer>, arena_len: int) -> bool {
    forall|i: int| 0 <= i < parts.len() ==> (#[trigger] parts[i]).pipeline.valid(arena_len)
}

/// The concatenated leaves of a list of parts.
pub open spec fn pt_parts_leaves(parts: Seq<RbPreTokenizer>) -> Seq<int> {
    leaves_of_list(parts.map(|i: int, rb: RbPreTokenizer| rb.pipeline))
}

/// The concatenated stages of a list of parts.
pub open spec fn pt_parts_stages(parts: Seq<RbPreTokenizer>, arena: Seq<PreTokStageSpec>) -> Seq<
    PreTokStageSpec,
> {
    pt_parts_leaves(parts).map(|i: int, h: int| arena[h])
}

/// Whether the backend accepts every stage in the list.
pub open spec fn pt_stages_ok(stages: Seq<PreTokStageSpec>) -> bool {
    forall|i: int| 0 <= i < stages.len() ==> pt_stage_ok(#[trigger] stages[i])
}

/// Extending the arena changes no part's stages.
proof fn lemma_pt_parts_extend(
    parts: Seq<RbPreTokenizer>,
    a1: Seq<PreTokStageSpec>,
    a2: Seq<PreTokStageSpec>,
)
    requires
        pt_parts_valid(parts, a1.len() as int),
        a1.is_prefix_of(a2),
    ensures
        pt_parts_stages(parts, a2) == pt_parts_stages(parts, a1),
        pt_parts_valid(parts, a2.len() as int),
        pt_stages_ok(pt_parts_stages(parts, a1)) ==> pt_stages_ok(pt_parts_stages(parts, a2)),
{
    lemma_pt_parts_leaves_bound(parts, a1.len() as int);
    assert(pt_parts_stages(parts, a2) =~= pt_parts_stages(parts, a1));
}

/// Every leaf of a valid part list lies below the arena length.
proof fn lemma_pt_parts_leaves_bound(parts: Seq<RbPreTokenizer>, arena_len: int)
    requires
        pt_parts_valid(parts, arena_len),
    ensures
        forall|i: int|
            0 <= i < pt_parts_leaves(parts).len() ==> 0 <= #[trigger] pt_parts_leaves(parts)[i]
                < arena_len,
    decreases parts.len(),
{
    let ps = parts.map(|j: int, rb: RbPreTokenizer| rb.pipeline);
    if parts.len() > 0 {
        lemma_pt_parts_leaves_bound(parts.drop_first(), arena_len);
        assert(parts.drop_first().map(|j: int, rb: RbPreTokenizer| rb.pipeline) =~= ps.drop_first());
        assert(parts[0].pipeline.valid(arena_len));
        assert(ps.first() == parts[0].pipeline);
        assert forall|i: int|
            0 <= i < pt_parts_leaves(parts).len() implies 0 <= #[trigger] pt_parts_leaves(parts)[i]
            < arena_len by {
            let head = ps.first().leaves();
            if i < head.len() {
                assert(pt_parts_leaves(parts)[i] == head[i]);
            } else {
                assert(pt_parts_leaves(parts)[i] == pt_parts_leaves(parts.drop_first())[i
                    - head.len()]);
            }
        }
    }
}

/// Appending one part appends its stages.
proof fn lemma_pt_parts_push(parts: Seq<RbPreTokenizer>, arena: Seq<PreTokStageSpec>)
    requires
        parts.len() > 0,
    ensures
        pt_parts_stages(parts, arena) == pt_parts_stages(parts.drop_last(), arena) + parts.last(
        ).pipeline.stages(arena),
{
    let ps = parts.map(|j: int, rb: RbPreTokenizer| rb.pipeline);
    let ps0 = parts.drop_last().map(|j: int, rb: RbPreTokenizer| rb.pipeline);
    assert(ps =~= ps0 + seq![parts.last().pipeline]);
    lemma_leaves_of_list_concat(ps0, seq![parts.last().pipeline]);
    lemma_leaves_of_list_singleton(parts.last().pipeline);
    assert(pt_parts_stages(parts, arena) =~= pt_parts_stages(parts.drop_last(), arena)
        + parts.last().pipeline.stages(arena));
}

/// Decode a structural value into a runtime pipeline, allocating fresh
/// cells; nested serialized sequences are re-flattened on load. Exactly the
/// inputs accepted by `spec_decode_pt` are decoded, and with the stage
/// values it gives.
pub fn decode_pre_tokenizer(arena: &mut PreTokenizerArena, v: &Value) -> (r: Result<
    RbPreTokenizer,
    DecodeError,
>)
    ensures
        old(arena)@.is_prefix_of(final(arena)@),
        r matches Ok(n) ==> {
            &&& n.pipeline.valid(final(arena)@.len() as int)
            &&& pt_stages_ok(n.pipeline.stages(final(arena)@))
            &&& match spec_decode_pt(v@) {
                Ok(PreTokPipeSpec::Single(st)) => n.pipeline is Single && n.pipeline.stages(
                    final(arena)@,
                ) == seq![st],
                Ok(PreTokPipeSpec::Sequence(sts)) => n.pipeline is Sequence && n.pipeline.stages(
                    final(arena)@,
                ) == sts,
                Err(_) => false,
            }
        },
        r matches Err(e) ==> spec_decode_pt(v@) == Err::<PreTokPipeSpec, DecodeError>(e),
    decreases v,
{
    match v {
        Value::Obj(fields) => {
            let ghost obj = obj_view(fields);
            let tagged = match lookup_field(fields, FieldKey::TypeTag) {
                Some(tv) => match tv {
                    Value::Str(s) => *s == "Sequence".to_owned(),
                    _ => false,
                },
                None => false,
            };
            proof {
                assert(tagged == pt_has_sequence_tag(obj));
            }
            if tagged {
                let allowed = vec![FieldKey::TypeTag, FieldKey::PreTokenizers];
                proof {
                    assert(allowed@ =~= seq![FieldKey::TypeTag, FieldKey::PreTokenizers]);
                }
                if !crate::codec::fields_within(fields, &allowed) {
                    return Err(DecodeError::BadSequence);
                }
                match crate::codec::lookup_index(fields, FieldKey::PreTokenizers) {
                    Some(li) => match &fields[li].1 {
                        Value::List(items) => {
                            let ghost lv_items = crate::codec::list_view(items);
                            proof {
                                crate::codec::lemma_list_view_from(items, 0);
                            }
                            let mut parts: Vec<RbPreTokenizer> = Vec::new();
                            let ghost mut done: Seq<PreTokStageSpec> = Seq::empty();
                            let mut idx: usize = 0;
                            proof {
                                assert(lv_items.skip(0) =~= lv_items);
                                assert(pt_parts_stages(parts@, arena@) =~= done);
                            }
                            #[verifier::loop_isolation(false)]
                            while idx < items.len()
                                invariant
                                    idx <= items.len(),
                                    old(arena)@.is_prefix_of(arena@),
                                    lv_items == crate::codec::list_view(items),
                                    lv_items.len() == items@.len(),
                                    forall|j: int|
                                        0 <= j < items@.len() ==> lv_items[j] == #[trigger] items@[j]@,
                                    pt_parts_valid(parts@, arena@.len() as int),
                                    pt_stages_ok(pt_parts_stages(parts@, arena@)),
                                    pt_parts_stages(parts@, arena@) == done,
                                    match spec_decode_pt_list(lv_items.skip(idx as int)) {
                                        Ok(rest) => spec_decode_pt_list(lv_items) == Ok::<
                                            Seq<PreTokStageSpec>,
                                            DecodeError,
                                        >(done + rest),
                                        Err(e) => spec_decode_pt_list(lv_items) == Err::<
                                            Seq<PreTokStageSpec>,
                                            DecodeError,
                                        >(e),
                                    },
                                decreases items.len() - idx,
                            {
                                proof {
                                    assert(lv_items.skip(idx as int).first() == lv_items[idx as int]);
                                    assert(lv_items.skip(idx as int).drop_first() =~= lv_items.skip(
                                        idx as int + 1,
                                    ));
                                }
                                let ghost arena_before = arena@;
                                proof {
                                    assert(decreases_to!(*fields => fields@[li as int]));
                                    assert(decreases_to!(*items => items@[idx as int]));
                                }
                                match decode_pre_tokenizer(arena, &items[idx]) {
                                    Ok(part) => {
                                        proof {
                                            lemma_pt_parts_extend(parts@, arena_before, arena@);
                                            assert(old(arena)@.is_prefix_of(arena@)) by {
                                                assert(old(arena)@ =~= arena@.subrange(
                                                    0,
                                                    old(arena)@.len() as int,
                                                ));
                                            }
                                        }
                                        let ghost part_stages = part.pipeline.stages(arena@);
                                        let ghost parts_before = parts@;
                                        parts.push(part);
                                        proof {
                                            assert(parts@.drop_last() =~= parts_before);
                                            assert(parts@.last() == part);
                                            lemma_pt_parts_push(parts@, arena@);
                                            assert(pt_parts_stages(parts@, arena@) == done
                                                + part_stages);
                                            assert forall|i: int|
                                                0 <= i < parts@.len() implies (
                                            #[trigger] parts@[i]).pipeline.valid(
                                                arena@.len() as int,
                                            ) by {
                                                if i < parts_before.len() {
                                                    assert(parts@[i] == parts_before[i]);
                                                } else {
                                                    assert(parts@[i] == part);
                                                }
                                            }
                                            assert(pt_stages_ok(done + part_stages)) by {
                                                assert forall|i: int|
                                                    0 <= i < (done + part_stages).len() implies pt_stage_ok(
                                                    #[trigger] (done + part_stages)[i],
                                                ) by {
                                                    if i < done.len() {
                                                        assert((done + part_stages)[i] == done[i]);
                                                    } else {
                                                        assert((done + part_stages)[i]
                                                            == part_stages[i - done.len()]);
                                                    }
                                                }
                                            }
                                            if spec_decode_pt_list(
                                                lv_items.skip(idx as int + 1),
                                            ) is Ok {
                                                let rest = spec_decode_pt_list(
                                                    lv_items.skip(idx as int + 1),
                                                ).unwrap();
                                                assert(spec_decode_pt_list(
                                                    lv_items.skip(idx as int),
                                                ) == Ok::<Seq<PreTokStageSpec>, DecodeError>(
                                                    part_stages + rest,
                                                ));
                                                assert((done + part_stages) + rest =~= done + (
                                                part_stages + rest));
                                            }
                                            done = done + part_stages;
                                        }
                                    },
                                    Err(e) => {
                                        return Err(e);
                                    },
                                }
                                idx = idx + 1;
                            }
                            proof {
                                assert(lv_items.skip(items@.len() as int) =~= Seq::<
                                    ValueSpec,
                                >::empty());
                            }
                            let n = RbSequence::new(&parts);
                            proof {
                                assert(leaves_of_list(
                                    parts@.map(|i: int, rb: RbPreTokenizer| rb.pipeline),
                                ) == pt_parts_leaves(parts@));
                                lemma_pt_parts_leaves_bound(parts@, arena@.len() as int);
                                assert(done + Seq::<PreTokStageSpec>::empty() =~= done);
                                assert(n.pipeline.stages(arena@) == done);
                            }
                            Ok(n)
                        },
                        _ => Err(DecodeError::BadSequence),
                    },
                    None => Err(DecodeError::BadSequence),
                }
            } else {
                match decode_pt_stage(fields) {
                    Ok(st) => {
                        let n = single_stage(arena, st);
                        proof {
                            assert(old(arena)@.is_prefix_of(arena@)) by {
                                assert(old(arena)@ =~= arena@.subrange(
                                    0,
                                    old(arena)@.len() as int,
                                ));
                            }
                            assert(pt_stages_ok(seq![st@])) by {
                                assert(seq![st@][0] == st@);
                            }
                        }
                        Ok(n)
                    },
                    Err(e) => Err(e),
                }
            }
        },
        _ => Err(DecodeError::NotAnObject),
    }
}

/// Encode one stage as a flat object holding exactly its variant's fields.
fn encode_pt_stage(stage: &PreTokenizerStage) -> (v: Value)
    ensures
        v@ == spec_encode_pt_stage(stage@),
{
    match stage {
        PreTokenizerStage::ByteLevel { add_prefix_space, use_regex } => {
            let mut fields: Vec<(String, Value)> = Vec::new();
            fields.push(("add_prefix_space".to_owned(), Value::Bool(*add_prefix_space)));
            fields.push(("use_regex".to_owned(), Value::Bool(*use_regex)));
            proof {
                crate::codec::lemma_obj_view_from(&fields, 0);
                assert(fields@.len() == 2);
                assert(fields@[0].0@ == "add_prefix_space"@ && fields@[0].1@ == ValueSpec::Bool(
                    *add_prefix_space,
                ));
                assert(fields@[1].0@ == "use_regex"@ && fields@[1].1@ == ValueSpec::Bool(
                    *use_regex,
                ));
                assert(obj_view(&fields) =~= spec_encode_pt_stage(stage@)->Obj_0);
            }
            Value::Obj(fields)
        },
        PreTokenizerStage::CharDelimiterSplit { delimiter } => {
            let mut fields: Vec<(String, Value)> = Vec::new();
            fields.push(("delimiter".to_owned(), Value::Str(backend::char_to_string(*delimiter))));
            proof {
                crate::codec::lemma_obj_view_from(&fields, 0);
                assert(fields@.len() == 1);
                assert(fields@[0].0@ == "delimiter"@ && fields@[0].1@ == ValueSpec::Str(
                    seq![*delimiter],
                ));
                assert(obj_view(&fields) =~= spec_encode_pt_stage(stage@)->Obj_0);
            }
            Value::Obj(fields)
        },
        PreTokenizerStage::Digits { individual_digits } => {
            let mut fields: Vec<(String, Value)> = Vec::new();
            fields.push(("individual_digits".to_owned(), Value::Bool(*individual_digits)));
            proof {
                crate::codec::lemma_obj_view_from(&fields, 0);
                assert(fields@.len() == 1);
                assert(fields@[0].0@ == "individual_digits"@ && fields@[0].1@ == ValueSpec::Bool(
                    *individual_digits,
                ));
                assert(obj_view(&fields) =~= spec_encode_pt_stage(stage@)->Obj_0);
            }
            Value::Obj(fields)
        },
        PreTokenizerStage::Metaspace { replacement, add_prefix_space } => {
            let mut fields: Vec<(String, Value)> = Vec::new();
            fields.push(("replacement".to_owned(), Value::Str(backend::char_to_string(*replacement))));
            fields.push(("add_prefix_space".to_owned(), Value::Bool(*add_prefix_space)));
            proof {
                crate::codec::lemma_obj_view_from(&fields, 0);
                assert(fields@.len() == 2);
                assert(fields@[0].0@ == "replacement"@ && fields@[0].1@ == ValueSpec::Str(
                    seq![*replacement],
                ));
                assert(fields@[1].0@ == "add_prefix_space"@ && fields@[1].1@ == ValueSpec::Bool(
                    *add_prefix_space,
                ));
                assert(obj_view(&fields) =~= spec_encode_pt_stage(stage@)->Obj_0);
            }
            Value::Obj(fields)
        },
        PreTokenizerStage::Punctuation { behavior } => {
            let mut fields: Vec<(String, Value)> = Vec::new();
            fields.push(("behavior".to_owned(), Value::Str(behavior_name_exec(*behavior))));
            proof {
                crate::codec::lemma_obj_view_from(&fields, 0);
                assert(fields@.len() == 1);
                assert(fields@[0].0@ == "behavior"@ && fields@[0].1@ == ValueSpec::Str(
                    behavior_name(*behavior),
                ));
                assert(obj_view(&fields) =~= spec_encode_pt_stage(stage@)->Obj_0);
            }
            Value::Obj(fields)
        },
        PreTokenizerStage::Split { pattern, behavior, invert } => {
            let mut fields: Vec<(String, Value)> = Vec::new();
            fields.push(("pattern".to_owned(), Value::Str(pattern.clone())));
            fields.push(("behavior".to_owned(), Value::Str(behavior_name_exec(*behavior))));
            fields.push(("invert".to_owned(), Value::Bool(*invert)));
            proof {
                crate::codec::lemma_obj_view_from(&fields, 0);
                assert(fields@.len() == 3);
                assert(fields@[0].0@ == "pattern"@ && fields@[0].1@ == ValueSpec::Str(pattern@));
                assert(fields@[1].0@ == "behavior"@ && fields@[1].1@ == ValueSpec::Str(
                    behavior_name(*behavior),
                ));
                assert(fields@[2].0@ == "invert"@ && fields@[2].1@ == ValueSpec::Bool(*invert));
                assert(obj_view(&fields) =~= spec_encode_pt_stage(stage@)->Obj_0);
            }
            Value::Obj(fields)
        },
        _ => {
            let fields: Vec<(String, Value)> = Vec::new();
            proof {
                crate::codec::lemma_obj_view_from(&fields, 0);
                assert(obj_view(&fields) =~= spec_encode_pt_stage(stage@)->Obj_0);
            }
            Value::Obj(fields)
        },
    }
}

impl RbPreTokenizer {
    /// Encode this pipeline as a structural value: a single stage as the
    /// flat object of its variant's fields, a sequence as the discriminated
    /// object carrying its encoded member stages in order.
    pub fn encode(&self, arena: &PreTokenizerArena) -> (v: Value)
        requires
            self.pipeline.valid(arena@.len() as int),
        ensures
            self.pipeline is Single ==> v@ == spec_encode_pt_stage(
                self.pipeline.stages(arena@)[0],
            ),
            self.pipeline is Sequence ==> v@ == spec_encode_pt_sequence(
                self.pipeline.stages(arena@),
            ),
    {
        let ghost stages = self.pipeline.stages(arena@);
        match &self.pipeline {
            PreTokenizerPipeline::Single(c) => {
                proof {
                    assert(self.pipeline.leaves()[0] == c@);
                    assert(stages[0] == arena@[c@]);
                }
                encode_pt_stage(arena.read(*c))
            },
            PreTokenizerPipeline::Sequence(cells) => {
                let ghost enc = stages.map(
                    |i: int, st: PreTokStageSpec| spec_encode_pt_stage(st),
                );
                let mut items: Vec<Value> = Vec::new();
                let mut i: usize = 0;
                #[verifier::loop_isolation(false)]
                while i < cells.len()
                    invariant
                        i <= cells.len(),
                        items@.len() == i,
                        forall|j: int| 0 <= j < i ==> #[trigger] items@[j]@ == enc[j],
                    decreases cells.len() - i,
                {
                    proof {
                        assert(self.pipeline.leaves()[i as int] == cells@[i as int]@);
                        assert(stages[i as int] == arena@[cells@[i as int]@]);
                    }
                    items.push(encode_pt_stage(arena.read(cells[i])));
                    i = i + 1;
                }
                proof {
                    crate::codec::lemma_list_view_from(&items, 0);
                    assert(crate::codec::list_view(&items).len() == items@.len());
                    assert(enc.len() == stages.len());
                    assert(items@.len() == stages.len());
                    assert forall|j: int|
                        0 <= j < items@.len() implies crate::codec::list_view(&items)[j] == enc[j] by {
                        assert(crate::codec::list_view(&items)[j] == items@[j]@);
                        assert(items@[j]@ == enc[j]);
                    }
                    assert(crate::codec::list_view(&items) =~= enc);
                }
                let mut fields: Vec<(String, Value)> = Vec::new();
                fields.push(("type".to_owned(), Value::Str("Sequence".to_owned())));
                fields.push(("pretokenizers".to_owned(), Value::List(items)));
                proof {
                    crate::codec::lemma_obj_view_from(&fields, 0);
                    assert(fields@.len() == 2);
                    assert(fields@[0].0@ == "type"@ && fields@[0].1@ == ValueSpec::Str(
                        "Sequence"@,
                    ));
                    assert(fields@[1].0@ == "pretokenizers"@);
                    assert(fields@[1].1@ == ValueSpec::List(enc));
                    assert(obj_view(&fields) =~= spec_encode_pt_sequence(stages)->Obj_0);
                }
                Value::Obj(fields)
            },
        }
    }
}


/// The exact key each of this family's interchange field names denotes.
proof fn lemma_pt_field_keys()
    ensures
        fid("type"@) == FieldKey::TypeTag,
        fid("pretokenizers"@) == FieldKey::PreTokenizers,
        fid("add_prefix_space"@) == FieldKey::AddPrefixSpace,
        fid("use_regex"@) == FieldKey::UseRegex,
        fid("delimiter"@) == FieldKey::Delimiter,
        fid("individual_digits"@) == FieldKey::IndividualDigits,
        fid("replacement"@) == FieldKey::Replacement,
        fid("behavior"@) == FieldKey::Behavior,
        fid("invert"@) == FieldKey::Invert,
        fid("pattern"@) == FieldKey::Pattern,
{
    reveal_strlit("type");
    reveal_strlit("normalizers");
    reveal_strlit("pretokenizers");
    reveal_strlit("clean_text");
    reveal_strlit("handle_chinese_chars");
    reveal_strlit("strip_accents");
    reveal_strlit("lowercase");
    reveal_strlit("pattern");
    reveal_strlit("content");
    reveal_strlit("prepend");
    reveal_strlit("strip_left");
    reveal_strlit("strip_right");
    reveal_strlit("add_prefix_space");
    reveal_strlit("use_regex");
    reveal_strlit("delimiter");
    reveal_strlit("individual_digits");
    reveal_strlit("replacement");
    reveal_strlit("behavior");
    reveal_strlit("invert");
    assert("type"@.len() == 4);
    assert("normalizers"@.len() == 11);
    assert("pretokenizers"@.len() == 13);
    assert("clean_text"@.len() == 10);
    assert("handle_chinese_chars"@.len() == 20);
    assert("strip_accents"@.len() == 13);
    assert("lowercase"@.len() == 9);
    assert("pattern"@.len() == 7);
    assert("content"@.len() == 7);
    assert("prepend"@.len() == 7);
    assert("strip_left"@.len() == 10);
    assert("strip_right"@.len() == 11);
    assert("add_prefix_space"@.len() == 16);
    assert("use_regex"@.len() == 9);
    assert("delimiter"@.len() == 9);
    assert("individual_digits"@.len() == 17);
    assert("replacement"@.len() == 11);
    assert("behavior"@.len() == 8);
    assert("invert"@.len() == 6);
    assert("pretokenizers"@[0] == 'p' && "strip_accents"@[0] == 's');
    assert("pattern"@[0] == 'p' && "content"@[0] == 'c' && "prepend"@[0] == 'p');
    assert("pattern"@[1] == 'a' && "prepend"@[1] == 'r');
    assert("lowercase"@[0] == 'l' && "use_regex"@[0] == 'u' && "delimiter"@[0] == 'd');
    assert("normalizers"@[0] == 'n' && "strip_right"@[0] == 's' && "replacement"@[0] == 'r');
}

/// The field names and values of an encoded stage object, spelled out.
proof fn lemma_pt_enc_fields(st: PreTokStageSpec)
    ensures
        st matches PreTokStageSpec::ByteLevel { add_prefix_space, use_regex } ==> {
            let obj = spec_encode_pt_stage(st)->Obj_0;
            &&& obj.len() == 2
            &&& obj[0] == ("add_prefix_space"@, ValueSpec::Bool(add_prefix_space))
            &&& obj[1] == ("use_regex"@, ValueSpec::Bool(use_regex))
            &&& fid(obj[0].0) == FieldKey::AddPrefixSpace
            &&& fid(obj[1].0) == FieldKey::UseRegex
        },
        st matches PreTokStageSpec::CharDelimiterSplit { delimiter } ==> {
            let obj = spec_encode_pt_stage(st)->Obj_0;
            &&& obj.len() == 1
            &&& obj[0] == ("delimiter"@, ValueSpec::Str(seq![delimiter]))
            &&& fid(obj[0].0) == FieldKey::Delimiter
        },
        st matches PreTokStageSpec::Digits { individual_digits } ==> {
            let obj = spec_encode_pt_stage(st)->Obj_0;
            &&& obj.len() == 1
            &&& obj[0] == ("individual_digits"@, ValueSpec::Bool(individual_digits))
            &&& fid(obj[0].0) == FieldKey::IndividualDigits
        },
        st matches PreTokStageSpec::Metaspace { replacement, add_prefix_space } ==> {
            let obj = spec_encode_pt_stage(st)->Obj_0;
            &&& obj.len() == 2
            &&& obj[0] == ("replacement"@, ValueSpec::Str(seq![replacement]))
            &&& obj[1] == ("add_prefix_space"@, ValueSpec::Bool(add_prefix_space))
            &&& fid(obj[0].0) == FieldKey::Replacement
            &&& fid(obj[1].0) == FieldKey::AddPrefixSpace
        },
        st matches PreTokStageSpec::Punctuation { behavior } ==> {
            let obj = spec_encode_pt_stage(st)->Obj_0;
            &&& obj.len() == 1
            &&& obj[0] == ("behavior"@, ValueSpec::Str(behavior_name(behavior)))
            &&& fid(obj[0].0) == FieldKey::Behavior
        },
        st matches PreTokStageSpec::Split { pattern, behavior, invert } ==> {
            let obj = spec_encode_pt_stage(st)->Obj_0;
            &&& obj.len() == 3
            &&& obj[0] == ("pattern"@, ValueSpec::Str(pattern))
            &&& obj[1] == ("behavior"@, ValueSpec::Str(behavior_name(behavior)))
            &&& obj[2] == ("invert"@, ValueSpec::Bool(invert))
            &&& fid(obj[0].0) == FieldKey::Pattern
            &&& fid(obj[1].0) == FieldKey::Behavior
            &&& fid(obj[2].0) == FieldKey::Invert
        },
        st is BertPreTokenizer || st is UnicodeScripts || st is Whitespace || st is WhitespaceSplit
            ==> spec_encode_pt_stage(st)->Obj_0 =~= Seq::<(Seq<char>, ValueSpec)>::empty(),
{
    lemma_pt_field_keys();
}

/// Which stages survive the structural round trip unchanged: every stage
/// that carries fields, and — among the field-less variants, whose encoded
/// objects are all empty — the one their shared shape resolves to first in
/// the priority order, `BertPreTokenizer`.
pub open spec fn pt_stage_shape_canonical(st: PreTokStageSpec) -> bool {
    match st {
        PreTokStageSpec::UnicodeScripts => false,
        PreTokStageSpec::Whitespace => false,
        PreTokStageSpec::WhitespaceSplit => false,
        _ => true,
    }
}

/// Round trip, single stages: decoding an encoded stage yields the stage
/// back, for every stage whose configuration the backend accepts and whose
/// shape is not shadowed by an earlier signature in the priority order.
pub proof fn lemma_pt_stage_round_trip(st: PreTokStageSpec)
    requires
        pt_stage_ok(st),
        pt_stage_shape_canonical(st),
    ensures
        spec_decode_pt(spec_encode_pt_stage(st)) == Ok::<PreTokPipeSpec, DecodeError>(
            PreTokPipeSpec::Single(st),
        ),
{
    lemma_pt_field_keys();
    lemma_pt_enc_fields(st);
    let obj = spec_encode_pt_stage(st)->Obj_0;
    assert forall|j: int|
        0 <= j < obj.len() implies fid(#[trigger] obj[j].0) != FieldKey::TypeTag by {}
    crate::codec::lemma_obj_lookup_none(obj, FieldKey::TypeTag);
    assert(!pt_has_sequence_tag(obj));
    lemma_pt_stage_decode(st);
}

/// Decoding an encoded stage object resolves to the stage itself.
proof fn lemma_pt_stage_decode(st: PreTokStageSpec)
    requires
        pt_stage_ok(st),
        pt_stage_shape_canonical(st),
    ensures
        spec_decode_pt_stage(spec_encode_pt_stage(st)->Obj_0) == Ok::<
            PreTokStageSpec,
            DecodeError,
        >(st),
{
    lemma_pt_field_keys();
    lemma_pt_enc_fields(st);
    lemma_behavior_names();
    let obj = spec_encode_pt_stage(st)->Obj_0;
    let empty_keys = Seq::<FieldKey>::empty();
    if obj.len() > 0 {
        assert(!obj_within(obj, empty_keys)) by {
            assert(!empty_keys.contains(fid(obj[0].0)));
        }
        assert(!pt_shape_matches(obj, PreTokenizerDescriptor::BertPreTokenizer));
        assert(!pt_shape_matches(obj, PreTokenizerDescriptor::Whitespace));
        assert(!pt_shape_matches(obj, PreTokenizerDescriptor::WhitespaceSplit));
    }
    match st {
        PreTokStageSpec::ByteLevel { add_prefix_space, use_regex } => {
            crate::codec::lemma_obj_lookup_at(obj, FieldKey::AddPrefixSpace, 0);
            crate::codec::lemma_obj_lookup_at(obj, FieldKey::UseRegex, 1);
            assert(pt_shape_matches(obj, PreTokenizerDescriptor::ByteLevel)) by {
                assert forall|i: int|
                    0 <= i < pt_sig_required(PreTokenizerDescriptor::ByteLevel).len()
                        implies obj_has(
                    obj,
                    #[trigger] pt_sig_required(PreTokenizerDescriptor::ByteLevel)[i],
                ) by {
                    assert(pt_sig_required(PreTokenizerDescriptor::ByteLevel)[0]
                        == FieldKey::AddPrefixSpace);
                    assert(pt_sig_required(PreTokenizerDescriptor::ByteLevel)[1]
                        == FieldKey::UseRegex);
                }
                assert forall|i: int| 0 <= i < obj.len() implies pt_sig_allowed(
                    PreTokenizerDescriptor::ByteLevel,
                ).contains(fid(#[trigger] obj[i].0)) by {
                    assert(pt_sig_allowed(PreTokenizerDescriptor::ByteLevel)[0]
                        == FieldKey::AddPrefixSpace);
                    assert(pt_sig_allowed(PreTokenizerDescriptor::ByteLevel)[1]
                        == FieldKey::UseRegex);
                }
            }
        },
        PreTokStageSpec::CharDelimiterSplit { delimiter } => {
            crate::codec::lemma_obj_lookup_at(obj, FieldKey::Delimiter, 0);
            assert forall|j: int|
                0 <= j < obj.len() implies fid(#[trigger] obj[j].0) != FieldKey::AddPrefixSpace by {}
            crate::codec::lemma_obj_lookup_none(obj, FieldKey::AddPrefixSpace);
            assert(!sig_has_all(obj, pt_sig_required(PreTokenizerDescriptor::ByteLevel))) by {
                assert(pt_sig_required(PreTokenizerDescriptor::ByteLevel)[0]
                    == FieldKey::AddPrefixSpace);
            }
            assert(pt_shape_matches(obj, PreTokenizerDescriptor::CharDelimiterSplit)) by {
                assert forall|i: int|
                    0 <= i < pt_sig_required(PreTokenizerDescriptor::CharDelimiterSplit).len()
                        implies obj_has(
                    obj,
                    #[trigger] pt_sig_required(PreTokenizerDescriptor::CharDelimiterSplit)[i],
                ) by {
                    assert(pt_sig_required(PreTokenizerDescriptor::CharDelimiterSplit)[0]
                        == FieldKey::Delimiter);
                }
                assert forall|i: int| 0 <= i < obj.len() implies pt_sig_allowed(
                    PreTokenizerDescriptor::CharDelimiterSplit,
                ).contains(fid(#[trigger] obj[i].0)) by {
                    assert(pt_sig_allowed(PreTokenizerDescriptor::CharDelimiterSplit)[0]
                        == FieldKey::Delimiter);
                }
            }
            assert(seq![delimiter].len() == 1 && seq![delimiter][0] == delimiter);
        },
        PreTokStageSpec::Metaspace { replacement, add_prefix_space } => {
            crate::codec::lemma_obj_lookup_at(obj, FieldKey::Replacement, 0);
            crate::codec::lemma_obj_lookup_at(obj, FieldKey::AddPrefixSpace, 1);
            assert forall|j: int|
                0 <= j < obj.len() implies fid(#[trigger] obj[j].0) != FieldKey::UseRegex by {}
            crate::codec::lemma_obj_lookup_none(obj, FieldKey::UseRegex);
            assert(!sig_has_all(obj, pt_sig_required(PreTokenizerDescriptor::ByteLevel))) by {
                assert(pt_sig_required(PreTokenizerDescriptor::ByteLevel)[1] == FieldKey::UseRegex);
            }
            assert forall|j: int|
                0 <= j < obj.len() implies fid(#[trigger] obj[j].0) != FieldKey::Delimiter by {}
            crate::codec::lemma_obj_lookup_none(obj, FieldKey::Delimiter);
            assert(!sig_has_all(obj, pt_sig_required(PreTokenizerDescriptor::CharDelimiterSplit)))
                by {
                assert(pt_sig_required(PreTokenizerDescriptor::CharDelimiterSplit)[0]
                    == FieldKey::Delimiter);
            }
            assert(pt_shape_matches(obj, PreTokenizerDescriptor::Metaspace)) by {
                assert forall|i: int|
                    0 <= i < pt_sig_required(PreTokenizerDescriptor::Metaspace).len()
                        implies obj_has(
                    obj,
                    #[trigger] pt_sig_required(PreTokenizerDescriptor::Metaspace)[i],
                ) by {
                    assert(pt_sig_required(PreTokenizerDescriptor::Metaspace)[0]
                        == FieldKey::Replacement);
                    assert(pt_sig_required(PreTokenizerDescriptor::Metaspace)[1]
                        == FieldKey::AddPrefixSpace);
                }
                assert forall|i: int| 0 <= i < obj.len() implies pt_sig_allowed(
                    PreTokenizerDescriptor::Metaspace,
                ).contains(fid(#[trigger] obj[i].0)) by {
                    assert(pt_sig_allowed(PreTokenizerDescriptor::Metaspace)[0]
                        == FieldKey::Replacement);
                    assert(pt_sig_allowed(PreTokenizerDescriptor::Metaspace)[1]
                        == FieldKey::AddPrefixSpace);
                }
            }
            assert(seq![replacement].len() == 1 && seq![replacement][0] == replacement);
        },
        PreTokStageSpec::Split { pattern, behavior, invert } => {
            crate::codec::lemma_obj_lookup_at(obj, FieldKey::Pattern, 0);
            crate::codec::lemma_obj_lookup_at(obj, FieldKey::Behavior, 1);
            crate::codec::lemma_obj_lookup_at(obj, FieldKey::Invert, 2);
            assert forall|j: int|
                0 <= j < obj.len() implies fid(#[trigger] obj[j].0) != FieldKey::AddPrefixSpace by {}
            crate::codec::lemma_obj_lookup_none(obj, FieldKey::AddPrefixSpace);
            assert(!sig_has_all(obj, pt_sig_required(PreTokenizerDescriptor::ByteLevel))) by {
                assert(pt_sig_required(PreTokenizerDescriptor::ByteLevel)[0]
                    == FieldKey::AddPrefixSpace);
            }
            assert forall|j: int|
                0 <= j < obj.len() implies fid(#[trigger] obj[j].0) != FieldKey::Delimiter by {}
            crate::codec::lemma_obj_lookup_none(obj, FieldKey::Delimiter);
            assert(!sig_has_all(obj, pt_sig_required(PreTokenizerDescriptor::CharDelimiterSplit)))
                by {
                assert(pt_sig_required(PreTokenizerDescriptor::CharDelimiterSplit)[0]
                    == FieldKey::Delimiter);
            }
            assert forall|j: int|
                0 <= j < obj.len() implies fid(#[trigger] obj[j].0) != FieldKey::Replacement by {}
            crate::codec::lemma_obj_lookup_none(obj, FieldKey::Replacement);
            assert(!sig_has_all(obj, pt_sig_required(PreTokenizerDescriptor::Metaspace))) by {
                assert(pt_sig_required(PreTokenizerDescriptor::Metaspace)[0]
                    == FieldKey::Replacement);
            }
            assert(pt_shape_matches(obj, PreTokenizerDescriptor::Split)) by {
                assert forall|i: int|
                    0 <= i < pt_sig_required(PreTokenizerDescriptor::Split).len() implies obj_has(
                    obj,
                    #[trigger] pt_sig_required(PreTokenizerDescriptor::Split)[i],
                ) by {
                    assert(pt_sig_required(PreTokenizerDescriptor::Split)[0] == FieldKey::Pattern);
                    assert(pt_sig_required(PreTokenizerDescriptor::Split)[1] == FieldKey::Behavior);
                    assert(pt_sig_required(PreTokenizerDescriptor::Split)[2] == FieldKey::Invert);
                }
                assert forall|i: int| 0 <= i < obj.len() implies pt_sig_allowed(
                    PreTokenizerDescriptor::Split,
                ).contains(fid(#[trigger] obj[i].0)) by {
                    assert(pt_sig_allowed(PreTokenizerDescriptor::Split)[0] == FieldKey::Pattern);
                    assert(pt_sig_allowed(PreTokenizerDescriptor::Split)[1] == FieldKey::Behavior);
                    assert(pt_sig_allowed(PreTokenizerDescriptor::Split)[2] == FieldKey::Invert);
                }
            }
            assert(behavior_of_name(behavior_name(behavior)) == Some(behavior));
        },
        PreTokStageSpec::Punctuation { behavior } => {
            crate::codec::lemma_obj_lookup_at(obj, FieldKey::Behavior, 0);
            assert forall|j: int|
                0 <= j < obj.len() implies fid(#[trigger] obj[j].0) != FieldKey::AddPrefixSpace by {}
            crate::codec::lemma_obj_lookup_none(obj, FieldKey::AddPrefixSpace);
            assert(!sig_has_all(obj, pt_sig_required(PreTokenizerDescriptor::ByteLevel))) by {
                assert(pt_sig_required(PreTokenizerDescriptor::ByteLevel)[0]
                    == FieldKey::AddPrefixSpace);
            }
            assert forall|j: int|
                0 <= j < obj.len() implies fid(#[trigger] obj[j].0) != FieldKey::Delimiter by {}
            crate::codec::lemma_obj_lookup_none(obj, FieldKey::Delimiter);
            assert(!sig_has_all(obj, pt_sig_required(PreTokenizerDescriptor::CharDelimiterSplit)))
                by {
                assert(pt_sig_required(PreTokenizerDescriptor::CharDelimiterSplit)[0]
                    == FieldKey::Delimiter);
            }
            assert forall|j: int|
                0 <= j < obj.len() implies fid(#[trigger] obj[j].0) != FieldKey::Replacement by {}
            crate::codec::lemma_obj_lookup_none(obj, FieldKey::Replacement);
            assert(!sig_has_all(obj, pt_sig_required(PreTokenizerDescriptor::Metaspace))) by {
                assert(pt_sig_required(PreTokenizerDescriptor::Metaspace)[0]
                    == FieldKey::Replacement);
            }
            assert forall|j: int|
                0 <= j < obj.len() implies fid(#[trigger] obj[j].0) != FieldKey::Pattern by {}
            crate::codec::lemma_obj_lookup_none(obj, FieldKey::Pattern);
            assert(!sig_has_all(obj, pt_sig_required(PreTokenizerDescriptor::Split))) by {
                assert(pt_sig_required(PreTokenizerDescriptor::Split)[0] == FieldKey::Pattern);
            }
            assert(pt_shape_matches(obj, PreTokenizerDescriptor::Punctuation)) by {
                assert forall|i: int|
                    0 <= i < pt_sig_required(PreTokenizerDescriptor::Punctuation).len()
                        implies obj_has(
                    obj,
                    #[trigger] pt_sig_required(PreTokenizerDescriptor::Punctuation)[i],
                ) by {
                    assert(pt_sig_required(PreTokenizerDescriptor::Punctuation)[0]
                        == FieldKey::Behavior);
                }
                assert forall|i: int| 0 <= i < obj.len() implies pt_sig_allowed(
                    PreTokenizerDescriptor::Punctuation,
                ).contains(fid(#[trigger] obj[i].0)) by {
                    assert(pt_sig_allowed(PreTokenizerDescriptor::Punctuation)[0]
                        == FieldKey::Behavior);
                }
            }
            assert(behavior_of_name(behavior_name(behavior)) == Some(behavior));
        },
        PreTokStageSpec::Digits { individual_digits } => {
            crate::codec::lemma_obj_lookup_at(obj, FieldKey::IndividualDigits, 0);
            assert forall|j: int|
                0 <= j < obj.len() implies fid(#[trigger] obj[j].0) != FieldKey::AddPrefixSpace by {}
            crate::codec::lemma_obj_lookup_none(obj, FieldKey::AddPrefixSpace);
            assert(!sig_has_all(obj, pt_sig_required(PreTokenizerDescriptor::ByteLevel))) by {
                assert(pt_sig_required(PreTokenizerDescriptor::ByteLevel)[0]
                    == FieldKey::AddPrefixSpace);
            }
            assert forall|j: int|
                0 <= j < obj.len() implies fid(#[trigger] obj[j].0) != FieldKey::Delimiter by {}
            crate::codec::lemma_obj_lookup_none(obj, FieldKey::Delimiter);
            assert(!sig_has_all(obj, pt_sig_required(PreTokenizerDescriptor::CharDelimiterSplit)))
                by {
                assert(pt_sig_required(PreTokenizerDescriptor::CharDelimiterSplit)[0]
                    == FieldKey::Delimiter);
            }
            assert forall|j: int|
                0 <= j < obj.len() implies fid(#[trigger] obj[j].0) != FieldKey::Replacement by {}
            crate::codec::lemma_obj_lookup_none(obj, FieldKey::Replacement);
            assert(!sig_has_all(obj, pt_sig_required(PreTokenizerDescriptor::Metaspace))) by {
                assert(pt_sig_required(PreTokenizerDescriptor::Metaspace)[0]
                    == FieldKey::Replacement);
            }
            assert forall|j: int|
                0 <= j < obj.len() implies fid(#[trigger] obj[j].0) != FieldKey::Pattern by {}
            crate::codec::lemma_obj_lookup_none(obj, FieldKey::Pattern);
            assert(!sig_has_all(obj, pt_sig_required(PreTokenizerDescriptor::Split))) by {
                assert(pt_sig_required(PreTokenizerDescriptor::Split)[0] == FieldKey::Pattern);
            }
            assert forall|j: int|
                0 <= j < obj.len() implies fid(#[trigger] obj[j].0) != FieldKey::Behavior by {}
            crate::codec::lemma_obj_lookup_none(obj, FieldKey::Behavior);
            assert(!sig_has_all(obj, pt_sig_required(PreTokenizerDescriptor::Punctuation))) by {
                assert(pt_sig_required(PreTokenizerDescriptor::Punctuation)[0]
                    == FieldKey::Behavior);
            }
            assert(pt_shape_matches(obj, PreTokenizerDescriptor::Digits)) by {
                assert forall|i: int|
                    0 <= i < pt_sig_required(PreTokenizerDescriptor::Digits).len() implies obj_has(
                    obj,
                    #[trigger] pt_sig_required(PreTokenizerDescriptor::Digits)[i],
                ) by {
                    assert(pt_sig_required(PreTokenizerDescriptor::Digits)[0]
                        == FieldKey::IndividualDigits);
                }
                assert forall|i: int| 0 <= i < obj.len() implies pt_sig_allowed(
                    PreTokenizerDescriptor::Digits,
                ).contains(fid(#[trigger] obj[i].0)) by {
                    assert(pt_sig_allowed(PreTokenizerDescriptor::Digits)[0]
                        == FieldKey::IndividualDigits);
                }
            }
        },
        _ => {
            assert(obj.len() == 0);
            assert(pt_shape_matches(obj, PreTokenizerDescriptor::BertPreTokenizer));
        },
    }
}

/// Round trip, sequences: decoding an encoded sequence yields exactly the
/// same ordered stage list back, provided every member stage survives the
/// trip on its own.
pub proof fn lemma_pt_sequence_round_trip(stages: Seq<PreTokStageSpec>)
    requires
        forall|i: int| 0 <= i < stages.len() ==> pt_stage_ok(#[trigger] stages[i]),
        forall|i: int| 0 <= i < stages.len() ==> pt_stage_shape_canonical(#[trigger] stages[i]),
    ensures
        spec_decode_pt(spec_encode_pt_sequence(stages)) == Ok::<PreTokPipeSpec, DecodeError>(
            PreTokPipeSpec::Sequence(stages),
        ),
{
    lemma_pt_field_keys();
    let obj = spec_encode_pt_sequence(stages)->Obj_0;
    let enc = stages.map(|i: int, st: PreTokStageSpec| spec_encode_pt_stage(st));
    assert(obj.len() == 2);
    assert(obj[0] == ("type"@, ValueSpec::Str("Sequence"@)));
    assert(obj[1] == ("pretokenizers"@, ValueSpec::List(enc)));
    crate::codec::lemma_obj_lookup_at(obj, FieldKey::TypeTag, 0);
    assert(pt_has_sequence_tag(obj));
    crate::codec::lemma_obj_lookup_at(obj, FieldKey::PreTokenizers, 1);
    assert(obj_within(obj, seq![FieldKey::TypeTag, FieldKey::PreTokenizers])) by {
        assert(seq![FieldKey::TypeTag, FieldKey::PreTokenizers][0] == FieldKey::TypeTag);
        assert(seq![FieldKey::TypeTag, FieldKey::PreTokenizers][1] == FieldKey::PreTokenizers);
    }
    lemma_pt_list_round_trip(stages);
}

/// Decoding the encodings of a stage list, element by element, yields the
/// list back.
proof fn lemma_pt_list_round_trip(stages: Seq<PreTokStageSpec>)
    requires
        forall|i: int| 0 <= i < stages.len() ==> pt_stage_ok(#[trigger] stages[i]),
        forall|i: int| 0 <= i < stages.len() ==> pt_stage_shape_canonical(#[trigger] stages[i]),
    ensures
        spec_decode_pt_list(stages.map(|i: int, st: PreTokStageSpec| spec_encode_pt_stage(st)))
            == Ok::<Seq<PreTokStageSpec>, DecodeError>(stages),
    decreases stages.len(),
{
    let enc = stages.map(|i: int, st: PreTokStageSpec| spec_encode_pt_stage(st));
    if stages.len() == 0 {
        assert(enc =~= Seq::<ValueSpec>::empty());
        assert(stages =~= Seq::<PreTokStageSpec>::empty());
    } else {
        lemma_pt_stage_round_trip(stages[0]);
        assert(enc.first() == spec_encode_pt_stage(stages[0]));
        assert(enc.drop_first() =~= stages.drop_first().map(
            |i: int, st: PreTokStageSpec| spec_encode_pt_stage(st),
        ));
        lemma_pt_list_round_trip(stages.drop_first());
        assert(seq![stages[0]] + stages.drop_first() =~= stages);
    }
}

/// Unambiguity of this family's signature table, for the variants that
/// require fields at all: of two distinct such variants, neither's required
/// field set is contained in the other's. Two families of exceptions
/// remain: the field-less variants all share the empty required set, and
/// `Punctuation`'s one required field is itself required by `Split`; both
/// are resolved by the fixed priority order instead, and are excluded here.
pub proof fn lemma_pt_signature_unambiguity(d1: PreTokenizerDescriptor, d2: PreTokenizerDescriptor)
    requires
        d1 != d2,
        !(d1 is Sequence),
        !(d2 is Sequence),
        pt_sig_required(d1).len() > 0,
        pt_sig_required(d2).len() > 0,
        !(d1 is Punctuation && d2 is Split),
    ensures
        !crate::normalizers::keyseq_subset(pt_sig_required(d1), pt_sig_required(d2)),
{
    let r1 = pt_sig_required(d1);
    let r2 = pt_sig_required(d2);
    let probe = match d1 {
        PreTokenizerDescriptor::ByteLevel => FieldKey::UseRegex,
        PreTokenizerDescriptor::CharDelimiterSplit => FieldKey::Delimiter,
        PreTokenizerDescriptor::Digits => FieldKey::IndividualDigits,
        PreTokenizerDescriptor::Metaspace => FieldKey::Replacement,
        PreTokenizerDescriptor::Punctuation => FieldKey::Behavior,
        PreTokenizerDescriptor::Split => FieldKey::Pattern,
        _ => FieldKey::Unknown,
    };
    assert(r1.contains(probe)) by {
        match d1 {
            PreTokenizerDescriptor::ByteLevel => {
                assert(r1[1] == FieldKey::UseRegex);
            },
            PreTokenizerDescriptor::CharDelimiterSplit => {
                assert(r1[0] == FieldKey::Delimiter);
            },
            PreTokenizerDescriptor::Digits => {
                assert(r1[0] == FieldKey::IndividualDigits);
            },
            PreTokenizerDescriptor::Metaspace => {
                assert(r1[0] == FieldKey::Replacement);
            },
            PreTokenizerDescriptor::Punctuation => {
                assert(r1[0] == FieldKey::Behavior);
            },
            PreTokenizerDescriptor::Split => {
                assert(r1[0] == FieldKey::Pattern);
            },
            _ => {
                assert(false);
            },
        }
    }
    match d2 {
        PreTokenizerDescriptor::ByteLevel => {
            crate::codec::lemma_not_in2(FieldKey::AddPrefixSpace, FieldKey::UseRegex, probe);
        },
        PreTokenizerDescriptor::CharDelimiterSplit => {
            crate::codec::lemma_not_in1(FieldKey::Delimiter, probe);
        },
        PreTokenizerDescriptor::Digits => {
            crate::codec::lemma_not_in1(FieldKey::IndividualDigits, probe);
        },
        PreTokenizerDescriptor::Metaspace => {
            crate::codec::lemma_not_in2(FieldKey::Replacement, FieldKey::AddPrefixSpace, probe);
        },
        PreTokenizerDescriptor::Punctuation => {
            crate::codec::lemma_not_in1(FieldKey::Behavior, probe);
        },
        PreTokenizerDescriptor::Split => {
            crate::codec::lemma_not_in3(
                FieldKey::Pattern,
                FieldKey::Behavior,
                FieldKey::Invert,
                probe,
            );
        },
        _ => {
            assert(false);
        },
    }
    assert(!r2.contains(probe));
}


impl RbPreTokenizer {
    /// Read `add_prefix_space` of the ByteLevel stage this single-stage
    /// pipeline holds.
    pub fn byte_level_add_prefix_space(&self, arena: &PreTokenizerArena) -> (r: bool)
        requires
            self.pipeline.valid(arena@.len() as int),
            self.pipeline matches PreTokenizerPipeline::Single(c) && arena@[c@] is ByteLevel,
        ensures
            self.pipeline matches PreTokenizerPipeline::Single(c) ==> r == arena@[c@]->ByteLevel_add_prefix_space,
    {
        match &self.pipeline {
            PreTokenizerPipeline::Single(c) => {
                proof {
                    assert(self.pipeline.leaves()[0] == c@);
                }
                match arena.read(*c) {
                    PreTokenizerStage::ByteLevel { add_prefix_space, .. } => *add_prefix_space,
                    _ => {
                        proof {
                            assert(false);
                        }
                        false
                    },
                }
            },
            PreTokenizerPipeline::Sequence(_) => {
                proof {
                    assert(false);
                }
                false
            },
        }
    }

    /// Set `add_prefix_space` of the ByteLevel stage this single-stage
    /// pipeline holds; any other pipeline is left unchanged. The write goes
    /// through the shared cell, so it is visible to every pipeline
    /// referencing it.
    pub fn byte_level_set_add_prefix_space(&self, arena: &mut PreTokenizerArena, add_prefix_space: bool)
        requires
            self.pipeline.valid(old(arena)@.len() as int),
        ensures
            final(arena)@.len() == old(arena)@.len(),
            self.pipeline matches PreTokenizerPipeline::Single(c) ==> old(arena)@[c@] matches PreTokStageSpec::ByteLevel { use_regex, .. } ==> final(arena)@ == old(arena)@.update(c@, PreTokStageSpec::ByteLevel { add_prefix_space, use_regex }),
            !(self.pipeline matches PreTokenizerPipeline::Single(c) && old(arena)@[c@] is ByteLevel) ==> final(arena)@ == old(arena)@,
    {
        match &self.pipeline {
            PreTokenizerPipeline::Single(c) => {
                proof {
                    assert(self.pipeline.leaves()[0] == c@);
                }
                let repl = match arena.read(*c) {
                    PreTokenizerStage::ByteLevel { use_regex, .. } => Some(
                        PreTokenizerStage::ByteLevel { add_prefix_space, use_regex: *use_regex },
                    ),
                    _ => None,
                };
                match repl {
                    Some(st) => arena.write(*c, st),
                    None => {},
                }
            },
            PreTokenizerPipeline::Sequence(_) => {},
        }
    }

    /// Read `use_regex` of the ByteLevel stage this single-stage pipeline
    /// holds.
    pub fn byte_level_use_regex(&self, arena: &PreTokenizerArena) -> (r: bool)
        requires
            self.pipeline.valid(arena@.len() as int),
            self.pipeline matches PreTokenizerPipeline::Single(c) && arena@[c@] is ByteLevel,
        ensures
            self.pipeline matches PreTokenizerPipeline::Single(c) ==> r == arena@[c@]->ByteLevel_use_regex,
    {
        match &self.pipeline {
            PreTokenizerPipeline::Single(c) => {
                proof {
                    assert(self.pipeline.leaves()[0] == c@);
                }
                match arena.read(*c) {
                    PreTokenizerStage::ByteLevel { use_regex, .. } => *use_regex,
                    _ => {
                        proof {
                            assert(false);
                        }
                        false
                    },
                }
            },
            PreTokenizerPipeline::Sequence(_) => {
                proof {
                    assert(false);
                }
                false
            },
        }
    }

    /// Set `use_regex` of the ByteLevel stage this single-stage pipeline
    /// holds; any other pipeline is left unchanged.
    pub fn byte_level_set_use_regex(&self, arena: &mut PreTokenizerArena, use_regex: bool)
        requires
            self.pipeline.valid(old(arena)@.len() as int),
        ensures
            final(arena)@.len() == old(arena)@.len(),
            self.pipeline matches PreTokenizerPipeline::Single(c) ==> old(arena)@[c@] matches PreTokStageSpec::ByteLevel { add_prefix_space, .. } ==> final(arena)@ == old(arena)@.update(c@, PreTokStageSpec::ByteLevel { add_prefix_space, use_regex }),
            !(self.pipeline matches PreTokenizerPipeline::Single(c) && old(arena)@[c@] is ByteLevel) ==> final(arena)@ == old(arena)@,
    {
        match &self.pipeline {
            PreTokenizerPipeline::Single(c) => {
                proof {
                    assert(self.pipeline.leaves()[0] == c@);
                }
                let repl = match arena.read(*c) {
                    PreTokenizerStage::ByteLevel { add_prefix_space, .. } => Some(
                        PreTokenizerStage::ByteLevel {
                            add_prefix_space: *add_prefix_space,
                            use_regex,
                        },
                    ),
                    _ => None,
                };
                match repl {
                    Some(st) => arena.write(*c, st),
                    None => {},
                }
            },
            PreTokenizerPipeline::Sequence(_) => {},
        }
    }

    /// Read the delimiter of the CharDelimiterSplit stage this single-stage
    /// pipeline holds, as a one-character string.
    pub fn char_delimiter_split_delimiter(&self, arena: &PreTokenizerArena) -> (r: String)
        requires
            self.pipeline.valid(arena@.len() as int),
            self.pipeline matches PreTokenizerPipeline::Single(c) && arena@[c@] is CharDelimiterSplit,
        ensures
            self.pipeline matches PreTokenizerPipeline::Single(c) ==> r@ == seq![arena@[c@]->CharDelimiterSplit_delimiter],
    {
        match &self.pipeline {
            PreTokenizerPipeline::Single(c) => {
                proof {
                    assert(self.pipeline.leaves()[0] == c@);
                }
                match arena.read(*c) {
                    PreTokenizerStage::CharDelimiterSplit { delimiter } => backend::char_to_string(
                        *delimiter,
                    ),
                    _ => {
                        proof {
                            assert(false);
                        }
                        String::new()
                    },
                }
            },
            PreTokenizerPipeline::Sequence(_) => {
                proof {
                    assert(false);
                }
                String::new()
            },
        }
    }

    /// Set the delimiter of the CharDelimiterSplit stage this single-stage
    /// pipeline holds; any other pipeline is left unchanged.
    pub fn char_delimiter_split_set_delimiter(&self, arena: &mut PreTokenizerArena, delimiter: char)
        requires
            self.pipeline.valid(old(arena)@.len() as int),
        ensures
            final(arena)@.len() == old(arena)@.len(),
            self.pipeline matches PreTokenizerPipeline::Single(c) ==> old(arena)@[c@] matches PreTokStageSpec::CharDelimiterSplit { .. } ==> final(arena)@ == old(arena)@.update(c@, PreTokStageSpec::CharDelimiterSplit { delimiter }),
            !(self.pipeline matches PreTokenizerPipeline::Single(c) && old(arena)@[c@] is CharDelimiterSplit) ==> final(arena)@ == old(arena)@,
    {
        match &self.pipeline {
            PreTokenizerPipeline::Single(c) => {
                proof {
                    assert(self.pipeline.leaves()[0] == c@);
                }
                let matched = match arena.read(*c) {
                    PreTokenizerStage::CharDelimiterSplit { .. } => true,
                    _ => false,
                };
                if matched {
                    arena.write(*c, PreTokenizerStage::CharDelimiterSplit { delimiter });
                }
            },
            PreTokenizerPipeline::Sequence(_) => {},
        }
    }

    /// Read `individual_digits` of the Digits stage this single-stage
    /// pipeline holds.
    pub fn digits_individual_digits(&self, arena: &PreTokenizerArena) -> (r: bool)
        requires
            self.pipeline.valid(arena@.len() as int),
            self.pipeline matches PreTokenizerPipeline::Single(c) && arena@[c@] is Digits,
        ensures
            self.pipeline matches PreTokenizerPipeline::Single(c) ==> r == arena@[c@]->Digits_individual_digits,
    {
        match &self.pipeline {
            PreTokenizerPipeline::Single(c) => {
                proof {
                    assert(self.pipeline.leaves()[0] == c@);
                }
                match arena.read(*c) {
                    PreTokenizerStage::Digits { individual_digits } => *individual_digits,
                    _ => {
                        proof {
                            assert(false);
                        }
                        false
                    },
                }
            },
            PreTokenizerPipeline::Sequence(_) => {
                proof {
                    assert(false);
                }
                false
            },
        }
    }

    /// Set `individual_digits` of the Digits stage this single-stage
    /// pipeline holds; any other pipeline is left unchanged.
    pub fn digits_set_individual_digits(&self, arena: &mut PreTokenizerArena, individual_digits: bool)
        requires
            self.pipeline.valid(old(arena)@.len() as int),
        ensures
            final(arena)@.len() == old(arena)@.len(),
            self.pipeline matches PreTokenizerPipeline::Single(c) ==> old(arena)@[c@] matches PreTokStageSpec::Digits { .. } ==> final(arena)@ == old(arena)@.update(c@, PreTokStageSpec::Digits { individual_digits }),
            !(self.pipeline matches PreTokenizerPipeline::Single(c) && old(arena)@[c@] is Digits) ==> final(arena)@ == old(arena)@,
    {
        match &self.pipeline {
            PreTokenizerPipeline::Single(c) => {
                proof {
                    assert(self.pipeline.leaves()[0] == c@);
                }
                let matched = match arena.read(*c) {
                    PreTokenizerStage::Digits { .. } => true,
                    _ => false,
                };
                if matched {
                    arena.write(*c, PreTokenizerStage::Digits { individual_digits });
                }
            },
            PreTokenizerPipeline::Sequence(_) => {},
        }
    }

    /// Read `add_prefix_space` of the Metaspace stage this single-stage
    /// pipeline holds.
    pub fn metaspace_add_prefix_space(&self, arena: &PreTokenizerArena) -> (r: bool)
        requires
            self.pipeline.valid(arena@.len() as int),
            self.pipeline matches PreTokenizerPipeline::Single(c) && arena@[c@] is Metaspace,
        ensures
            self.pipeline matches PreTokenizerPipeline::Single(c) ==> r == arena@[c@]->Metaspace_add_prefix_space,
    {
        match &self.pipeline {
            PreTokenizerPipeline::Single(c) => {
                proof {
                    assert(self.pipeline.leaves()[0] == c@);
                }
                match arena.read(*c) {
                    PreTokenizerStage::Metaspace { add_prefix_space, .. } => *add_prefix_space,
                    _ => {
                        proof {
                            assert(false);
                        }
                        false
                    },
                }
            },
            PreTokenizerPipeline::Sequence(_) => {
                proof {
                    assert(false);
                }
                false
            },
        }
    }

    /// Set `add_prefix_space` of the Metaspace stage this single-stage
    /// pipeline holds; any other pipeline is left unchanged.
    pub fn metaspace_set_add_prefix_space(&self, arena: &mut PreTokenizerArena, add_prefix_space: bool)
        requires
            self.pipeline.valid(old(arena)@.len() as int),
        ensures
            final(arena)@.len() == old(arena)@.len(),
            self.pipeline matches PreTokenizerPipeline::Single(c) ==> old(arena)@[c@] matches PreTokStageSpec::Metaspace { replacement, .. } ==> final(arena)@ == old(arena)@.update(c@, PreTokStageSpec::Metaspace { replacement, add_prefix_space }),
            !(self.pipeline matches PreTokenizerPipeline::Single(c) && old(arena)@[c@] is Metaspace) ==> final(arena)@ == old(arena)@,
    {
        match &self.pipeline {
            PreTokenizerPipeline::Single(c) => {
                proof {
                    assert(self.pipeline.leaves()[0] == c@);
                }
                let repl = match arena.read(*c) {
                    PreTokenizerStage::Metaspace { replacement, .. } => Some(
                        PreTokenizerStage::Metaspace {
                            replacement: *replacement,
                            add_prefix_space,
                        },
                    ),
                    _ => None,
                };
                match repl {
                    Some(st) => arena.write(*c, st),
                    None => {},
                }
            },
            PreTokenizerPipeline::Sequence(_) => {},
        }
    }

    /// Read the marker character of the Metaspace stage this single-stage
    /// pipeline holds, as a one-character string.
    pub fn metaspace_replacement(&self, arena: &PreTokenizerArena) -> (r: String)
        requires
            self.pipeline.valid(arena@.len() as int),
            self.pipeline matches PreTokenizerPipeline::Single(c) && arena@[c@] is Metaspace,
        ensures
            self.pipeline matches PreTokenizerPipeline::Single(c) ==> r@ == seq![arena@[c@]->Metaspace_replacement],
    {
        match &self.pipeline {
            PreTokenizerPipeline::Single(c) => {
                proof {
                    assert(self.pipeline.leaves()[0] == c@);
                }
                match arena.read(*c) {
                    PreTokenizerStage::Metaspace { replacement, .. } => backend::char_to_string(
                        *replacement,
                    ),
                    _ => {
                        proof {
                            assert(false);
                        }
                        String::new()
                    },
                }
            },
            PreTokenizerPipeline::Sequence(_) => {
                proof {
                    assert(false);
                }
                String::new()
            },
        }
    }

    /// Set the marker character of the Metaspace stage this single-stage
    /// pipeline holds; any other pipeline is left unchanged.
    pub fn metaspace_set_replacement(&self, arena: &mut PreTokenizerArena, replacement: char)
        requires
            self.pipeline.valid(old(arena)@.len() as int),
        ensures
            final(arena)@.len() == old(arena)@.len(),
            self.pipeline matches PreTokenizerPipeline::Single(c) ==> old(arena)@[c@] matches PreTokStageSpec::Metaspace { add_prefix_space, .. } ==> final(arena)@ == old(arena)@.update(c@, PreTokStageSpec::Metaspace { replacement, add_prefix_space }),
            !(self.pipeline matches PreTokenizerPipeline::Single(c) && old(arena)@[c@] is Metaspace) ==> final(arena)@ == old(arena)@,
    {
        match &self.pipeline {
            PreTokenizerPipeline::Single(c) => {
                proof {
                    assert(self.pipeline.leaves()[0] == c@);
                }
                let repl = match arena.read(*c) {
                    PreTokenizerStage::Metaspace { add_prefix_space, .. } => Some(
                        PreTokenizerStage::Metaspace {
                            replacement,
                            add_prefix_space: *add_prefix_space,
                        },
                    ),
                    _ => None,
                };
                match repl {
                    Some(st) => arena.write(*c, st),
                    None => {},
                }
            },
            PreTokenizerPipeline::Sequence(_) => {},
        }
    }
}

} // verus!
