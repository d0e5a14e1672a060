//! The normalization pipeline family.
//!
//! A normalizer stage rewrites a string; a pipeline is either a single shared
//! stage cell or a flattened sequence of cells executed left to right. The
//! sequence invariant — a sequence holds only leaf cells, never another
//! sequence — is enforced by construction: `NormalizerPipeline::Sequence`
//! carries cell handles, not pipelines.

use vstd::prelude::*;

use crate::arena::{StageArena, StageCell};
use crate::backend;
use crate::codec::{
    fid, lookup_field, obj_has, obj_lookup, obj_view, obj_within, sig_has_all, FieldKey, Value,
    ValueSpec,
};
use crate::errors::{ConstructionError, DecodeError, ExecutionError};

verus! {

broadcast use {
    vstd::seq::axiom_seq_index_decreases,
    vstd::std_specs::vec::axiom_vec_index_decreases,
};

/// One concrete normalizer stage of the closed catalog. Leaf behaviour is
/// delegated to the text-processing backend; the fields here are the stage's
/// whole configuration.
pub enum NormalizerStage {
    /// Bert-style cleaning: control-character removal, whitespace folding,
    /// optional surrounding of CJK characters, optional accent stripping and
    /// lowercasing.
    BertNormalizer {
        /// Remove control characters and fold whitespace to a plain space.
        clean_text: bool,
        /// Surround CJK characters with spaces.
        handle_chinese_chars: bool,
        /// Strip accents; when absent, follows `lowercase`.
        strip_accents: Option<bool>,
        /// Lowercase the text.
        lowercase: bool,
    },
    /// Lowercase every character.
    Lowercase,
    /// Unicode normalization form C.
    NFC,
    /// Unicode normalization form D.
    NFD,
    /// Unicode normalization form KC.
    NFKC,
    /// Unicode normalization form KD.
    NFKD,
    /// Nmt cleaning: drops some control characters and folds exotic
    /// whitespace code points to a plain space.
    Nmt,
    /// Replace every occurrence of a literal pattern with `content`.
    Replace {
        /// The literal pattern to search for.
        pattern: String,
        /// What each occurrence is replaced with.
        content: String,
    },
    /// Prepend a string to every non-empty input.
    Prepend {
        /// The string to prepend.
        prepend: String,
    },
    /// Trim whitespace on the chosen ends.
    Strip {
        /// Trim leading whitespace.
        strip_left: bool,
        /// Trim trailing whitespace.
        strip_right: bool,
    },
    /// Remove combining marks.
    StripAccents,
}

/// The mathematical image of a `NormalizerStage`.
pub enum NormStageSpec {
    /// Image of `NormalizerStage::BertNormalizer`.
    BertNormalizer {
        /// See the stage field of the same name.
        clean_text: bool,
        /// See the stage field of the same name.
        handle_chinese_chars: bool,
        /// See the stage field of the same name.
        strip_accents: Option<bool>,
        /// See the stage field of the same name.
        lowercase: bool,
    },
    /// Image of `NormalizerStage::Lowercase`.
    Lowercase,
    /// Image of `NormalizerStage::NFC`.
    NFC,
    /// Image of `NormalizerStage::NFD`.
    NFD,
    /// Image of `NormalizerStage::NFKC`.
    NFKC,
    /// Image of `NormalizerStage::NFKD`.
    NFKD,
    /// Image of `NormalizerStage::Nmt`.
    Nmt,
    /// Image of `NormalizerStage::Replace`.
    Replace {
        /// See the stage field of the same name.
        pattern: Seq<char>,
        /// See the stage field of the same name.
        content: Seq<char>,
    },
    /// Image of `NormalizerStage::Prepend`.
    Prepend {
        /// See the stage field of the same name.
        prepend: Seq<char>,
    },
    /// Image of `NormalizerStage::Strip`.
    Strip {
        /// See the stage field of the same name.
        strip_left: bool,
        /// See the stage field of the same name.
        strip_right: bool,
    },
    /// Image of `NormalizerStage::StripAccents`.
    StripAccents,
}

impl View for NormalizerStage {
    type V = NormStageSpec;

    open spec fn view(&self) -> NormStageSpec {
        match self {
            NormalizerStage::BertNormalizer {
                clean_text,
                handle_chinese_chars,
                strip_accents,
                lowercase,
            } => NormStageSpec::BertNormalizer {
                clean_text: *clean_text,
                handle_chinese_chars: *handle_chinese_chars,
                strip_accents: *strip_accents,
                lowercase: *lowercase,
            },
            NormalizerStage::Lowercase => NormStageSpec::Lowercase,
            NormalizerStage::NFC => NormStageSpec::NFC,
            NormalizerStage::NFD => NormStageSpec::NFD,
            NormalizerStage::NFKC => NormStageSpec::NFKC,
            NormalizerStage::NFKD => NormStageSpec::NFKD,
            NormalizerStage::Nmt => NormStageSpec::Nmt,
            NormalizerStage::Replace { pattern, content } => NormStageSpec::Replace {
                pattern: pattern@,
                content: content@,
            },
            NormalizerStage::Prepend { prepend } => NormStageSpec::Prepend { prepend: prepend@ },
            NormalizerStage::Strip { strip_left, strip_right } => NormStageSpec::Strip {
                strip_left: *strip_left,
                strip_right: *strip_right,
            },
            NormalizerStage::StripAccents => NormStageSpec::StripAccents,
        }
    }
}

/// The arena holding this family's stage cells.
pub type NormalizerArena = StageArena<NormalizerStage>;

/// A normalization pipeline: one shared stage cell, or a flattened, ordered
/// sequence of cells. A sequence can only hold leaf cells, so nesting is
/// ruled out by the type itself.
#[derive(Debug)]
pub enum NormalizerPipeline {
    /// Exactly one stage.
    Single(StageCell),
    /// Zero or more stages executed left to right.
    Sequence(Vec<StageCell>),
}

impl NormalizerPipeline {
    /// The ordered cell handles this pipeline executes.
    pub open spec fn leaves(self) -> Seq<int> {
        match self {
            NormalizerPipeline::Single(c) => seq![c@],
            NormalizerPipeline::Sequence(cells) => Seq::new(
                cells@.len(),
                |i: int| cells@[i]@,
            ),
        }
    }

    /// Every leaf handle points into an arena of the given length.
    pub open spec fn valid(self, arena_len: int) -> bool {
        forall|i: int|
            0 <= i < self.leaves().len() ==> 0 <= #[trigger] self.leaves()[i] < arena_len
    }

    /// The ordered stage images this pipeline executes, read off an arena.
    pub open spec fn stages(self, arena: Seq<NormStageSpec>) -> Seq<NormStageSpec> {
        self.leaves().map(|i: int, h: int| arena[h])
    }
}

/// A runtime normalizer value: a pipeline over shared stage cells.
#[derive(Debug)]
pub struct RbNormalizer {
    /// The pipeline this value executes.
    pub pipeline: NormalizerPipeline,
}

/// The identifying label of a runtime pipeline value's concrete kind, handed
/// to the boundary layer so it can wrap the value in the right outward type.
#[derive(Clone, Copy, Debug, PartialEq, Eq, Structural)]
pub enum NormalizerDescriptor {
    /// A sequence pipeline.
    Sequence,
    /// A single Bert-style cleaning stage.
    BertNormalizer,
    /// A single lowercasing stage.
    Lowercase,
    /// A single NFC stage.
    NFC,
    /// A single NFD stage.
    NFD,
    /// A single NFKC stage.
    NFKC,
    /// A single NFKD stage.
    NFKD,
    /// A single Nmt cleaning stage.
    Nmt,
    /// A single literal-replacement stage.
    Replace,
    /// A single prepending stage.
    Prepend,
    /// A single whitespace-trimming stage.
    Strip,
    /// A single accent-stripping stage.
    StripAccents,
}

/// The descriptor of one concrete stage.
pub open spec fn stage_descriptor(st: NormStageSpec) -> NormalizerDescriptor {
    match st {
        NormStageSpec::BertNormalizer { .. } => NormalizerDescriptor::BertNormalizer,
        NormStageSpec::Lowercase => NormalizerDescriptor::Lowercase,
        NormStageSpec::NFC => NormalizerDescriptor::NFC,
        NormStageSpec::NFD => NormalizerDescriptor::NFD,
        NormStageSpec::NFKC => NormalizerDescriptor::NFKC,
        NormStageSpec::NFKD => NormalizerDescriptor::NFKD,
        NormStageSpec::Nmt => NormalizerDescriptor::Nmt,
        NormStageSpec::Replace { .. } => NormalizerDescriptor::Replace,
        NormStageSpec::Prepend { .. } => NormalizerDescriptor::Prepend,
        NormStageSpec::Strip { .. } => NormalizerDescriptor::Strip,
        NormStageSpec::StripAccents => NormalizerDescriptor::StripAccents,
    }
}

impl RbNormalizer {
    /// The descriptor of this runtime value: the sequence descriptor for a
    /// sequence, and the single stage's own descriptor otherwise.
    pub open spec fn spec_describe(self, arena: Seq<NormStageSpec>) -> NormalizerDescriptor {
        match self.pipeline {
            NormalizerPipeline::Sequence(_) => NormalizerDescriptor::Sequence,
            NormalizerPipeline::Single(c) => stage_descriptor(arena[c@]),
        }
    }

    /// Resolve the concrete kind of this runtime value.
    ///
    /// This is a total function over the closed catalog: the match below is
    /// exhaustive, so a stage kind without a descriptor arm cannot compile.
    pub fn describe(&self, arena: &NormalizerArena) -> (d: NormalizerDescriptor)
        requires
            self.pipeline.valid(arena@.len() as int),
        ensures
            d == self.spec_describe(arena@),
    {
        match &self.pipeline {
            NormalizerPipeline::Sequence(_) => NormalizerDescriptor::Sequence,
            NormalizerPipeline::Single(c) => {
                proof {
                    assert(self.pipeline.leaves()[0] == c@);
                }
                match arena.read(*c) {
                    NormalizerStage::BertNormalizer { .. } => NormalizerDescriptor::BertNormalizer,
                    NormalizerStage::Lowercase => NormalizerDescriptor::Lowercase,
                    NormalizerStage::NFC => NormalizerDescriptor::NFC,
                    NormalizerStage::NFD => NormalizerDescriptor::NFD,
                    NormalizerStage::NFKC => NormalizerDescriptor::NFKC,
                    NormalizerStage::NFKD => NormalizerDescriptor::NFKD,
                    NormalizerStage::Nmt => NormalizerDescriptor::Nmt,
                    NormalizerStage::Replace { .. } => NormalizerDescriptor::Replace,
                    NormalizerStage::Prepend { .. } => NormalizerDescriptor::Prepend,
                    NormalizerStage::Strip { .. } => NormalizerDescriptor::Strip,
                    NormalizerStage::StripAccents => NormalizerDescriptor::StripAccents,
                }
            },
        }
    }
}

/// The concatenated leaves of a list of pipelines, in order.
pub open spec fn leaves_of_list(ps: Seq<NormalizerPipeline>) -> Seq<int>
    decreases ps.len(),
{
    if ps.len() == 0 {
        Seq::empty()
    } else {
        ps.first().leaves() + leaves_of_list(ps.drop_first())
    }
}

/// Concatenating pipeline lists concatenates their leaves.
pub proof fn lemma_leaves_of_list_concat(a: Seq<NormalizerPipeline>, b: Seq<NormalizerPipeline>)
    ensures
        leaves_of_list(a + b) == leaves_of_list(a) + leaves_of_list(b),
    decreases a.len(),
{
    if a.len() == 0 {
        assert(a + b =~= b);
        assert(leaves_of_list(a) + leaves_of_list(b) =~= leaves_of_list(b));
    } else {
        lemma_leaves_of_list_concat(a.drop_first(), b);
        assert((a + b).drop_first() =~= a.drop_first() + b);
        assert(leaves_of_list(a) + leaves_of_list(b) =~= a.first().leaves() + (leaves_of_list(
            a.drop_first(),
        ) + leaves_of_list(b)));
    }
}

/// A one-entry list contributes exactly that entry's leaves.
pub proof fn lemma_leaves_of_list_singleton(p: NormalizerPipeline)
    ensures
        leaves_of_list(seq![p]) == p.leaves(),
{
    assert(seq![p].drop_first() =~= Seq::<NormalizerPipeline>::empty());
    assert(leaves_of_list(Seq::<NormalizerPipeline>::empty()) =~= Seq::<int>::empty());
    assert(leaves_of_list(seq![p]) =~= p.leaves());
}

/// Flattening law: composing a list in which one entry is itself the
/// composition of an inner list yields the same ordered leaf-cell list as
/// composing the inner list's entries in place. In particular, for pipelines
/// `a`, `b`, `c`, `d`, composing `[a, compose([b, c]), d]` and composing
/// `[a, b, c, d]` execute the same cells in the same order.
pub proof fn lemma_compose_flattens(
    before: Seq<NormalizerPipeline>,
    mid: NormalizerPipeline,
    inner: Seq<NormalizerPipeline>,
    after: Seq<NormalizerPipeline>,
)
    requires
        mid.leaves() == leaves_of_list(inner),
    ensures
        leaves_of_list(before + seq![mid] + after) == leaves_of_list(before + inner + after),
{
    lemma_leaves_of_list_concat(before + seq![mid], after);
    lemma_leaves_of_list_concat(before, seq![mid]);
    lemma_leaves_of_list_concat(before + inner, after);
    lemma_leaves_of_list_concat(before, inner);
    lemma_leaves_of_list_singleton(mid);
    assert(leaves_of_list(before + seq![mid] + after) =~= leaves_of_list(before + inner + after));
}

/// Aliasing law: when two pipelines both reference the cell `h`, writing a
/// new stage into `h` is visible through both pipelines afterwards.
pub proof fn lemma_shared_cell_mutation(
    arena: Seq<NormStageSpec>,
    st: NormStageSpec,
    h: int,
    p1: NormalizerPipeline,
    p2: NormalizerPipeline,
    i: int,
    j: int,
)
    requires
        0 <= h < arena.len(),
        p1.valid(arena.len() as int),
        p2.valid(arena.len() as int),
        0 <= i < p1.leaves().len(),
        0 <= j < p2.leaves().len(),
        p1.leaves()[i] == h,
        p2.leaves()[j] == h,
    ensures
        p1.stages(arena.update(h, st))[i] == st,
        p2.stages(arena.update(h, st))[j] == st,
{
}

/// Composes pipelines into one flattened sequence.
pub struct RbSequence {}

impl RbSequence {
    /// Build a sequence from the given pipelines, flattening one level: a
    /// single contributes its cell, a sequence contributes all of its cells
    /// in order. No stage data is copied — the new sequence shares the very
    /// same cells, so later mutation through any handle stays visible here.
    pub fn new(normalizers: &Vec<RbNormalizer>) -> (n: RbNormalizer)
        ensures
            n.pipeline is Sequence,
            n.pipeline.leaves() == leaves_of_list(
                normalizers@.map(|i: int, rb: RbNormalizer| rb.pipeline),
            ),
    {
        let ghost ps = normalizers@.map(|i: int, rb: RbNormalizer| rb.pipeline);
        let mut cells: Vec<StageCell> = Vec::new();
        let mut k: usize = 0;
        proof {
            assert(ps.take(0) =~= Seq::empty());
            assert(handles_view(cells@) =~= leaves_of_list(ps.take(0)));
        }
        while k < normalizers.len()
            invariant
                k <= normalizers.len(),
                ps == normalizers@.map(|i: int, rb: RbNormalizer| rb.pipeline),
                handles_view(cells@) == leaves_of_list(ps.take(k as int)),
            decreases normalizers.len() - k,
        {
            proof {
                lemma_leaves_of_list_take(ps, k as int);
            }
            match &normalizers[k].pipeline {
                NormalizerPipeline::Single(c) => {
                    proof {
                        lemma_handles_view_push(cells@, *c);
                        assert(ps[k as int].leaves() =~= seq![c@]);
                        assert(handles_view(cells@).push(c@) =~= leaves_of_list(
                            ps.take(k as int),
                        ) + ps[k as int].leaves());
                    }
                    cells.push(*c);
                },
                NormalizerPipeline::Sequence(inner) => {
                    let ghost lv = ps[k as int].leaves();
                    let mut m: usize = 0;
                    proof {
                        assert(lv.take(0) =~= Seq::empty());
                        assert(handles_view(cells@) =~= leaves_of_list(ps.take(k as int))
                            + lv.take(0));
                    }
                    while m < inner.len()
                        invariant
                            m <= inner.len(),
                            ps == normalizers@.map(|i: int, rb: RbNormalizer| rb.pipeline),
                            ps[k as int] == NormalizerPipeline::Sequence(*inner),
                            k < ps.len(),
                            lv == ps[k as int].leaves(),
                            handles_view(cells@) == leaves_of_list(ps.take(k as int)) + lv.take(
                                m as int,
                            ),
                        decreases inner.len() - m,
                    {
                        proof {
                            lemma_handles_view_push(cells@, inner@[m as int]);
                            assert(lv[m as int] == inner@[m as int]@);
                            assert(lv.take(m as int + 1) =~= lv.take(m as int).push(lv[m as int]));
                            assert((leaves_of_list(ps.take(k as int)) + lv.take(m as int)).push(
                                lv[m as int],
                            ) =~= leaves_of_list(ps.take(k as int)) + lv.take(m as int + 1));
                        }
                        cells.push(inner[m]);
                        m = m + 1;
                    }
                    proof {
                        assert(lv.take(inner@.len() as int) =~= lv);
                    }
                },
            }
            k = k + 1;
        }
        proof {
            assert(ps.take(normalizers@.len() as int) =~= ps);
        }
        let n = RbNormalizer { pipeline: NormalizerPipeline::Sequence(cells) };
        proof {
            assert(n.pipeline.leaves() =~= handles_view(cells@));
        }
        n
    }
}

/// What running one stage over a string yields, by the backend's contracts.
pub open spec fn norm_stage_result(st: NormStageSpec, s: Seq<char>) -> Seq<char> {
    match st {
        NormStageSpec::BertNormalizer {
            clean_text,
            handle_chinese_chars,
            strip_accents,
            lowercase,
        } => backend::bert_of(clean_text, handle_chinese_chars, strip_accents, lowercase, s),
        NormStageSpec::Lowercase => backend::lower_of(s),
        NormStageSpec::NFC => backend::nfc_of(s),
        NormStageSpec::NFD => backend::nfd_of(s),
        NormStageSpec::NFKC => backend::nfkc_of(s),
        NormStageSpec::NFKD => backend::nfkd_of(s),
        NormStageSpec::Nmt => backend::nmt_of(s),
        NormStageSpec::Replace { pattern, content } => backend::replace_of(pattern, content, s),
        NormStageSpec::Prepend { prepend } => backend::prepend_of(prepend, s),
        NormStageSpec::Strip { strip_left, strip_right } => backend::strip_of(
            strip_left,
            strip_right,
            s,
        ),
        NormStageSpec::StripAccents => backend::accents_stripped_of(s),
    }
}

/// What running the stages left to right over `s` yields, each stage
/// consuming the previous stage's output. The empty chain leaves `s`
/// unchanged.
pub open spec fn norm_chain(stages: Seq<NormStageSpec>, s: Seq<char>) -> Seq<char>
    decreases stages.len(),
{
    if stages.len() == 0 {
        s
    } else {
        norm_chain(stages.drop_first(), norm_stage_result(stages.first(), s))
    }
}

/// Whether the backend accepts this stage's configuration: only a `Replace`
/// stage carries a pattern the backend may refuse.
pub open spec fn norm_stage_ok(st: NormStageSpec) -> bool {
    st matches NormStageSpec::Replace { pattern, .. } ==> backend::replace_pattern_ok(pattern)
}

/// Whether the backend accepts every stage in the list.
pub open spec fn norm_stages_ok(stages: Seq<NormStageSpec>) -> bool {
    forall|i: int| 0 <= i < stages.len() ==> norm_stage_ok(#[trigger] stages[i])
}

/// Empty-sequence law: a chain with no stages leaves the input unchanged,
/// so executing an empty sequence returns its input as `normalize_str`'s
/// contract then promises.
pub proof fn lemma_norm_empty_chain(s: Seq<char>)
    ensures
        norm_chain(Seq::empty(), s) == s,
        norm_stages_ok(Seq::empty()),
{
}

/// Run one stage over `input` through the backend.
fn run_norm_stage(stage: &NormalizerStage, input: &str) -> (r: Result<String, ExecutionError>)
    ensures
        r matches Ok(out) ==> out@ == norm_stage_result(stage@, input@),
        r is Ok <==> norm_stage_ok(stage@),
{
    match stage {
        NormalizerStage::BertNormalizer {
            clean_text,
            handle_chinese_chars,
            strip_accents,
            lowercase,
        } => backend::run_bert(
            *clean_text,
            *handle_chinese_chars,
            *strip_accents,
            *lowercase,
            input,
        ),
        NormalizerStage::Lowercase => backend::run_lowercase(input),
        NormalizerStage::NFC => backend::run_nfc(input),
        NormalizerStage::NFD => backend::run_nfd(input),
        NormalizerStage::NFKC => backend::run_nfkc(input),
        NormalizerStage::NFKD => backend::run_nfkd(input),
        NormalizerStage::Nmt => backend::run_nmt(input),
        NormalizerStage::Replace { pattern, content } => backend::run_replace(
            pattern.as_str(),
            content.as_str(),
            input,
        ),
        NormalizerStage::Prepend { prepend } => backend::run_prepend(prepend.as_str(), input),
        NormalizerStage::Strip { strip_left, strip_right } => backend::run_strip(
            *strip_left,
            *strip_right,
            input,
        ),
        NormalizerStage::StripAccents => backend::run_strip_accents(input),
    }
}

impl RbNormalizer {
    /// Execute the pipeline over `sequence`: the single stage's operation
    /// for a single, the stages in list order for a sequence, each consuming
    /// the previous stage's output. The first failing stage stops the run
    /// and its error is handed back; earlier stages' work is not undone.
    /// A run fails exactly when it reaches a stage whose configuration the
    /// backend refuses, so an empty sequence returns its input unchanged.
    pub fn normalize_str(&self, arena: &NormalizerArena, sequence: String) -> (r: Result<
        String,
        ExecutionError,
    >)
        requires
            self.pipeline.valid(arena@.len() as int),
        ensures
            r matches Ok(out) ==> out@ == norm_chain(
                self.pipeline.stages(arena@),
                sequence@,
            ),
            r is Ok <==> norm_stages_ok(self.pipeline.stages(arena@)),
    {
        let ghost stages = self.pipeline.stages(arena@);
        match &self.pipeline {
            NormalizerPipeline::Single(c) => {
                proof {
                    assert(self.pipeline.leaves()[0] == c@);
                    assert(stages[0] == arena@[c@]);
                    assert(stages.drop_first() =~= Seq::<NormStageSpec>::empty());
                }
                let r = run_norm_stage(arena.read(*c), sequence.as_str());
                proof {
                    assert(stages.len() == 1);
                    assert(norm_chain(stages, sequence@) == norm_chain(
                        stages.drop_first(),
                        norm_stage_result(stages.first(), sequence@),
                    ));
                    assert(norm_chain(
                        stages.drop_first(),
                        norm_stage_result(stages.first(), sequence@),
                    ) == norm_stage_result(stages[0], sequence@));
                    assert(norm_stage_ok(stages[0]) ==> norm_stages_ok(stages));
                }
                r
            },
            NormalizerPipeline::Sequence(cells) => {
                let mut cur = sequence;
                let mut i: usize = 0;
                proof {
                    assert(stages.skip(0) =~= stages);
                }
                while i < cells.len()
                    invariant
                        i <= cells.len(),
                        self.pipeline == NormalizerPipeline::Sequence(*cells),
                        self.pipeline.valid(arena@.len() as int),
                        stages == self.pipeline.stages(arena@),
                        norm_chain(stages, sequence@) == norm_chain(
                            stages.skip(i as int),
                            cur@,
                        ),
                        forall|j: int| 0 <= j < i ==> norm_stage_ok(#[trigger] stages[j]),
                    decreases cells.len() - i,
                {
                    proof {
                        assert(self.pipeline.leaves()[i as int] == cells@[i as int]@);
                        assert(stages[i as int] == arena@[cells@[i as int]@]);
                    }
                    let st = arena.read(cells[i]);
                    match run_norm_stage(st, cur.as_str()) {
                        Ok(out) => {
                            proof {
                                assert(stages.skip(i as int).drop_first() =~= stages.skip(
                                    i as int + 1,
                                ));
                                assert(stages.skip(i as int).first() == stages[i as int]);
                            }
                            cur = out;
                        },
                        Err(e) => {
                            proof {
                                assert(!norm_stage_ok(stages[i as int]));
                            }
                            return Err(e);
                        },
                    }
                    i = i + 1;
                }
                proof {
                    assert(stages.skip(cells@.len() as int) =~= Seq::<NormStageSpec>::empty());
                }
                Ok(cur)
            },
        }
    }
}

/// Wrap one freshly configured stage into a new cell and a single-stage
/// pipeline around it.
fn single_stage(arena: &mut NormalizerArena, stage: NormalizerStage) -> (n: RbNormalizer)
    ensures
        final(arena)@ == old(arena)@.push(stage@),
        n.pipeline matches NormalizerPipeline::Single(c) && c@ == old(arena)@.len(),
        n.pipeline.valid(final(arena)@.len() as int),
        n.pipeline.stages(final(arena)@) == seq![stage@],
{
    let h = arena.insert(stage);
    let n = RbNormalizer { pipeline: NormalizerPipeline::Single(h) };
    proof {
        assert(n.pipeline.leaves() =~= seq![h@]);
        assert(n.pipeline.stages(arena@) =~= seq![stage@]);
    }
    n
}

/// Builds a Bert-style cleaning stage.
pub struct RbBertNormalizer {}

impl RbBertNormalizer {
    /// A new Bert cleaning stage with the given configuration.
    pub fn new(
        arena: &mut NormalizerArena,
        clean_text: bool,
        handle_chinese_chars: bool,
        strip_accents: Option<bool>,
        lowercase: bool,
    ) -> (n: RbNormalizer)
        ensures
            final(arena)@ == old(arena)@.push(
                NormStageSpec::BertNormalizer {
                    clean_text,
                    handle_chinese_chars,
                    strip_accents,
                    lowercase,
                },
            ),
            n.pipeline is Single,
            n.pipeline.valid(final(arena)@.len() as int),
            n.pipeline.stages(final(arena)@) == seq![
                NormStageSpec::BertNormalizer {
                    clean_text,
                    handle_chinese_chars,
                    strip_accents,
                    lowercase,
                },
            ],
    {
        single_stage(
            arena,
            NormalizerStage::BertNormalizer {
                clean_text,
                handle_chinese_chars,
                strip_accents,
                lowercase,
            },
        )
    }
}

/// Builds a lowercasing stage.
pub struct RbLowercase {}

impl RbLowercase {
    /// A new lowercasing stage.
    pub fn new(arena: &mut NormalizerArena) -> (n: RbNormalizer)
        ensures
            final(arena)@ == old(arena)@.push(NormStageSpec::Lowercase),
            n.pipeline is Single,
            n.pipeline.valid(final(arena)@.len() as int),
            n.pipeline.stages(final(arena)@) == seq![NormStageSpec::Lowercase],
    {
        single_stage(arena, NormalizerStage::Lowercase)
    }
}

/// Builds an NFC stage.
pub struct RbNFC {}

impl RbNFC {
    /// A new NFC stage.
    pub fn new(arena: &mut NormalizerArena) -> (n: RbNormalizer)
        ensures
            final(arena)@ == old(arena)@.push(NormStageSpec::NFC),
            n.pipeline is Single,
            n.pipeline.valid(final(arena)@.len() as int),
            n.pipeline.stages(final(arena)@) == seq![NormStageSpec::NFC],
    {
        single_stage(arena, NormalizerStage::NFC)
    }
}

/// Builds an NFD stage.
pub struct RbNFD {}

impl RbNFD {
    /// A new NFD stage.
    pub fn new(arena: &mut NormalizerArena) -> (n: RbNormalizer)
        ensures
            final(arena)@ == old(arena)@.push(NormStageSpec::NFD),
            n.pipeline is Single,
            n.pipeline.valid(final(arena)@.len() as int),
            n.pipeline.stages(final(arena)@) == seq![NormStageSpec::NFD],
    {
        single_stage(arena, NormalizerStage::NFD)
    }
}

/// Builds an NFKC stage.
pub struct RbNFKC {}

impl RbNFKC {
    /// A new NFKC stage.
    pub fn new(arena: &mut NormalizerArena) -> (n: RbNormalizer)
        ensures
            final(arena)@ == old(arena)@.push(NormStageSpec::NFKC),
            n.pipeline is Single,
            n.pipeline.valid(final(arena)@.len() as int),
            n.pipeline.stages(final(arena)@) == seq![NormStageSpec::NFKC],
    {
        single_stage(arena, NormalizerStage::NFKC)
    }
}

/// Builds an NFKD stage.
pub struct RbNFKD {}

impl RbNFKD {
    /// A new NFKD stage.
    pub fn new(arena: &mut NormalizerArena) -> (n: RbNormalizer)
        ensures
            final(arena)@ == old(arena)@.push(NormStageSpec::NFKD),
            n.pipeline is Single,
            n.pipeline.valid(final(arena)@.len() as int),
            n.pipeline.stages(final(arena)@) == seq![NormStageSpec::NFKD],
    {
        single_stage(arena, NormalizerStage::NFKD)
    }
}

/// Builds an Nmt cleaning stage.
pub struct RbNmt {}

impl RbNmt {
    /// A new Nmt cleaning stage.
    pub fn new(arena: &mut NormalizerArena) -> (n: RbNormalizer)
        ensures
            final(arena)@ == old(arena)@.push(NormStageSpec::Nmt),
            n.pipeline is Single,
            n.pipeline.valid(final(arena)@.len() as int),
            n.pipeline.stages(final(arena)@) == seq![NormStageSpec::Nmt],
    {
        single_stage(arena, NormalizerStage::Nmt)
    }
}

/// Builds a literal-replacement stage.
pub struct RbReplace {}

impl RbReplace {
    /// A new replacement stage. The pattern is validated eagerly: the stage
    /// is built exactly when the backend accepts the pattern, and a refused
    /// pattern leaves the arena unchanged.
    pub fn new(arena: &mut NormalizerArena, pattern: String, content: String) -> (r: Result<
        RbNormalizer,
        ConstructionError,
    >)
        ensures
            r is Ok <==> backend::replace_pattern_ok(pattern@),
            r matches Ok(n) ==> {
                &&& final(arena)@ == old(arena)@.push(
                    NormStageSpec::Replace { pattern: pattern@, content: content@ },
                )
                &&& n.pipeline is Single
                &&& n.pipeline.valid(final(arena)@.len() as int)
                &&& n.pipeline.stages(final(arena)@) == seq![
                    NormStageSpec::Replace { pattern: pattern@, content: content@ },
                ]
            },
            r is Err ==> final(arena)@ == old(arena)@,
    {
        if backend::replace_pattern_valid(pattern.as_str()) {
            Ok(single_stage(arena, NormalizerStage::Replace { pattern, content }))
        } else {
            Err(ConstructionError { message: "pattern refused by the backend".to_owned() })
        }
    }
}

/// Builds a prepending stage.
pub struct RbPrepend {}

impl RbPrepend {
    /// A new prepending stage.
    pub fn new(arena: &mut NormalizerArena, prepend: String) -> (n: RbNormalizer)
        ensures
            final(arena)@ == old(arena)@.push(NormStageSpec::Prepend { prepend: prepend@ }),
            n.pipeline is Single,
            n.pipeline.valid(final(arena)@.len() as int),
            n.pipeline.stages(final(arena)@) == seq![
                NormStageSpec::Prepend { prepend: prepend@ },
            ],
    {
        single_stage(arena, NormalizerStage::Prepend { prepend })
    }
}

/// Builds a whitespace-trimming stage.
pub struct RbStrip {}

impl RbStrip {
    /// A new trimming stage for the chosen ends.
    pub fn new(arena: &mut NormalizerArena, left: bool, right: bool) -> (n: RbNormalizer)
        ensures
            final(arena)@ == old(arena)@.push(
                NormStageSpec::Strip { strip_left: left, strip_right: right },
            ),
            n.pipeline is Single,
            n.pipeline.valid(final(arena)@.len() as int),
            n.pipeline.stages(final(arena)@) == seq![
                NormStageSpec::Strip { strip_left: left, strip_right: right },
            ],
    {
        single_stage(arena, NormalizerStage::Strip { strip_left: left, strip_right: right })
    }
}

/// Builds an accent-stripping stage.
pub struct RbStripAccents {}

impl RbStripAccents {
    /// A new accent-stripping stage.
    pub fn new(arena: &mut NormalizerArena) -> (n: RbNormalizer)
        ensures
            final(arena)@ == old(arena)@.push(NormStageSpec::StripAccents),
            n.pipeline is Single,
            n.pipeline.valid(final(arena)@.len() as int),
            n.pipeline.stages(final(arena)@) == seq![NormStageSpec::StripAccents],
    {
        single_stage(arena, NormalizerStage::StripAccents)
    }
}

// ---------------------------------------------------------------------------
// The structural codec of this family.
// ---------------------------------------------------------------------------

/// A decoded pipeline, shape and stages: decoding allocates fresh cells, so
/// only the stage values are determined by the input.
pub enum NormPipeSpec {
    /// A single stage.
    Single(NormStageSpec),
    /// A flattened sequence of stages.
    Sequence(Seq<NormStageSpec>),
}

/// The required field set of a variant's interchange signature.
pub open spec fn norm_sig_required(d: NormalizerDescriptor) -> Seq<FieldKey> {
    match d {
        NormalizerDescriptor::Sequence => seq![FieldKey::TypeTag, FieldKey::Normalizers],
        NormalizerDescriptor::BertNormalizer => seq![
            FieldKey::CleanText,
            FieldKey::HandleChineseChars,
            FieldKey::Lowercase,
        ],
        NormalizerDescriptor::Lowercase => Seq::empty(),
        NormalizerDescriptor::NFC => Seq::empty(),
        NormalizerDescriptor::NFD => Seq::empty(),
        NormalizerDescriptor::NFKC => Seq::empty(),
        NormalizerDescriptor::NFKD => Seq::empty(),
        NormalizerDescriptor::Nmt => Seq::empty(),
        NormalizerDescriptor::Replace => seq![FieldKey::Pattern, FieldKey::Content],
        NormalizerDescriptor::Prepend => seq![FieldKey::Prepend],
        NormalizerDescriptor::Strip => seq![FieldKey::StripLeft, FieldKey::StripRight],
        NormalizerDescriptor::StripAccents => Seq::empty(),
    }
}

/// The full allowed field set of a variant's interchange signature: the
/// required fields plus the optional ones.
pub open spec fn norm_sig_allowed(d: NormalizerDescriptor) -> Seq<FieldKey> {
    match d {
        NormalizerDescriptor::BertNormalizer => seq![
            FieldKey::CleanText,
            FieldKey::HandleChineseChars,
            FieldKey::Lowercase,
            FieldKey::StripAccents,
        ],
        _ => norm_sig_required(d),
    }
}

/// Whether an object's field shape matches a variant's signature: all
/// required fields present, no field outside the allowed set.
pub open spec fn norm_shape_matches(
    obj: Seq<(Seq<char>, ValueSpec)>,
    d: NormalizerDescriptor,
) -> bool {
    sig_has_all(obj, norm_sig_required(d)) && obj_within(obj, norm_sig_allowed(d))
}

/// Decode a Bert stage from an object matching its signature.
pub open spec fn spec_decode_bert(obj: Seq<(Seq<char>, ValueSpec)>) -> Result<
    NormStageSpec,
    DecodeError,
> {
    match (
        obj_lookup(obj, FieldKey::CleanText),
        obj_lookup(obj, FieldKey::HandleChineseChars),
        obj_lookup(obj, FieldKey::Lowercase),
    ) {
        (
            Some(ValueSpec::Bool(clean_text)),
            Some(ValueSpec::Bool(handle_chinese_chars)),
            Some(ValueSpec::Bool(lowercase)),
        ) => match obj_lookup(obj, FieldKey::StripAccents) {
            None => Ok(
                NormStageSpec::BertNormalizer {
                    clean_text,
                    handle_chinese_chars,
                    strip_accents: None,
                    lowercase,
                },
            ),
            Some(ValueSpec::Null) => Ok(
                NormStageSpec::BertNormalizer {
                    clean_text,
                    handle_chinese_chars,
                    strip_accents: None,
                    lowercase,
                },
            ),
            Some(ValueSpec::Bool(b)) => Ok(
                NormStageSpec::BertNormalizer {
                    clean_text,
                    handle_chinese_chars,
                    strip_accents: Some(b),
                    lowercase,
                },
            ),
            Some(_) => Err(DecodeError::BadField),
        },
        _ => Err(DecodeError::BadField),
    }
}

/// Decode a Strip stage from an object matching its signature.
pub open spec fn spec_decode_strip(obj: Seq<(Seq<char>, ValueSpec)>) -> Result<
    NormStageSpec,
    DecodeError,
> {
    match (obj_lookup(obj, FieldKey::StripLeft), obj_lookup(obj, FieldKey::StripRight)) {
        (Some(ValueSpec::Bool(strip_left)), Some(ValueSpec::Bool(strip_right))) => Ok(
            NormStageSpec::Strip { strip_left, strip_right },
        ),
        _ => Err(DecodeError::BadField),
    }
}

/// Decode a Replace stage from an object matching its signature; the decoded
/// pattern goes through the same eager validation as the constructor's.
pub open spec fn spec_decode_replace(obj: Seq<(Seq<char>, ValueSpec)>) -> Result<
    NormStageSpec,
    DecodeError,
> {
    match (obj_lookup(obj, FieldKey::Pattern), obj_lookup(obj, FieldKey::Content)) {
        (Some(ValueSpec::Str(pattern)), Some(ValueSpec::Str(content))) => if backend::replace_pattern_ok(
            pattern,
        ) {
            Ok(NormStageSpec::Replace { pattern, content })
        } else {
            Err(DecodeError::InvalidStage)
        },
        _ => Err(DecodeError::BadField),
    }
}

/// Decode a Prepend stage from an object matching its signature.
pub open spec fn spec_decode_prepend(obj: Seq<(Seq<char>, ValueSpec)>) -> Result<
    NormStageSpec,
    DecodeError,
> {
    match obj_lookup(obj, FieldKey::Prepend) {
        Some(ValueSpec::Str(prepend)) => Ok(NormStageSpec::Prepend { prepend }),
        _ => Err(DecodeError::BadField),
    }
}

/// Decode a single stage from a tag-less object: try each signature in the
/// fixed priority order; the first shape match decides the variant, and only
/// that variant's field values are then read.
pub open spec fn spec_decode_norm_stage(obj: Seq<(Seq<char>, ValueSpec)>) -> Result<
    NormStageSpec,
    DecodeError,
> {
    if norm_shape_matches(obj, NormalizerDescriptor::BertNormalizer) {
        spec_decode_bert(obj)
    } else if norm_shape_matches(obj, NormalizerDescriptor::Strip) {
        spec_decode_strip(obj)
    } else if norm_shape_matches(obj, NormalizerDescriptor::StripAccents) {
        Ok(NormStageSpec::StripAccents)
    } else if norm_shape_matches(obj, NormalizerDescriptor::NFC) {
        Ok(NormStageSpec::NFC)
    } else if norm_shape_matches(obj, NormalizerDescriptor::NFD) {
        Ok(NormStageSpec::NFD)
    } else if norm_shape_matches(obj, NormalizerDescriptor::NFKC) {
        Ok(NormStageSpec::NFKC)
    } else if norm_shape_matches(obj, NormalizerDescriptor::NFKD) {
        Ok(NormStageSpec::NFKD)
    } else if norm_shape_matches(obj, NormalizerDescriptor::Lowercase) {
        Ok(NormStageSpec::Lowercase)
    } else if norm_shape_matches(obj, NormalizerDescriptor::Nmt) {
        Ok(NormStageSpec::Nmt)
    } else if norm_shape_matches(obj, NormalizerDescriptor::Replace) {
        spec_decode_replace(obj)
    } else if norm_shape_matches(obj, NormalizerDescriptor::Prepend) {
        spec_decode_prepend(obj)
    } else {
        Err(DecodeError::NoMatch)
    }
}

/// Whether the object carries the sequence discriminator `"type": "Sequence"`.
pub open spec fn has_sequence_tag(obj: Seq<(Seq<char>, ValueSpec)>) -> bool {
    obj_lookup(obj, FieldKey::TypeTag) == Some(ValueSpec::Str("Sequence"@))
}

/// Decode a structural value into a pipeline. An object carrying the
/// sequence discriminator is decoded as a sequence, its elements by the same
/// rule and flattened; any other object is decoded as a single stage by
/// signature matching.
pub open spec fn spec_decode_norm(v: ValueSpec) -> Result<NormPipeSpec, DecodeError>
    decreases v,
    via spec_decode_norm_decreases
{
    match v {
        ValueSpec::Obj(obj) => {
            if has_sequence_tag(obj) {
                if !obj_within(obj, seq![FieldKey::TypeTag, FieldKey::Normalizers]) {
                    Err(DecodeError::BadSequence)
                } else {
                    match obj_lookup(obj, FieldKey::Normalizers) {
                        Some(ValueSpec::List(items)) => match spec_decode_norm_list(items) {
                            Ok(stages) => Ok(NormPipeSpec::Sequence(stages)),
                            Err(e) => Err(e),
                        },
                        _ => Err(DecodeError::BadSequence),
                    }
                }
            } else {
                match spec_decode_norm_stage(obj) {
                    Ok(st) => Ok(NormPipeSpec::Single(st)),
                    Err(e) => Err(e),
                }
            }
        },
        _ => Err(DecodeError::NotAnObject),
    }
}

/// A found field value is a component of the object.
proof fn lemma_obj_lookup_component(obj: Seq<(Seq<char>, ValueSpec)>, k: FieldKey)
    requires
        obj_lookup(obj, k) is Some,
    ensures
        exists|i: int|
            0 <= i < obj.len() && #[trigger] obj[i].1 == obj_lookup(obj, k).unwrap(),
    decreases obj.len(),
{
    if obj.len() > 0 && fid(obj.first().0) != k {
        lemma_obj_lookup_component(obj.drop_first(), k);
        let i = choose|i: int|
            0 <= i < obj.drop_first().len() && #[trigger] obj.drop_first()[i].1 == obj_lookup(
                obj.drop_first(),
                k,
            ).unwrap();
        assert(obj[i + 1].1 == obj_lookup(obj, k).unwrap());
    } else if obj.len() > 0 {
        assert(obj[0].1 == obj_lookup(obj, k).unwrap());
    }
}

#[via_fn]
proof fn spec_decode_norm_decreases(v: ValueSpec) {
    match v {
        ValueSpec::Obj(obj) => {
            match obj_lookup(obj, FieldKey::Normalizers) {
                Some(ValueSpec::List(items)) => {
                    lemma_obj_lookup_component(obj, FieldKey::Normalizers);
                    let i = choose|i: int|
                        0 <= i < obj.len() && #[trigger] obj[i].1 == obj_lookup(
                            obj,
                            FieldKey::Normalizers,
                        ).unwrap();
                    assert(decreases_to!(obj => obj[i]));
                    assert(decreases_to!(v => items));
                },
                _ => {},
            }
        },
        _ => {},
    }
}

/// Decode the elements of an encoded stage list and flatten them into one
/// stage sequence: a decoded single contributes its stage, a decoded
/// sequence all of its stages in order.
pub open spec fn spec_decode_norm_list(items: Seq<ValueSpec>) -> Result<
    Seq<NormStageSpec>,
    DecodeError,
>
    decreases items,
{
    if items.len() == 0 {
        Ok(Seq::empty())
    } else {
        match spec_decode_norm(items.first()) {
            Err(e) => Err(e),
            Ok(first) => match spec_decode_norm_list(items.drop_first()) {
                Err(e) => Err(e),
                Ok(rest) => match first {
                    NormPipeSpec::Single(st) => Ok(seq![st] + rest),
                    NormPipeSpec::Sequence(sts) => Ok(sts + rest),
                },
            },
        }
    }
}

/// The required keys of a variant's signature.
fn norm_sig_required_vec(d: NormalizerDescriptor) -> (v: Vec<FieldKey>)
    ensures
        v@ == norm_sig_required(d),
{
    match d {
        NormalizerDescriptor::Sequence => {
            let v = vec![FieldKey::TypeTag, FieldKey::Normalizers];
            proof {
                assert(v@ =~= norm_sig_required(d));
            }
            v
        },
        NormalizerDescriptor::BertNormalizer => {
            let v = vec![FieldKey::CleanText, FieldKey::HandleChineseChars, FieldKey::Lowercase];
            proof {
                assert(v@ =~= norm_sig_required(d));
            }
            v
        },
        NormalizerDescriptor::Replace => {
            let v = vec![FieldKey::Pattern, FieldKey::Content];
            proof {
                assert(v@ =~= norm_sig_required(d));
            }
            v
        },
        NormalizerDescriptor::Prepend => {
            let v = vec![FieldKey::Prepend];
            proof {
                assert(v@ =~= norm_sig_required(d));
            }
            v
        },
        NormalizerDescriptor::Strip => {
            let v = vec![FieldKey::StripLeft, FieldKey::StripRight];
            proof {
                assert(v@ =~= norm_sig_required(d));
            }
            v
        },
        _ => {
            let v = Vec::new();
            proof {
                assert(v@ =~= norm_sig_required(d));
            }
            v
        },
    }
}

/// The allowed keys of a variant's signature.
fn norm_sig_allowed_vec(d: NormalizerDescriptor) -> (v: Vec<FieldKey>)
    ensures
        v@ == norm_sig_allowed(d),
{
    match d {
        NormalizerDescriptor::BertNormalizer => {
            let v = vec![
                FieldKey::CleanText,
                FieldKey::HandleChineseChars,
                FieldKey::Lowercase,
                FieldKey::StripAccents,
            ];
            proof {
                assert(v@ =~= norm_sig_allowed(d));
            }
            v
        },
        _ => norm_sig_required_vec(d),
    }
}

/// Whether the object carries every one of the required keys.
fn has_all_fields(fields: &Vec<(String, Value)>, req: &Vec<FieldKey>) -> (r: bool)
    ensures
        r == sig_has_all(obj_view(fields), req@),
{
    let mut i: usize = 0;
    while i < req.len()
        invariant
            i <= req.len(),
            forall|j: int| 0 <= j < i ==> obj_has(obj_view(fields), #[trigger] req@[j]),
        decreases req.len() - i,
    {
        match lookup_field(fields, req[i]) {
            Some(_) => {},
            None => {
                proof {
                    assert(!obj_has(obj_view(fields), req@[i as int]));
                }
                return false;
            },
        }
        i = i + 1;
    }
    true
}

/// Whether the object's field shape matches a variant's signature.
fn norm_shape_matches_exec(fields: &Vec<(String, Value)>, d: NormalizerDescriptor) -> (r: bool)
    ensures
        r == norm_shape_matches(obj_view(fields), d),
{
    let req = norm_sig_required_vec(d);
    let allowed = norm_sig_allowed_vec(d);
    has_all_fields(fields, &req) && crate::codec::fields_within(fields, &allowed)
}

/// Decode a single stage from a tag-less object by signature matching.
fn decode_norm_stage(fields: &Vec<(String, Value)>) -> (r: Result<NormalizerStage, DecodeError>)
    ensures
        r matches Ok(st) ==> spec_decode_norm_stage(obj_view(fields)) == Ok::<
            NormStageSpec,
            DecodeError,
        >(st@) && norm_stage_ok(st@),
        r matches Err(e) ==> spec_decode_norm_stage(obj_view(fields)) == Err::<
            NormStageSpec,
            DecodeError,
        >(e),
{
    let ghost obj = obj_view(fields);
    if norm_shape_matches_exec(fields, NormalizerDescriptor::BertNormalizer) {
        let ct = match lookup_field(fields, FieldKey::CleanText) {
            Some(v) => crate::codec::as_bool(v),
            None => None,
        };
        let hcc = match lookup_field(fields, FieldKey::HandleChineseChars) {
            Some(v) => crate::codec::as_bool(v),
            None => None,
        };
        let lc = match lookup_field(fields, FieldKey::Lowercase) {
            Some(v) => crate::codec::as_bool(v),
            None => None,
        };
        match (ct, hcc, lc) {
            (Some(clean_text), Some(handle_chinese_chars), Some(lowercase)) => {
                match lookup_field(fields, FieldKey::StripAccents) {
                    None => Ok(
                        NormalizerStage::BertNormalizer {
                            clean_text,
                            handle_chinese_chars,
                            strip_accents: None,
                            lowercase,
                        },
                    ),
                    Some(Value::Null) => Ok(
                        NormalizerStage::BertNormalizer {
                            clean_text,
                            handle_chinese_chars,
                            strip_accents: None,
                            lowercase,
                        },
                    ),
                    Some(Value::Bool(b)) => Ok(
                        NormalizerStage::BertNormalizer {
                            clean_text,
                            handle_chinese_chars,
                            strip_accents: Some(*b),
                            lowercase,
                        },
                    ),
                    Some(_) => Err(DecodeError::BadField),
                }
            },
            _ => Err(DecodeError::BadField),
        }
    } else if norm_shape_matches_exec(fields, NormalizerDescriptor::Strip) {
        let sl = match lookup_field(fields, FieldKey::StripLeft) {
            Some(v) => crate::codec::as_bool(v),
            None => None,
        };
        let sr = match lookup_field(fields, FieldKey::StripRight) {
            Some(v) => crate::codec::as_bool(v),
            None => None,
        };
        match (sl, sr) {
            (Some(strip_left), Some(strip_right)) => Ok(
                NormalizerStage::Strip { strip_left, strip_right },
            ),
            _ => Err(DecodeError::BadField),
        }
    } else if norm_shape_matches_exec(fields, NormalizerDescriptor::StripAccents) {
        Ok(NormalizerStage::StripAccents)
    } else if norm_shape_matches_exec(fields, NormalizerDescriptor::NFC) {
        Ok(NormalizerStage::NFC)
    } else if norm_shape_matches_exec(fields, NormalizerDescriptor::NFD) {
        Ok(NormalizerStage::NFD)
    } else if norm_shape_matches_exec(fields, NormalizerDescriptor::NFKC) {
        Ok(NormalizerStage::NFKC)
    } else if norm_shape_matches_exec(fields, NormalizerDescriptor::NFKD) {
        Ok(NormalizerStage::NFKD)
    } else if norm_shape_matches_exec(fields, NormalizerDescriptor::Lowercase) {
        Ok(NormalizerStage::Lowercase)
    } else if norm_shape_matches_exec(fields, NormalizerDescriptor::Nmt) {
        Ok(NormalizerStage::Nmt)
    } else if norm_shape_matches_exec(fields, NormalizerDescriptor::Replace) {
        let p = match lookup_field(fields, FieldKey::Pattern) {
            Some(v) => crate::codec::as_text(v),
            None => None,
        };
        let c = match lookup_field(fields, FieldKey::Content) {
            Some(v) => crate::codec::as_text(v),
            None => None,
        };
        match (p, c) {
            (Some(pattern), Some(content)) => {
                if backend::replace_pattern_valid(pattern.as_str()) {
                    Ok(NormalizerStage::Replace { pattern, content })
                } else {
                    Err(DecodeError::InvalidStage)
                }
            },
            _ => Err(DecodeError::BadField),
        }
    } else if norm_shape_matches_exec(fields, NormalizerDescriptor::Prepend) {
        match lookup_field(fields, FieldKey::Prepend) {
            Some(v) => match crate::codec::as_text(v) {
                Some(prepend) => Ok(NormalizerStage::Prepend { prepend }),
                None => Err(DecodeError::BadField),
            },
            None => Err(DecodeError::BadField),
        }
    } else {
        Err(DecodeError::NoMatch)
    }
}

/// A pipeline's stages are unchanged when the arena only grows.
pub proof fn lemma_stages_extend(
    p: NormalizerPipeline,
    a1: Seq<NormStageSpec>,
    a2: Seq<NormStageSpec>,
)
    requires
        p.valid(a1.len() as int),
        a1.is_prefix_of(a2),
    ensures
        p.stages(a2) == p.stages(a1),
{
    assert(p.stages(a2) =~= p.stages(a1));
}

/// Decode a structural value into a runtime pipeline, allocating fresh
/// cells. An object carrying the sequence discriminator becomes a sequence:
/// its elements are decoded by the same rule and composed, so nested
/// serialized sequences are re-flattened on load. Any other object is
/// decoded by signature matching. Exactly the inputs accepted by
/// `spec_decode_norm` are decoded, and with the stage values it gives.
pub fn decode_normalizer(arena: &mut NormalizerArena, v: &Value) -> (r: Result<
    RbNormalizer,
    DecodeError,
>)
    ensures
        old(arena)@.is_prefix_of(final(arena)@),
        r matches Ok(n) ==> {
            &&& n.pipeline.valid(final(arena)@.len() as int)
            &&& norm_stages_ok(n.pipeline.stages(final(arena)@))
            &&& match spec_decode_norm(v@) {
                Ok(NormPipeSpec::Single(st)) => n.pipeline is Single && n.pipeline.stages(
                    final(arena)@,
                ) == seq![st],
                Ok(NormPipeSpec::Sequence(sts)) => n.pipeline is Sequence && n.pipeline.stages(
                    final(arena)@,
                ) == sts,
                Err(_) => false,
            }
        },
        r matches Err(e) ==> spec_decode_norm(v@) == Err::<NormPipeSpec, DecodeError>(e),
    decreases v,
{
    match v {
        Value::Obj(fields) => {
            let ghost obj = obj_view(fields);
            let tagged = match lookup_field(fields, FieldKey::TypeTag) {
                Some(tv) => match tv {
                    Value::Str(s) => *s == "Sequence".to_owned(),
                    _ => false,
                },
                None => false,
            };
            proof {
                assert(tagged == has_sequence_tag(obj));
            }
            if tagged {
                let allowed = vec![FieldKey::TypeTag, FieldKey::Normalizers];
                proof {
                    assert(allowed@ =~= seq![FieldKey::TypeTag, FieldKey::Normalizers]);
                }
                if !crate::codec::fields_within(fields, &allowed) {
                    return Err(DecodeError::BadSequence);
                }
                match crate::codec::lookup_index(fields, FieldKey::Normalizers) {
                    Some(li) => match &fields[li].1 {
                        Value::List(items) => {
                            let ghost lv_items = crate::codec::list_view(items);
                            proof {
                                crate::codec::lemma_list_view_from(items, 0);
                            }
                            let mut parts: Vec<RbNormalizer> = Vec::new();
                            let ghost mut done: Seq<NormStageSpec> = Seq::empty();
                            let mut idx: usize = 0;
                            proof {
                                assert(lv_items.skip(0) =~= lv_items);
                                assert(parts_stages(parts@, arena@) =~= done);
                            }
                            #[verifier::loop_isolation(false)]
                            while idx < items.len()
                                invariant
                                    idx <= items.len(),
                                    old(arena)@.is_prefix_of(arena@),
                                    lv_items == crate::codec::list_view(items),
                                    lv_items.len() == items@.len(),
                                    forall|j: int|
                                        0 <= j < items@.len() ==> lv_items[j] == #[trigger] items@[j]@,
                                    parts_valid(parts@, arena@.len() as int),
                                    norm_stages_ok(parts_stages(parts@, arena@)),
                                    parts_stages(parts@, arena@) == done,
                                    match spec_decode_norm_list(lv_items.skip(idx as int)) {
                                        Ok(rest) => spec_decode_norm_list(lv_items) == Ok::<
                                            Seq<NormStageSpec>,
                                            DecodeError,
                                        >(done + rest),
                                        Err(e) => spec_decode_norm_list(lv_items) == Err::<
                                            Seq<NormStageSpec>,
                                            DecodeError,
                                        >(e),
                                    },
                                decreases items.len() - idx,
                            {
                                proof {
                                    assert(lv_items.skip(idx as int).first() == lv_items[idx as int]);
                                    assert(lv_items.skip(idx as int).drop_first() =~= lv_items.skip(
                                        idx as int + 1,
                                    ));
                                }
                                let ghost arena_before = arena@;
                                proof {
                                    assert(decreases_to!(*fields => fields@[li as int]));
                                    assert(decreases_to!(*items => items@[idx as int]));
                                }
                                match decode_normalizer(arena, &items[idx]) {
                                    Ok(part) => {
                                        proof {
                                            lemma_parts_extend(parts@, arena_before, arena@);
                                            assert(old(arena)@.is_prefix_of(arena@)) by {
                                                assert(old(arena)@ =~= arena@.subrange(
                                                    0,
                                                    old(arena)@.len() as int,
                                                ));
                                            }
                                        }
                                        let ghost part_stages = part.pipeline.stages(arena@);
                                        let ghost parts_before = parts@;
                                        parts.push(part);
                                        proof {
                                            assert(parts@.drop_last() =~= parts_before);
                                            assert(parts@.last() == part);
                                            lemma_parts_push(parts@, arena@);
                                            assert(parts_stages(parts@, arena@) == done
                                                + part_stages);
                                            assert forall|i: int|
                                                0 <= i < parts@.len() implies (
                                            #[trigger] parts@[i]).pipeline.valid(
                                                arena@.len() as int,
                                            ) by {
                                                if i < parts_before.len() {
                                                    assert(parts@[i] == parts_before[i]);
                                                } else {
                                                    assert(parts@[i] == part);
                                                }
                                            }
                                            assert(norm_stages_ok(done + part_stages)) by {
                                                assert forall|i: int|
                                                    0 <= i < (done + part_stages).len() implies norm_stage_ok(
                                                    #[trigger] (done + part_stages)[i],
                                                ) by {
                                                    if i < done.len() {
                                                        assert((done + part_stages)[i] == done[i]);
                                                    } else {
                                                        assert((done + part_stages)[i]
                                                            == part_stages[i - done.len()]);
                                                    }
                                                }
                                            }
                                            if spec_decode_norm_list(
                                                lv_items.skip(idx as int + 1),
                                            ) is Ok {
                                                let rest = spec_decode_norm_list(
                                                    lv_items.skip(idx as int + 1),
                                                ).unwrap();
                                                assert(spec_decode_norm_list(
                                                    lv_items.skip(idx as int),
                                                ) == Ok::<Seq<NormStageSpec>, DecodeError>(
                                                    part_stages + rest,
                                                ));
                                                assert((done + part_stages) + rest =~= done + (
                                                part_stages + rest));
                                            }
                                            done = done + part_stages;
                                        }
                                    },
                                    Err(e) => {
                                        return Err(e);
                                    },
                                }
                                idx = idx + 1;
                            }
                            proof {
                                assert(lv_items.skip(items@.len() as int) =~= Seq::<
                                    ValueSpec,
                                >::empty());
                            }
                            let n = RbSequence::new(&parts);
                            proof {
                                lemma_leaves_map_concat(parts@, arena@);
                                lemma_parts_leaves_bound(parts@, arena@.len() as int);
                                assert(done + Seq::<NormStageSpec>::empty() =~= done);
                                assert(n.pipeline.stages(arena@) == done);
                            }
                            Ok(n)
                        },
                        _ => Err(DecodeError::BadSequence),
                    },
                    None => Err(DecodeError::BadSequence),
                }
            } else {
                match decode_norm_stage(fields) {
                    Ok(st) => {
                        let n = single_stage(arena, st);
                        proof {
                            assert(old(arena)@.is_prefix_of(arena@)) by {
                                assert(old(arena)@ =~= arena@.subrange(
                                    0,
                                    old(arena)@.len() as int,
                                ));
                            }
                            assert(norm_stages_ok(seq![st@])) by {
                                assert(seq![st@][0] == st@);
                            }
                        }
                        Ok(n)
                    },
                    Err(e) => Err(e),
                }
            }
        },
        _ => Err(DecodeError::NotAnObject),
    }
}

/// Whether every part's pipeline is valid for an arena of the given length.
pub open spec fn parts_valid(parts: Seq<RbNormalizer>, arena_len: int) -> bool {
    forall|i: int| 0 <= i < parts.len() ==> (#[trigger] parts[i]).pipeline.valid(arena_len)
}

/// The concatenated leaves of a list of parts.
pub open spec fn parts_leaves(parts: Seq<RbNormalizer>) -> Seq<int> {
    leaves_of_list(parts.map(|i: int, rb: RbNormalizer| rb.pipeline))
}

/// The concatenated stages of a list of parts.
pub open spec fn parts_stages(parts: Seq<RbNormalizer>, arena: Seq<NormStageSpec>) -> Seq<
    NormStageSpec,
> {
    parts_leaves(parts).map(|i: int, h: int| arena[h])
}

/// Extending the arena changes no part's stages.
proof fn lemma_parts_extend(
    parts: Seq<RbNormalizer>,
    a1: Seq<NormStageSpec>,
    a2: Seq<NormStageSpec>,
)
    requires
        parts_valid(parts, a1.len() as int),
        a1.is_prefix_of(a2),
    ensures
        parts_stages(parts, a2) == parts_stages(parts, a1),
        parts_valid(parts, a2.len() as int),
        norm_stages_ok(parts_stages(parts, a1)) ==> norm_stages_ok(parts_stages(parts, a2)),
{
    lemma_parts_leaves_bound(parts, a1.len() as int);
    assert(parts_stages(parts, a2) =~= parts_stages(parts, a1));
}

/// Every leaf of a valid part list lies below the arena length.
proof fn lemma_parts_leaves_bound(parts: Seq<RbNormalizer>, arena_len: int)
    requires
        parts_valid(parts, arena_len),
    ensures
        forall|i: int|
            0 <= i < parts_leaves(parts).len() ==> 0 <= #[trigger] parts_leaves(parts)[i]
                < arena_len,
    decreases parts.len(),
{
    let ps = parts.map(|j: int, rb: RbNormalizer| rb.pipeline);
    if parts.len() > 0 {
        lemma_parts_leaves_bound(parts.drop_first(), arena_len);
        assert(parts.drop_first().map(|j: int, rb: RbNormalizer| rb.pipeline) =~= ps.drop_first());
        assert(parts[0].pipeline.valid(arena_len));
        assert(ps.first() == parts[0].pipeline);
        assert forall|i: int|
            0 <= i < parts_leaves(parts).len() implies 0 <= #[trigger] parts_leaves(parts)[i]
            < arena_len by {
            let head = ps.first().leaves();
            if i < head.len() {
                assert(parts_leaves(parts)[i] == head[i]);
            } else {
                assert(parts_leaves(parts)[i] == parts_leaves(parts.drop_first())[i - head.len()]);
            }
        }
    }
}

/// Appending one part appends its stages.
proof fn lemma_parts_push(parts: Seq<RbNormalizer>, arena: Seq<NormStageSpec>)
    requires
        parts.len() > 0,
    ensures
        parts_stages(parts, arena) == parts_stages(parts.drop_last(), arena) + parts.last(
        ).pipeline.stages(arena),
{
    let ps = parts.map(|j: int, rb: RbNormalizer| rb.pipeline);
    let ps0 = parts.drop_last().map(|j: int, rb: RbNormalizer| rb.pipeline);
    assert(ps =~= ps0 + seq![parts.last().pipeline]);
    lemma_leaves_of_list_concat(ps0, seq![parts.last().pipeline]);
    lemma_leaves_of_list_concat(ps0, seq![parts.last().pipeline]);
    lemma_leaves_of_list_singleton(parts.last().pipeline);
    assert(parts_stages(parts, arena) =~= parts_stages(parts.drop_last(), arena) + parts.last(
    ).pipeline.stages(arena));
}

/// A composed pipeline's stages are the concatenation of its parts' stages.
proof fn lemma_leaves_map_concat(parts: Seq<RbNormalizer>, arena: Seq<NormStageSpec>)
    ensures
        leaves_of_list(parts.map(|i: int, rb: RbNormalizer| rb.pipeline)).map(
            |i: int, h: int| arena[h],
        ) == parts_stages(parts, arena),
{
    assert(leaves_of_list(parts.map(|i: int, rb: RbNormalizer| rb.pipeline)) == parts_leaves(
        parts,
    ));
}

/// Encode one stage as a flat object holding exactly its variant's field
/// set; no explicit type tag, the shape itself identifies the variant.
pub open spec fn spec_encode_norm_stage(st: NormStageSpec) -> ValueSpec {
    match st {
        NormStageSpec::BertNormalizer {
            clean_text,
            handle_chinese_chars,
            strip_accents,
            lowercase,
        } => ValueSpec::Obj(
            seq![
                ("clean_text"@, ValueSpec::Bool(clean_text)),
                ("handle_chinese_chars"@, ValueSpec::Bool(handle_chinese_chars)),
                (
                    "strip_accents"@,
                    match strip_accents {
                        None => ValueSpec::Null,
                        Some(b) => ValueSpec::Bool(b),
                    },
                ),
                ("lowercase"@, ValueSpec::Bool(lowercase)),
            ],
        ),
        NormStageSpec::Lowercase => ValueSpec::Obj(Seq::empty()),
        NormStageSpec::NFC => ValueSpec::Obj(Seq::empty()),
        NormStageSpec::NFD => ValueSpec::Obj(Seq::empty()),
        NormStageSpec::NFKC => ValueSpec::Obj(Seq::empty()),
        NormStageSpec::NFKD => ValueSpec::Obj(Seq::empty()),
        NormStageSpec::Nmt => ValueSpec::Obj(Seq::empty()),
        NormStageSpec::Replace { pattern, content } => ValueSpec::Obj(
            seq![
                ("pattern"@, ValueSpec::Str(pattern)),
                ("content"@, ValueSpec::Str(content)),
            ],
        ),
        NormStageSpec::Prepend { prepend } => ValueSpec::Obj(
            seq![("prepend"@, ValueSpec::Str(prepend))],
        ),
        NormStageSpec::Strip { strip_left, strip_right } => ValueSpec::Obj(
            seq![
                ("strip_left"@, ValueSpec::Bool(strip_left)),
                ("strip_right"@, ValueSpec::Bool(strip_right)),
            ],
        ),
        NormStageSpec::StripAccents => ValueSpec::Obj(Seq::empty()),
    }
}

/// Encode a sequence's stages as the discriminated object.
pub open spec fn spec_encode_norm_sequence(stages: Seq<NormStageSpec>) -> ValueSpec {
    ValueSpec::Obj(
        seq![
            ("type"@, ValueSpec::Str("Sequence"@)),
            (
                "normalizers"@,
                ValueSpec::List(stages.map(|i: int, st: NormStageSpec| spec_encode_norm_stage(st))),
            ),
        ],
    )
}

/// Encode one stage as a flat object holding exactly its variant's fields.
fn encode_norm_stage(stage: &NormalizerStage) -> (v: Value)
    ensures
        v@ == spec_encode_norm_stage(stage@),
{
    match stage {
        NormalizerStage::BertNormalizer {
            clean_text,
            handle_chinese_chars,
            strip_accents,
            lowercase,
        } => {
            let mut fields: Vec<(String, Value)> = Vec::new();
            fields.push(("clean_text".to_owned(), Value::Bool(*clean_text)));
            fields.push(("handle_chinese_chars".to_owned(), Value::Bool(*handle_chinese_chars)));
            fields.push(
                (
                    "strip_accents".to_owned(),
                    match strip_accents {
                        None => Value::Null,
                        Some(b) => Value::Bool(*b),
                    },
                ),
            );
            fields.push(("lowercase".to_owned(), Value::Bool(*lowercase)));
            proof {
                crate::codec::lemma_obj_view_from(&fields, 0);
                assert(fields@.len() == 4);
                assert(fields@[0].0@ == "clean_text"@ && fields@[0].1@ == ValueSpec::Bool(
                    *clean_text,
                ));
                assert(fields@[1].0@ == "handle_chinese_chars"@ && fields@[1].1@
                    == ValueSpec::Bool(*handle_chinese_chars));
                assert(fields@[2].0@ == "strip_accents"@);
                assert(fields@[3].0@ == "lowercase"@ && fields@[3].1@ == ValueSpec::Bool(
                    *lowercase,
                ));
                assert(obj_view(&fields) =~= spec_encode_norm_stage(stage@)->Obj_0);
            }
            Value::Obj(fields)
        },
        NormalizerStage::Replace { pattern, content } => {
            let mut fields: Vec<(String, Value)> = Vec::new();
            fields.push(("pattern".to_owned(), Value::Str(pattern.clone())));
            fields.push(("content".to_owned(), Value::Str(content.clone())));
            proof {
                crate::codec::lemma_obj_view_from(&fields, 0);
                assert(fields@.len() == 2);
                assert(fields@[0].0@ == "pattern"@ && fields@[0].1@ == ValueSpec::Str(pattern@));
                assert(fields@[1].0@ == "content"@ && fields@[1].1@ == ValueSpec::Str(content@));
                assert(obj_view(&fields) =~= spec_encode_norm_stage(stage@)->Obj_0);
            }
            Value::Obj(fields)
        },
        NormalizerStage::Prepend { prepend } => {
            let mut fields: Vec<(String, Value)> = Vec::new();
            fields.push(("prepend".to_owned(), Value::Str(prepend.clone())));
            proof {
                crate::codec::lemma_obj_view_from(&fields, 0);
                assert(fields@.len() == 1);
                assert(fields@[0].0@ == "prepend"@ && fields@[0].1@ == ValueSpec::Str(prepend@));
                assert(obj_view(&fields) =~= spec_encode_norm_stage(stage@)->Obj_0);
            }
            Value::Obj(fields)
        },
        NormalizerStage::Strip { strip_left, strip_right } => {
            let mut fields: Vec<(String, Value)> = Vec::new();
            fields.push(("strip_left".to_owned(), Value::Bool(*strip_left)));
            fields.push(("strip_right".to_owned(), Value::Bool(*strip_right)));
            proof {
                crate::codec::lemma_obj_view_from(&fields, 0);
                assert(fields@.len() == 2);
                assert(fields@[0].0@ == "strip_left"@ && fields@[0].1@ == ValueSpec::Bool(
                    *strip_left,
                ));
                assert(fields@[1].0@ == "strip_right"@ && fields@[1].1@ == ValueSpec::Bool(
                    *strip_right,
                ));
                assert(obj_view(&fields) =~= spec_encode_norm_stage(stage@)->Obj_0);
            }
            Value::Obj(fields)
        },
        _ => {
            let fields: Vec<(String, Value)> = Vec::new();
            proof {
                crate::codec::lemma_obj_view_from(&fields, 0);
                assert(obj_view(&fields) =~= spec_encode_norm_stage(stage@)->Obj_0);
            }
            Value::Obj(fields)
        },
    }
}

impl RbNormalizer {
    /// Encode this pipeline as a structural value: a single stage as the
    /// flat object of its variant's fields, a sequence as the discriminated
    /// object carrying its encoded member stages in order.
    pub fn encode(&self, arena: &NormalizerArena) -> (v: Value)
        requires
            self.pipeline.valid(arena@.len() as int),
        ensures
            self.pipeline is Single ==> v@ == spec_encode_norm_stage(
                self.pipeline.stages(arena@)[0],
            ),
            self.pipeline is Sequence ==> v@ == spec_encode_norm_sequence(
                self.pipeline.stages(arena@),
            ),
    {
        let ghost stages = self.pipeline.stages(arena@);
        match &self.pipeline {
            NormalizerPipeline::Single(c) => {
                proof {
                    assert(self.pipeline.leaves()[0] == c@);
                    assert(stages[0] == arena@[c@]);
                }
                encode_norm_stage(arena.read(*c))
            },
            NormalizerPipeline::Sequence(cells) => {
                let ghost enc = stages.map(
                    |i: int, st: NormStageSpec| spec_encode_norm_stage(st),
                );
                let mut items: Vec<Value> = Vec::new();
                let mut i: usize = 0;
                #[verifier::loop_isolation(false)]
                while i < cells.len()
                    invariant
                        i <= cells.len(),
                        items@.len() == i,
                        forall|j: int| 0 <= j < i ==> #[trigger] items@[j]@ == enc[j],
                    decreases cells.len() - i,
                {
                    proof {
                        assert(self.pipeline.leaves()[i as int] == cells@[i as int]@);
                        assert(stages[i as int] == arena@[cells@[i as int]@]);
                    }
                    items.push(encode_norm_stage(arena.read(cells[i])));
                    i = i + 1;
                }
                proof {
                    crate::codec::lemma_list_view_from(&items, 0);
                    assert(crate::codec::list_view(&items).len() == items@.len());
                    assert(enc.len() == stages.len());
                    assert(items@.len() == stages.len());
                    assert forall|j: int|
                        0 <= j < items@.len() implies crate::codec::list_view(&items)[j] == enc[j] by {
                        assert(crate::codec::list_view(&items)[j] == items@[j]@);
                        assert(items@[j]@ == enc[j]);
                    }
                    assert(crate::codec::list_view(&items) =~= enc);
                }
                let mut fields: Vec<(String, Value)> = Vec::new();
                fields.push(("type".to_owned(), Value::Str("Sequence".to_owned())));
                fields.push(("normalizers".to_owned(), Value::List(items)));
                proof {
                    crate::codec::lemma_obj_view_from(&fields, 0);
                    assert(fields@.len() == 2);
                    assert(fields@[0].0@ == "type"@ && fields@[0].1@ == ValueSpec::Str(
                        "Sequence"@,
                    ));
                    assert(fields@[1].0@ == "normalizers"@);
                    assert(fields@[1].1@ == ValueSpec::List(enc));
                    assert(obj_view(&fields) =~= spec_encode_norm_sequence(stages)->Obj_0);
                }
                Value::Obj(fields)
            },
        }
    }
}

/// The exact key each interchange field name denotes, and that the sequence
/// discriminator value is itself.
proof fn lemma_norm_field_keys()
    ensures
        fid("type"@) == FieldKey::TypeTag,
        fid("normalizers"@) == FieldKey::Normalizers,
        fid("clean_text"@) == FieldKey::CleanText,
        fid("handle_chinese_chars"@) == FieldKey::HandleChineseChars,
        fid("strip_accents"@) == FieldKey::StripAccents,
        fid("lowercase"@) == FieldKey::Lowercase,
        fid("pattern"@) == FieldKey::Pattern,
        fid("content"@) == FieldKey::Content,
        fid("prepend"@) == FieldKey::Prepend,
        fid("strip_left"@) == FieldKey::StripLeft,
        fid("strip_right"@) == FieldKey::StripRight,
{
    reveal_strlit("type");
    reveal_strlit("normalizers");
    reveal_strlit("pretokenizers");
    reveal_strlit("clean_text");
    reveal_strlit("handle_chinese_chars");
    reveal_strlit("strip_accents");
    reveal_strlit("lowercase");
    reveal_strlit("pattern");
    reveal_strlit("content");
    reveal_strlit("prepend");
    reveal_strlit("strip_left");
    reveal_strlit("strip_right");
    assert("type"@.len() == 4);
    assert("normalizers"@.len() == 11);
    assert("pretokenizers"@.len() == 13);
    assert("clean_text"@.len() == 10);
    assert("handle_chinese_chars"@.len() == 20);
    assert("strip_accents"@.len() == 13);
    assert("lowercase"@.len() == 9);
    assert("pattern"@.len() == 7);
    assert("content"@.len() == 7);
    assert("prepend"@.len() == 7);
    assert("strip_left"@.len() == 10);
    assert("strip_right"@.len() == 11);
    assert("pretokenizers"@[0] == 'p' && "strip_accents"@[0] == 's');
    assert("pattern"@[0] == 'p' && "content"@[0] == 'c' && "prepend"@[0] == 'p');
    assert("pattern"@[1] == 'a' && "prepend"@[1] == 'r');
    assert("clean_text"@[0] == 'c' && "strip_left"@[0] == 's');
    assert("normalizers"@[0] == 'n' && "strip_right"@[0] == 's');
}

/// Which stages survive the structural round trip unchanged: every stage
/// that carries fields, and — among the field-less variants, whose encoded
/// objects are all empty and thus indistinguishable — the one their shared
/// shape resolves to first in the priority order, `StripAccents`.
pub open spec fn norm_stage_shape_canonical(st: NormStageSpec) -> bool {
    match st {
        NormStageSpec::Lowercase => false,
        NormStageSpec::NFC => false,
        NormStageSpec::NFD => false,
        NormStageSpec::NFKC => false,
        NormStageSpec::NFKD => false,
        NormStageSpec::Nmt => false,
        _ => true,
    }
}

/// Round trip, single stages: decoding an encoded stage yields the stage
/// back, for every stage whose configuration the backend accepts and whose
/// shape is not shadowed by an earlier signature in the priority order.
pub proof fn lemma_norm_stage_round_trip(st: NormStageSpec)
    requires
        norm_stage_ok(st),
        norm_stage_shape_canonical(st),
    ensures
        spec_decode_norm(spec_encode_norm_stage(st)) == Ok::<NormPipeSpec, DecodeError>(
            NormPipeSpec::Single(st),
        ),
{
    lemma_norm_field_keys();
    let obj = spec_encode_norm_stage(st)->Obj_0;
    assert(!has_sequence_tag(obj)) by {
        lemma_norm_obj_lookup(st);
    }
    lemma_norm_stage_decode(st);
}

/// The field lookups of an encoded stage, spelled out.
proof fn lemma_norm_obj_lookup(st: NormStageSpec)
    ensures
        obj_lookup(spec_encode_norm_stage(st)->Obj_0, FieldKey::TypeTag) is None,
{
    lemma_norm_field_keys();
    let obj = spec_encode_norm_stage(st)->Obj_0;
    lemma_norm_enc_fields(st);
    assert forall|j: int|
        0 <= j < obj.len() implies fid(#[trigger] obj[j].0) != FieldKey::TypeTag by {}
    crate::codec::lemma_obj_lookup_none(obj, FieldKey::TypeTag);
}

/// The field names and values of an encoded stage object, spelled out.
proof fn lemma_norm_enc_fields(st: NormStageSpec)
    ensures
        st matches NormStageSpec::BertNormalizer { clean_text, handle_chinese_chars, strip_accents, lowercase } ==> {
            let obj = spec_encode_norm_stage(st)->Obj_0;
            &&& obj.len() == 4
            &&& obj[0] == ("clean_text"@, ValueSpec::Bool(clean_text))
            &&& obj[1] == ("handle_chinese_chars"@, ValueSpec::Bool(handle_chinese_chars))
            &&& obj[2].0 == "strip_accents"@
            &&& obj[3] == ("lowercase"@, ValueSpec::Bool(lowercase))
            &&& fid(obj[0].0) == FieldKey::CleanText
            &&& fid(obj[1].0) == FieldKey::HandleChineseChars
            &&& fid(obj[2].0) == FieldKey::StripAccents
            &&& fid(obj[3].0) == FieldKey::Lowercase
        },
        st matches NormStageSpec::Replace { pattern, content } ==> {
            let obj = spec_encode_norm_stage(st)->Obj_0;
            &&& obj.len() == 2
            &&& obj[0] == ("pattern"@, ValueSpec::Str(pattern))
            &&& obj[1] == ("content"@, ValueSpec::Str(content))
            &&& fid(obj[0].0) == FieldKey::Pattern
            &&& fid(obj[1].0) == FieldKey::Content
        },
        st matches NormStageSpec::Prepend { prepend } ==> {
            let obj = spec_encode_norm_stage(st)->Obj_0;
            &&& obj.len() == 1
            &&& obj[0] == ("prepend"@, ValueSpec::Str(prepend))
            &&& fid(obj[0].0) == FieldKey::Prepend
        },
        st matches NormStageSpec::Strip { strip_left, strip_right } ==> {
            let obj = spec_encode_norm_stage(st)->Obj_0;
            &&& obj.len() == 2
            &&& obj[0] == ("strip_left"@, ValueSpec::Bool(strip_left))
            &&& obj[1] == ("strip_right"@, ValueSpec::Bool(strip_right))
            &&& fid(obj[0].0) == FieldKey::StripLeft
            &&& fid(obj[1].0) == FieldKey::StripRight
        },
        !norm_stage_shape_canonical(st) || st is StripAccents ==> spec_encode_norm_stage(st)->Obj_0
            =~= Seq::<(Seq<char>, ValueSpec)>::empty(),
{
    lemma_norm_field_keys();
}

/// Decoding an encoded stage object resolves to the stage itself.
proof fn lemma_norm_stage_decode(st: NormStageSpec)
    requires
        norm_stage_ok(st),
        norm_stage_shape_canonical(st),
    ensures
        spec_decode_norm_stage(spec_encode_norm_stage(st)->Obj_0) == Ok::<
            NormStageSpec,
            DecodeError,
        >(st),
{
    lemma_norm_field_keys();
    lemma_norm_enc_fields(st);
    let obj = spec_encode_norm_stage(st)->Obj_0;
    match st {
        NormStageSpec::BertNormalizer { clean_text, handle_chinese_chars, strip_accents, lowercase } => {
            crate::codec::lemma_obj_lookup_at(obj, FieldKey::CleanText, 0);
            crate::codec::lemma_obj_lookup_at(obj, FieldKey::HandleChineseChars, 1);
            crate::codec::lemma_obj_lookup_at(obj, FieldKey::StripAccents, 2);
            crate::codec::lemma_obj_lookup_at(obj, FieldKey::Lowercase, 3);
            assert(norm_shape_matches(obj, NormalizerDescriptor::BertNormalizer)) by {
                assert forall|i: int|
                    0 <= i < norm_sig_required(NormalizerDescriptor::BertNormalizer).len()
                        implies obj_has(
                    obj,
                    #[trigger] norm_sig_required(NormalizerDescriptor::BertNormalizer)[i],
                ) by {
                    assert(norm_sig_required(NormalizerDescriptor::BertNormalizer)[0]
                        == FieldKey::CleanText);
                    assert(norm_sig_required(NormalizerDescriptor::BertNormalizer)[1]
                        == FieldKey::HandleChineseChars);
                    assert(norm_sig_required(NormalizerDescriptor::BertNormalizer)[2]
                        == FieldKey::Lowercase);
                }
                assert forall|i: int| 0 <= i < obj.len() implies norm_sig_allowed(
                    NormalizerDescriptor::BertNormalizer,
                ).contains(fid(#[trigger] obj[i].0)) by {
                    let allowed = norm_sig_allowed(NormalizerDescriptor::BertNormalizer);
                    assert(allowed[0] == FieldKey::CleanText);
                    assert(allowed[1] == FieldKey::HandleChineseChars);
                    assert(allowed[2] == FieldKey::Lowercase);
                    assert(allowed[3] == FieldKey::StripAccents);
                }
            }
        },
        NormStageSpec::Replace { pattern, content } => {
            crate::codec::lemma_obj_lookup_at(obj, FieldKey::Pattern, 0);
            crate::codec::lemma_obj_lookup_at(obj, FieldKey::Content, 1);
            lemma_norm_no_match_earlier(st);
            assert(norm_shape_matches(obj, NormalizerDescriptor::Replace)) by {
                assert forall|i: int|
                    0 <= i < norm_sig_required(NormalizerDescriptor::Replace).len() implies obj_has(
                    obj,
                    #[trigger] norm_sig_required(NormalizerDescriptor::Replace)[i],
                ) by {
                    assert(norm_sig_required(NormalizerDescriptor::Replace)[0]
                        == FieldKey::Pattern);
                    assert(norm_sig_required(NormalizerDescriptor::Replace)[1]
                        == FieldKey::Content);
                }
                assert forall|i: int| 0 <= i < obj.len() implies norm_sig_allowed(
                    NormalizerDescriptor::Replace,
                ).contains(fid(#[trigger] obj[i].0)) by {
                    let allowed = norm_sig_allowed(NormalizerDescriptor::Replace);
                    assert(allowed[0] == FieldKey::Pattern);
                    assert(allowed[1] == FieldKey::Content);
                }
            }
        },
        NormStageSpec::Prepend { prepend } => {
            crate::codec::lemma_obj_lookup_at(obj, FieldKey::Prepend, 0);
            lemma_norm_no_match_earlier(st);
            assert(norm_shape_matches(obj, NormalizerDescriptor::Prepend)) by {
                assert forall|i: int|
                    0 <= i < norm_sig_required(NormalizerDescriptor::Prepend).len() implies obj_has(
                    obj,
                    #[trigger] norm_sig_required(NormalizerDescriptor::Prepend)[i],
                ) by {
                    assert(norm_sig_required(NormalizerDescriptor::Prepend)[0]
                        == FieldKey::Prepend);
                }
                assert forall|i: int| 0 <= i < obj.len() implies norm_sig_allowed(
                    NormalizerDescriptor::Prepend,
                ).contains(fid(#[trigger] obj[i].0)) by {
                    assert(norm_sig_allowed(NormalizerDescriptor::Prepend)[0]
                        == FieldKey::Prepend);
                }
            }
        },
        NormStageSpec::Strip { strip_left, strip_right } => {
            crate::codec::lemma_obj_lookup_at(obj, FieldKey::StripLeft, 0);
            crate::codec::lemma_obj_lookup_at(obj, FieldKey::StripRight, 1);
            lemma_norm_no_match_earlier(st);
            assert(norm_shape_matches(obj, NormalizerDescriptor::Strip)) by {
                assert forall|i: int|
                    0 <= i < norm_sig_required(NormalizerDescriptor::Strip).len() implies obj_has(
                    obj,
                    #[trigger] norm_sig_required(NormalizerDescriptor::Strip)[i],
                ) by {
                    assert(norm_sig_required(NormalizerDescriptor::Strip)[0]
                        == FieldKey::StripLeft);
                    assert(norm_sig_required(NormalizerDescriptor::Strip)[1]
                        == FieldKey::StripRight);
                }
                assert forall|i: int| 0 <= i < obj.len() implies norm_sig_allowed(
                    NormalizerDescriptor::Strip,
                ).contains(fid(#[trigger] obj[i].0)) by {
                    let allowed = norm_sig_allowed(NormalizerDescriptor::Strip);
                    assert(allowed[0] == FieldKey::StripLeft);
                    assert(allowed[1] == FieldKey::StripRight);
                }
            }
        },
        _ => {
            lemma_norm_no_match_earlier(st);
            assert(norm_shape_matches(obj, NormalizerDescriptor::StripAccents)) by {
                assert(obj.len() == 0);
            }
        },
    }
}

/// No signature earlier in the priority order matches an encoded stage of a
/// later variant.
proof fn lemma_norm_no_match_earlier(st: NormStageSpec)
    requires
        norm_stage_shape_canonical(st),
    ensures
        st is Replace || st is Prepend || st is Strip || st is StripAccents ==> {
            &&& !norm_shape_matches(
                spec_encode_norm_stage(st)->Obj_0,
                NormalizerDescriptor::BertNormalizer,
            )
        },
        st is Replace || st is Prepend || st is StripAccents ==> !norm_shape_matches(
            spec_encode_norm_stage(st)->Obj_0,
            NormalizerDescriptor::Strip,
        ),
        st is Strip ==> !norm_shape_matches(
            spec_encode_norm_stage(st)->Obj_0,
            NormalizerDescriptor::BertNormalizer,
        ),
        st is Replace || st is Prepend ==> {
            &&& !norm_shape_matches(
                spec_encode_norm_stage(st)->Obj_0,
                NormalizerDescriptor::StripAccents,
            )
            &&& !norm_shape_matches(spec_encode_norm_stage(st)->Obj_0, NormalizerDescriptor::NFC)
            &&& !norm_shape_matches(spec_encode_norm_stage(st)->Obj_0, NormalizerDescriptor::NFD)
            &&& !norm_shape_matches(spec_encode_norm_stage(st)->Obj_0, NormalizerDescriptor::NFKC)
            &&& !norm_shape_matches(spec_encode_norm_stage(st)->Obj_0, NormalizerDescriptor::NFKD)
            &&& !norm_shape_matches(
                spec_encode_norm_stage(st)->Obj_0,
                NormalizerDescriptor::Lowercase,
            )
            &&& !norm_shape_matches(spec_encode_norm_stage(st)->Obj_0, NormalizerDescriptor::Nmt)
        },
        st is Prepend ==> !norm_shape_matches(
            spec_encode_norm_stage(st)->Obj_0,
            NormalizerDescriptor::Replace,
        ),
{
    lemma_norm_field_keys();
    lemma_norm_enc_fields(st);
    let obj = spec_encode_norm_stage(st)->Obj_0;
    match st {
        NormStageSpec::Replace { .. } => {
            assert forall|j: int|
                0 <= j < obj.len() implies fid(#[trigger] obj[j].0) != FieldKey::CleanText by {}
            crate::codec::lemma_obj_lookup_none(obj, FieldKey::CleanText);
            assert(!sig_has_all(obj, norm_sig_required(NormalizerDescriptor::BertNormalizer))) by {
                assert(norm_sig_required(NormalizerDescriptor::BertNormalizer)[0]
                    == FieldKey::CleanText);
            }
            assert forall|j: int|
                0 <= j < obj.len() implies fid(#[trigger] obj[j].0) != FieldKey::StripLeft by {}
            crate::codec::lemma_obj_lookup_none(obj, FieldKey::StripLeft);
            assert(!sig_has_all(obj, norm_sig_required(NormalizerDescriptor::Strip))) by {
                assert(norm_sig_required(NormalizerDescriptor::Strip)[0] == FieldKey::StripLeft);
            }
            assert(!obj_within(obj, norm_sig_allowed(NormalizerDescriptor::StripAccents))) by {
                assert(fid(obj[0].0) == FieldKey::Pattern);
                assert(!Seq::<FieldKey>::empty().contains(FieldKey::Pattern));
            }
        },
        NormStageSpec::Prepend { .. } => {
            assert forall|j: int|
                0 <= j < obj.len() implies fid(#[trigger] obj[j].0) != FieldKey::CleanText by {}
            crate::codec::lemma_obj_lookup_none(obj, FieldKey::CleanText);
            assert(!sig_has_all(obj, norm_sig_required(NormalizerDescriptor::BertNormalizer))) by {
                assert(norm_sig_required(NormalizerDescriptor::BertNormalizer)[0]
                    == FieldKey::CleanText);
            }
            assert forall|j: int|
                0 <= j < obj.len() implies fid(#[trigger] obj[j].0) != FieldKey::StripLeft by {}
            crate::codec::lemma_obj_lookup_none(obj, FieldKey::StripLeft);
            assert(!sig_has_all(obj, norm_sig_required(NormalizerDescriptor::Strip))) by {
                assert(norm_sig_required(NormalizerDescriptor::Strip)[0] == FieldKey::StripLeft);
            }
            assert forall|j: int|
                0 <= j < obj.len() implies fid(#[trigger] obj[j].0) != FieldKey::Pattern by {}
            crate::codec::lemma_obj_lookup_none(obj, FieldKey::Pattern);
            assert(!sig_has_all(obj, norm_sig_required(NormalizerDescriptor::Replace))) by {
                assert(norm_sig_required(NormalizerDescriptor::Replace)[0] == FieldKey::Pattern);
            }
            assert(!obj_within(obj, norm_sig_allowed(NormalizerDescriptor::StripAccents))) by {
                assert(fid(obj[0].0) == FieldKey::Prepend);
                assert(!Seq::<FieldKey>::empty().contains(FieldKey::Prepend));
            }
        },
        NormStageSpec::Strip { .. } => {
            assert forall|j: int|
                0 <= j < obj.len() implies fid(#[trigger] obj[j].0) != FieldKey::CleanText by {}
            crate::codec::lemma_obj_lookup_none(obj, FieldKey::CleanText);
            assert(!sig_has_all(obj, norm_sig_required(NormalizerDescriptor::BertNormalizer))) by {
                assert(norm_sig_required(NormalizerDescriptor::BertNormalizer)[0]
                    == FieldKey::CleanText);
            }
        },
        NormStageSpec::StripAccents => {
            crate::codec::lemma_obj_lookup_none(obj, FieldKey::CleanText);
            assert(!sig_has_all(obj, norm_sig_required(NormalizerDescriptor::BertNormalizer))) by {
                assert(norm_sig_required(NormalizerDescriptor::BertNormalizer)[0]
                    == FieldKey::CleanText);
            }
            crate::codec::lemma_obj_lookup_none(obj, FieldKey::StripLeft);
            assert(!sig_has_all(obj, norm_sig_required(NormalizerDescriptor::Strip))) by {
                assert(norm_sig_required(NormalizerDescriptor::Strip)[0] == FieldKey::StripLeft);
            }
        },
        _ => {},
    }
}

/// Round trip, sequences: decoding an encoded sequence yields exactly the
/// same ordered stage list back, provided every member stage survives the
/// trip on its own.
pub proof fn lemma_norm_sequence_round_trip(stages: Seq<NormStageSpec>)
    requires
        forall|i: int| 0 <= i < stages.len() ==> norm_stage_ok(#[trigger] stages[i]),
        forall|i: int|
            0 <= i < stages.len() ==> norm_stage_shape_canonical(#[trigger] stages[i]),
    ensures
        spec_decode_norm(spec_encode_norm_sequence(stages)) == Ok::<NormPipeSpec, DecodeError>(
            NormPipeSpec::Sequence(stages),
        ),
{
    lemma_norm_field_keys();
    let obj = spec_encode_norm_sequence(stages)->Obj_0;
    let enc = stages.map(|i: int, st: NormStageSpec| spec_encode_norm_stage(st));
    assert(obj.len() == 2);
    assert(obj[0] == ("type"@, ValueSpec::Str("Sequence"@)));
    assert(obj[1] == ("normalizers"@, ValueSpec::List(enc)));
    crate::codec::lemma_obj_lookup_at(obj, FieldKey::TypeTag, 0);
    assert(has_sequence_tag(obj));
    crate::codec::lemma_obj_lookup_at(obj, FieldKey::Normalizers, 1);
    assert(obj_within(obj, seq![FieldKey::TypeTag, FieldKey::Normalizers])) by {
        assert(seq![FieldKey::TypeTag, FieldKey::Normalizers][0] == FieldKey::TypeTag);
        assert(seq![FieldKey::TypeTag, FieldKey::Normalizers][1] == FieldKey::Normalizers);
    }
    lemma_norm_list_round_trip(stages);
}

/// Decoding the encodings of a stage list, element by element, yields the
/// list back.
proof fn lemma_norm_list_round_trip(stages: Seq<NormStageSpec>)
    requires
        forall|i: int| 0 <= i < stages.len() ==> norm_stage_ok(#[trigger] stages[i]),
        forall|i: int|
            0 <= i < stages.len() ==> norm_stage_shape_canonical(#[trigger] stages[i]),
    ensures
        spec_decode_norm_list(stages.map(|i: int, st: NormStageSpec| spec_encode_norm_stage(st)))
            == Ok::<Seq<NormStageSpec>, DecodeError>(stages),
    decreases stages.len(),
{
    let enc = stages.map(|i: int, st: NormStageSpec| spec_encode_norm_stage(st));
    if stages.len() == 0 {
        assert(enc =~= Seq::<ValueSpec>::empty());
        assert(stages =~= Seq::<NormStageSpec>::empty());
    } else {
        lemma_norm_stage_round_trip(stages[0]);
        assert(enc.first() == spec_encode_norm_stage(stages[0]));
        assert(enc.drop_first() =~= stages.drop_first().map(
            |i: int, st: NormStageSpec| spec_encode_norm_stage(st),
        ));
        lemma_norm_list_round_trip(stages.drop_first());
        assert(seq![stages[0]] + stages.drop_first() =~= stages);
    }
}

/// Whether every key of `a` occurs in `b`.
pub open spec fn keyseq_subset(a: Seq<FieldKey>, b: Seq<FieldKey>) -> bool {
    forall|i: int| 0 <= i < a.len() ==> b.contains(#[trigger] a[i])
}

/// Unambiguity of this family's signature table, for the variants that
/// require fields at all: of two distinct such variants, neither's required
/// field set is contained in the other's, so no object shape can satisfy
/// both variants' required sets. The field-less variants all share the empty
/// required set and are excluded: their common shape is resolved by the
/// fixed priority order instead.
pub proof fn lemma_norm_signature_unambiguity(d1: NormalizerDescriptor, d2: NormalizerDescriptor)
    requires
        d1 != d2,
        !(d1 is Sequence),
        !(d2 is Sequence),
        norm_sig_required(d1).len() > 0,
        norm_sig_required(d2).len() > 0,
    ensures
        !keyseq_subset(norm_sig_required(d1), norm_sig_required(d2)),
{
    let r1 = norm_sig_required(d1);
    let r2 = norm_sig_required(d2);
    let probe = match d1 {
        NormalizerDescriptor::BertNormalizer => FieldKey::CleanText,
        NormalizerDescriptor::Replace => FieldKey::Pattern,
        NormalizerDescriptor::Prepend => FieldKey::Prepend,
        NormalizerDescriptor::Strip => FieldKey::StripLeft,
        _ => FieldKey::Unknown,
    };
    assert(r1[0] == probe);
    match d2 {
        NormalizerDescriptor::BertNormalizer => {
            crate::codec::lemma_not_in3(
                FieldKey::CleanText,
                FieldKey::HandleChineseChars,
                FieldKey::Lowercase,
                probe,
            );
        },
        NormalizerDescriptor::Replace => {
            crate::codec::lemma_not_in2(FieldKey::Pattern, FieldKey::Content, probe);
        },
        NormalizerDescriptor::Prepend => {
            crate::codec::lemma_not_in1(FieldKey::Prepend, probe);
        },
        NormalizerDescriptor::Strip => {
            crate::codec::lemma_not_in2(FieldKey::StripLeft, FieldKey::StripRight, probe);
        },
        _ => {
            assert(false);
        },
    }
    assert(!r2.contains(probe));
}

/// The handle images of a cell list, in order.
pub open spec fn handles_view(cells: Seq<StageCell>) -> Seq<int> {
    cells.map(|i: int, c: StageCell| c@)
}

/// Appending one cell appends its handle image.
proof fn lemma_handles_view_push(cells: Seq<StageCell>, c: StageCell)
    ensures
        handles_view(cells.push(c)) == handles_view(cells).push(c@),
{
    assert(handles_view(cells.push(c)) =~= handles_view(cells).push(c@));
}

/// One more pipeline extends the flattened leaves by that pipeline's leaves.
proof fn lemma_leaves_of_list_take(ps: Seq<NormalizerPipeline>, k: int)
    requires
        0 <= k < ps.len(),
    ensures
        leaves_of_list(ps.take(k + 1)) == leaves_of_list(ps.take(k)) + ps[k].leaves(),
{
    lemma_leaves_of_list_concat(ps.take(k), seq![ps[k]]);
    assert(ps.take(k + 1) =~= ps.take(k) + seq![ps[k]]);
    lemma_leaves_of_list_singleton(ps[k]);
}


impl RbNormalizer {
    /// Read `clean_text` of the Bert stage this single-stage pipeline holds.
    pub fn bert_clean_text(&self, arena: &NormalizerArena) -> (r: bool)
        requires
            self.pipeline.valid(arena@.len() as int),
            self.pipeline matches NormalizerPipeline::Single(c) && arena@[c@] is BertNormalizer,
        ensures
            self.pipeline matches NormalizerPipeline::Single(c) ==> r == arena@[c@]->BertNormalizer_clean_text,
    {
        match &self.pipeline {
            NormalizerPipeline::Single(c) => {
                proof {
                    assert(self.pipeline.leaves()[0] == c@);
                }
                match arena.read(*c) {
                    NormalizerStage::BertNormalizer { clean_text, .. } => *clean_text,
                    _ => {
                        proof {
                            assert(false);
                        }
                        false
                    },
                }
            },
            NormalizerPipeline::Sequence(_) => {
                proof {
                    assert(false);
                }
                false
            },
        }
    }

    /// Set `clean_text` of the Bert stage this single-stage pipeline holds;
    /// any other pipeline is left unchanged. The write goes through the
    /// shared cell, so it is visible to every pipeline referencing it.
    pub fn bert_set_clean_text(&self, arena: &mut NormalizerArena, clean_text: bool)
        requires
            self.pipeline.valid(old(arena)@.len() as int),
        ensures
            final(arena)@.len() == old(arena)@.len(),
            self.pipeline matches NormalizerPipeline::Single(c) ==> old(arena)@[c@] matches NormStageSpec::BertNormalizer { handle_chinese_chars, strip_accents, lowercase, .. } ==> final(arena)@ == old(arena)@.update(c@, NormStageSpec::BertNormalizer { clean_text, handle_chinese_chars, strip_accents, lowercase }),
            !(self.pipeline matches NormalizerPipeline::Single(c) && old(arena)@[c@] is BertNormalizer) ==> final(arena)@ == old(arena)@,
    {
        match &self.pipeline {
            NormalizerPipeline::Single(c) => {
                proof {
                    assert(self.pipeline.leaves()[0] == c@);
                }
                let repl = match arena.read(*c) {
                    NormalizerStage::BertNormalizer {
                        handle_chinese_chars,
                        strip_accents,
                        lowercase,
                        ..
                    } => Some(
                        NormalizerStage::BertNormalizer {
                            clean_text,
                            handle_chinese_chars: *handle_chinese_chars,
                            strip_accents: *strip_accents,
                            lowercase: *lowercase,
                        },
                    ),
                    _ => None,
                };
                match repl {
                    Some(st) => arena.write(*c, st),
                    None => {},
                }
            },
            NormalizerPipeline::Sequence(_) => {},
        }
    }

    /// Read `handle_chinese_chars` of the Bert stage this single-stage
    /// pipeline holds.
    pub fn bert_handle_chinese_chars(&self, arena: &NormalizerArena) -> (r: bool)
        requires
            self.pipeline.valid(arena@.len() as int),
            self.pipeline matches NormalizerPipeline::Single(c) && arena@[c@] is BertNormalizer,
        ensures
            self.pipeline matches NormalizerPipeline::Single(c) ==> r == arena@[c@]->BertNormalizer_handle_chinese_chars,
    {
        match &self.pipeline {
            NormalizerPipeline::Single(c) => {
                proof {
                    assert(self.pipeline.leaves()[0] == c@);
                }
                match arena.read(*c) {
                    NormalizerStage::BertNormalizer { handle_chinese_chars, .. } => *handle_chinese_chars,
                    _ => {
                        proof {
                            assert(false);
                        }
                        false
                    },
                }
            },
            NormalizerPipeline::Sequence(_) => {
                proof {
                    assert(false);
                }
                false
            },
        }
    }

    /// Set `handle_chinese_chars` of the Bert stage this single-stage
    /// pipeline holds; any other pipeline is left unchanged.
    pub fn bert_set_handle_chinese_chars(&self, arena: &mut NormalizerArena, handle_chinese_chars: bool)
        requires
            self.pipeline.valid(old(arena)@.len() as int),
        ensures
            final(arena)@.len() == old(arena)@.len(),
            self.pipeline matches NormalizerPipeline::Single(c) ==> old(arena)@[c@] matches NormStageSpec::BertNormalizer { clean_text, strip_accents, lowercase, .. } ==> final(arena)@ == old(arena)@.update(c@, NormStageSpec::BertNormalizer { clean_text, handle_chinese_chars, strip_accents, lowercase }),
            !(self.pipeline matches NormalizerPipeline::Single(c) && old(arena)@[c@] is BertNormalizer) ==> final(arena)@ == old(arena)@,
    {
        match &self.pipeline {
            NormalizerPipeline::Single(c) => {
                proof {
                    assert(self.pipeline.leaves()[0] == c@);
                }
                let repl = match arena.read(*c) {
                    NormalizerStage::BertNormalizer { clean_text, strip_accents, lowercase, .. } => Some(
                        NormalizerStage::BertNormalizer {
                            clean_text: *clean_text,
                            handle_chinese_chars,
                            strip_accents: *strip_accents,
                            lowercase: *lowercase,
                        },
                    ),
                    _ => None,
                };
                match repl {
                    Some(st) => arena.write(*c, st),
                    None => {},
                }
            },
            NormalizerPipeline::Sequence(_) => {},
        }
    }

    /// Read `strip_accents` of the Bert stage this single-stage pipeline
    /// holds.
    pub fn bert_strip_accents(&self, arena: &NormalizerArena) -> (r: Option<bool>)
        requires
            self.pipeline.valid(arena@.len() as int),
            self.pipeline matches NormalizerPipeline::Single(c) && arena@[c@] is BertNormalizer,
        ensures
            self.pipeline matches NormalizerPipeline::Single(c) ==> r == arena@[c@]->BertNormalizer_strip_accents,
    {
        match &self.pipeline {
            NormalizerPipeline::Single(c) => {
                proof {
                    assert(self.pipeline.leaves()[0] == c@);
                }
                match arena.read(*c) {
                    NormalizerStage::BertNormalizer { strip_accents, .. } => *strip_accents,
                    _ => {
                        proof {
                            assert(false);
                        }
                        None
                    },
                }
            },
            NormalizerPipeline::Sequence(_) => {
                proof {
                    assert(false);
                }
                None
            },
        }
    }

    /// Set `strip_accents` of the Bert stage this single-stage pipeline
    /// holds; any other pipeline is left unchanged.
    pub fn bert_set_strip_accents(&self, arena: &mut NormalizerArena, strip_accents: Option<bool>)
        requires
            self.pipeline.valid(old(arena)@.len() as int),
        ensures
            final(arena)@.len() == old(arena)@.len(),
            self.pipeline matches NormalizerPipeline::Single(c) ==> old(arena)@[c@] matches NormStageSpec::BertNormalizer { clean_text, handle_chinese_chars, lowercase, .. } ==> final(arena)@ == old(arena)@.update(c@, NormStageSpec::BertNormalizer { clean_text, handle_chinese_chars, strip_accents, lowercase }),
            !(self.pipeline matches NormalizerPipeline::Single(c) && old(arena)@[c@] is BertNormalizer) ==> final(arena)@ == old(arena)@,
    {
        match &self.pipeline {
            NormalizerPipeline::Single(c) => {
                proof {
                    assert(self.pipeline.leaves()[0] == c@);
                }
                let repl = match arena.read(*c) {
                    NormalizerStage::BertNormalizer { clean_text, handle_chinese_chars, lowercase, .. } => Some(
                        NormalizerStage::BertNormalizer {
                            clean_text: *clean_text,
                            handle_chinese_chars: *handle_chinese_chars,
                            strip_accents,
                            lowercase: *lowercase,
                        },
                    ),
                    _ => None,
                };
                match repl {
                    Some(st) => arena.write(*c, st),
                    None => {},
                }
            },
            NormalizerPipeline::Sequence(_) => {},
        }
    }

    /// Read `lowercase` of the Bert stage this single-stage pipeline holds.
    pub fn bert_lowercase(&self, arena: &NormalizerArena) -> (r: bool)
        requires
            self.pipeline.valid(arena@.len() as int),
            self.pipeline matches NormalizerPipeline::Single(c) && arena@[c@] is BertNormalizer,
        ensures
            self.pipeline matches NormalizerPipeline::Single(c) ==> r == arena@[c@]->BertNormalizer_lowercase,
    {
        match &self.pipeline {
            NormalizerPipeline::Single(c) => {
                proof {
                    assert(self.pipeline.leaves()[0] == c@);
                }
                match arena.read(*c) {
                    NormalizerStage::BertNormalizer { lowercase, .. } => *lowercase,
                    _ => {
                        proof {
                            assert(false);
                        }
                        false
                    },
                }
            },
            NormalizerPipeline::Sequence(_) => {
                proof {
                    assert(false);
                }
                false
            },
        }
    }

    /// Set `lowercase` of the Bert stage this single-stage pipeline holds;
    /// any other pipeline is left unchanged.
    pub fn bert_set_lowercase(&self, arena: &mut NormalizerArena, lowercase: bool)
        requires
            self.pipeline.valid(old(arena)@.len() as int),
        ensures
            final(arena)@.len() == old(arena)@.len(),
            self.pipeline matches NormalizerPipeline::Single(c) ==> old(arena)@[c@] matches NormStageSpec::BertNormalizer { clean_text, handle_chinese_chars, strip_accents, .. } ==> final(arena)@ == old(arena)@.update(c@, NormStageSpec::BertNormalizer { clean_text, handle_chinese_chars, strip_accents, lowercase }),
            !(self.pipeline matches NormalizerPipeline::Single(c) && old(arena)@[c@] is BertNormalizer) ==> final(arena)@ == old(arena)@,
    {
        match &self.pipeline {
            NormalizerPipeline::Single(c) => {
                proof {
                    assert(self.pipeline.leaves()[0] == c@);
                }
                let repl = match arena.read(*c) {
                    NormalizerStage::BertNormalizer { clean_text, handle_chinese_chars, strip_accents, .. } => Some(
                        NormalizerStage::BertNormalizer {
                            clean_text: *clean_text,
                            handle_chinese_chars: *handle_chinese_chars,
                            strip_accents: *strip_accents,
                            lowercase,
                        },
                    ),
                    _ => None,
                };
                match repl {
                    Some(st) => arena.write(*c, st),
                    None => {},
                }
            },
            NormalizerPipeline::Sequence(_) => {},
        }
    }

    /// Read the prefix of the Prepend stage this single-stage pipeline
    /// holds.
    pub fn prepend_prepend(&self, arena: &NormalizerArena) -> (r: String)
        requires
            self.pipeline.valid(arena@.len() as int),
            self.pipeline matches NormalizerPipeline::Single(c) && arena@[c@] is Prepend,
        ensures
            self.pipeline matches NormalizerPipeline::Single(c) ==> r@ == arena@[c@]->Prepend_prepend,
    {
        match &self.pipeline {
            NormalizerPipeline::Single(c) => {
                proof {
                    assert(self.pipeline.leaves()[0] == c@);
                }
                match arena.read(*c) {
                    NormalizerStage::Prepend { prepend } => prepend.clone(),
                    _ => {
                        proof {
                            assert(false);
                        }
                        String::new()
                    },
                }
            },
            NormalizerPipeline::Sequence(_) => {
                proof {
                    assert(false);
                }
                String::new()
            },
        }
    }

    /// Set the prefix of the Prepend stage this single-stage pipeline
    /// holds; any other pipeline is left unchanged.
    pub fn prepend_set_prepend(&self, arena: &mut NormalizerArena, prepend: String)
        requires
            self.pipeline.valid(old(arena)@.len() as int),
        ensures
            final(arena)@.len() == old(arena)@.len(),
            self.pipeline matches NormalizerPipeline::Single(c) ==> old(arena)@[c@] matches NormStageSpec::Prepend { .. } ==> final(arena)@ == old(arena)@.update(c@, NormStageSpec::Prepend { prepend: prepend@ }),
            !(self.pipeline matches NormalizerPipeline::Single(c) && old(arena)@[c@] is Prepend) ==> final(arena)@ == old(arena)@,
    {
        match &self.pipeline {
            NormalizerPipeline::Single(c) => {
                proof {
                    assert(self.pipeline.leaves()[0] == c@);
                }
                let matched = match arena.read(*c) {
                    NormalizerStage::Prepend { .. } => true,
                    _ => false,
                };
                if matched {
                    arena.write(*c, NormalizerStage::Prepend { prepend });
                }
            },
            NormalizerPipeline::Sequence(_) => {},
        }
    }

    /// Read `strip_left` of the Strip stage this single-stage pipeline
    /// holds.
    pub fn strip_left(&self, arena: &NormalizerArena) -> (r: bool)
        requires
            self.pipeline.valid(arena@.len() as int),
            self.pipeline matches NormalizerPipeline::Single(c) && arena@[c@] is Strip,
        ensures
            self.pipeline matches NormalizerPipeline::Single(c) ==> r == arena@[c@]->Strip_strip_left,
    {
        match &self.pipeline {
            NormalizerPipeline::Single(c) => {
                proof {
                    assert(self.pipeline.leaves()[0] == c@);
                }
                match arena.read(*c) {
                    NormalizerStage::Strip { strip_left, .. } => *strip_left,
                    _ => {
                        proof {
                            assert(false);
                        }
                        false
                    },
                }
            },
            NormalizerPipeline::Sequence(_) => {
                proof {
                    assert(false);
                }
                false
            },
        }
    }

    /// Set `strip_left` of the Strip stage this single-stage pipeline
    /// holds; any other pipeline is left unchanged.
    pub fn strip_set_left(&self, arena: &mut NormalizerArena, left: bool)
        requires
            self.pipeline.valid(old(arena)@.len() as int),
        ensures
            final(arena)@.len() == old(arena)@.len(),
            self.pipeline matches NormalizerPipeline::Single(c) ==> old(arena)@[c@] matches NormStageSpec::Strip { strip_right, .. } ==> final(arena)@ == old(arena)@.update(c@, NormStageSpec::Strip { strip_left: left, strip_right }),
            !(self.pipeline matches NormalizerPipeline::Single(c) && old(arena)@[c@] is Strip) ==> final(arena)@ == old(arena)@,
    {
        match &self.pipeline {
            NormalizerPipeline::Single(c) => {
                proof {
                    assert(self.pipeline.leaves()[0] == c@);
                }
                let repl = match arena.read(*c) {
                    NormalizerStage::Strip { strip_right, .. } => Some(
                        NormalizerStage::Strip { strip_left: left, strip_right: *strip_right },
                    ),
                    _ => None,
                };
                match repl {
                    Some(st) => arena.write(*c, st),
                    None => {},
                }
            },
            NormalizerPipeline::Sequence(_) => {},
        }
    }

    /// Read `strip_right` of the Strip stage this single-stage pipeline
    /// holds.
    pub fn strip_right(&self, arena: &NormalizerArena) -> (r: bool)
        requires
            self.pipeline.valid(arena@.len() as int),
            self.pipeline matches NormalizerPipeline::Single(c) && arena@[c@] is Strip,
        ensures
            self.pipeline matches NormalizerPipeline::Single(c) ==> r == arena@[c@]->Strip_strip_right,
    {
        match &self.pipeline {
            NormalizerPipeline::Single(c) => {
                proof {
                    assert(self.pipeline.leaves()[0] == c@);
                }
                match arena.read(*c) {
                    NormalizerStage::Strip { strip_right, .. } => *strip_right,
                    _ => {
                        proof {
                            assert(false);
                        }
                        false
                    },
                }
            },
            NormalizerPipeline::Sequence(_) => {
                proof {
                    assert(false);
                }
                false
            },
        }
    }

    /// Set `strip_right` of the Strip stage this single-stage pipeline
    /// holds; any other pipeline is left unchanged.
    pub fn strip_set_right(&self, arena: &mut NormalizerArena, right: bool)
        requires
            self.pipeline.valid(old(arena)@.len() as int),
        ensures
            final(arena)@.len() == old(arena)@.len(),
            self.pipeline matches NormalizerPipeline::Single(c) ==> old(arena)@[c@] matches NormStageSpec::Strip { strip_left, .. } ==> final(arena)@ == old(arena)@.update(c@, NormStageSpec::Strip { strip_left, strip_right: right }),
            !(self.pipeline matches NormalizerPipeline::Single(c) && old(arena)@[c@] is Strip) ==> final(arena)@ == old(arena)@,
    {
        match &self.pipeline {
            NormalizerPipeline::Single(c) => {
                proof {
                    assert(self.pipeline.leaves()[0] == c@);
                }
                let repl = match arena.read(*c) {
                    NormalizerStage::Strip { strip_left, .. } => Some(
                        NormalizerStage::Strip { strip_left: *strip_left, strip_right: right },
                    ),
                    _ => None,
                };
                match repl {
                    Some(st) => arena.write(*c, st),
                    None => {},
                }
            },
            NormalizerPipeline::Sequence(_) => {},
        }
    }
}

} // verus!
