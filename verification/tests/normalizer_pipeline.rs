use stage_pipelines::normalizers::{
    NormalizerArena, NormalizerDescriptor, NormalizerPipeline, RbBertNormalizer, RbLowercase,
    RbNFC, RbNFD, RbNFKC, RbNmt, RbPrepend, RbReplace, RbSequence, RbStrip, RbStripAccents,
};

#[test]
fn empty_sequence_returns_input_unchanged() {
    let arena = NormalizerArena::new();
    let empty = RbSequence::new(&Vec::new());
    let out = empty.normalize_str(&arena, " AbC ".to_owned()).unwrap();
    assert_eq!(out, " AbC ");
}

#[test]
fn strip_left_then_lowercase() {
    let mut arena = NormalizerArena::new();
    let strip = RbStrip::new(&mut arena, true, false);
    let lower = RbLowercase::new(&mut arena);
    let pipeline = RbSequence::new(&vec![strip, lower]);
    let out = pipeline.normalize_str(&arena, " ABC ".to_owned()).unwrap();
    assert_eq!(out, "abc ");
}

#[test]
fn replace_all_occurrences() {
    let mut arena = NormalizerArena::new();
    let replace = RbReplace::new(&mut arena, "a".to_owned(), "e".to_owned()).unwrap();
    let out = replace.normalize_str(&arena, "banana".to_owned()).unwrap();
    assert_eq!(out, "benene");
}

#[test]
fn strip_both_ends() {
    let mut arena = NormalizerArena::new();
    let strip = RbStrip::new(&mut arena, true, true);
    let out = strip.normalize_str(&arena, "  hi  ".to_owned()).unwrap();
    assert_eq!(out, "hi");
    let all_ws = strip.normalize_str(&arena, "   ".to_owned()).unwrap();
    assert_eq!(all_ws, "");
}

#[test]
fn lowercase_changes_its_input() {
    let mut arena = NormalizerArena::new();
    let lower = RbLowercase::new(&mut arena);
    let out = lower.normalize_str(&arena, "MiXeD".to_owned()).unwrap();
    assert_eq!(out, "mixed");
}

#[test]
fn nfkc_composes_ligature() {
    let mut arena = NormalizerArena::new();
    let nfkc = RbNFKC::new(&mut arena);
    let out = nfkc.normalize_str(&arena, "\u{fb01}".to_owned()).unwrap();
    assert_eq!(out, "fi");
}

#[test]
fn nfd_then_nfc_round() {
    let mut arena = NormalizerArena::new();
    let nfd = RbNFD::new(&mut arena);
    let nfc = RbNFC::new(&mut arena);
    let decomposed = nfd.normalize_str(&arena, "\u{e9}".to_owned()).unwrap();
    assert_eq!(decomposed.chars().count(), 2);
    let recomposed = nfc.normalize_str(&arena, decomposed).unwrap();
    assert_eq!(recomposed, "\u{e9}");
}

#[test]
fn strip_accents_removes_combining_marks() {
    let mut arena = NormalizerArena::new();
    let sa = RbStripAccents::new(&mut arena);
    let out = sa
        .normalize_str(&arena, "e\u{304}\u{304}\u{304}o".to_owned())
        .unwrap();
    assert_eq!(out, "eo");
}

#[test]
fn nmt_folds_zero_width_space() {
    let mut arena = NormalizerArena::new();
    let nmt = RbNmt::new(&mut arena);
    let out = nmt.normalize_str(&arena, "a\u{200b}b".to_owned()).unwrap();
    assert_eq!(out, "a b");
}

#[test]
fn prepend_skips_empty_input() {
    let mut arena = NormalizerArena::new();
    let prepend = RbPrepend::new(&mut arena, "\u{2581}".to_owned());
    let out = prepend.normalize_str(&arena, "Hello".to_owned()).unwrap();
    assert_eq!(out, "\u{2581}Hello");
    let empty = prepend.normalize_str(&arena, String::new()).unwrap();
    assert_eq!(empty, "");
}

#[test]
fn bert_lowercases_and_cleans() {
    let mut arena = NormalizerArena::new();
    let bert = RbBertNormalizer::new(&mut arena, true, true, None, true);
    let out = bert.normalize_str(&arena, "Hello\tWorld".to_owned()).unwrap();
    assert_eq!(out, "hello world");
}

#[test]
fn flattening_preserves_order_and_cells() {
    let mut arena = NormalizerArena::new();
    let a = RbLowercase::new(&mut arena);
    let b = RbNFC::new(&mut arena);
    let c = RbStrip::new(&mut arena, false, true);
    let d = RbStripAccents::new(&mut arena);
    let parts = vec![a, b, c, d];
    let inner = RbSequence::new(&vec![
        match &parts[1].pipeline {
            NormalizerPipeline::Single(cell) => stage_pipelines::normalizers::RbNormalizer {
                pipeline: NormalizerPipeline::Single(*cell),
            },
            NormalizerPipeline::Sequence(_) => panic!("expected a single"),
        },
        match &parts[2].pipeline {
            NormalizerPipeline::Single(cell) => stage_pipelines::normalizers::RbNormalizer {
                pipeline: NormalizerPipeline::Single(*cell),
            },
            NormalizerPipeline::Sequence(_) => panic!("expected a single"),
        },
    ]);
    let first = match &parts[0].pipeline {
        NormalizerPipeline::Single(cell) => stage_pipelines::normalizers::RbNormalizer {
            pipeline: NormalizerPipeline::Single(*cell),
        },
        NormalizerPipeline::Sequence(_) => panic!("expected a single"),
    };
    let last = match &parts[3].pipeline {
        NormalizerPipeline::Single(cell) => stage_pipelines::normalizers::RbNormalizer {
            pipeline: NormalizerPipeline::Single(*cell),
        },
        NormalizerPipeline::Sequence(_) => panic!("expected a single"),
    };
    let nested = RbSequence::new(&vec![first, inner, last]);
    let flat = RbSequence::new(&parts);
    let nested_cells = match nested.pipeline {
        NormalizerPipeline::Sequence(cells) => cells,
        NormalizerPipeline::Single(_) => panic!("composition must yield a sequence"),
    };
    let flat_cells = match flat.pipeline {
        NormalizerPipeline::Sequence(cells) => cells,
        NormalizerPipeline::Single(_) => panic!("composition must yield a sequence"),
    };
    assert_eq!(nested_cells, flat_cells);
}

#[test]
fn shared_cell_mutation_is_visible_through_both_pipelines() {
    let mut arena = NormalizerArena::new();
    let strip = RbStrip::new(&mut arena, true, true);
    let holder = vec![strip];
    let p1 = RbSequence::new(&holder);
    let p2 = RbSequence::new(&holder);
    assert_eq!(
        p1.normalize_str(&arena, " x ".to_owned()).unwrap(),
        "x"
    );
    assert_eq!(
        p2.normalize_str(&arena, " x ".to_owned()).unwrap(),
        "x"
    );
    // flip one side of the shared stage through the first handle
    holder[0].strip_set_left(&mut arena, false);
    assert!(!holder[0].strip_left(&arena));
    assert!(holder[0].strip_right(&arena));
    // both pipelines see the new configuration
    assert_eq!(
        p1.normalize_str(&arena, " x ".to_owned()).unwrap(),
        " x"
    );
    assert_eq!(
        p2.normalize_str(&arena, " x ".to_owned()).unwrap(),
        " x"
    );
}

#[test]
fn bert_accessors_read_and_write() {
    let mut arena = NormalizerArena::new();
    let bert = RbBertNormalizer::new(&mut arena, true, true, None, true);
    assert!(bert.bert_clean_text(&arena));
    assert!(bert.bert_handle_chinese_chars(&arena));
    assert_eq!(bert.bert_strip_accents(&arena), None);
    assert!(bert.bert_lowercase(&arena));
    bert.bert_set_clean_text(&mut arena, false);
    bert.bert_set_strip_accents(&mut arena, Some(false));
    bert.bert_set_lowercase(&mut arena, false);
    bert.bert_set_handle_chinese_chars(&mut arena, false);
    assert!(!bert.bert_clean_text(&arena));
    assert!(!bert.bert_handle_chinese_chars(&arena));
    assert_eq!(bert.bert_strip_accents(&arena), Some(false));
    assert!(!bert.bert_lowercase(&arena));
    let out = bert.normalize_str(&arena, "ABC".to_owned()).unwrap();
    assert_eq!(out, "ABC");
}

#[test]
fn prepend_accessors_read_and_write() {
    let mut arena = NormalizerArena::new();
    let prepend = RbPrepend::new(&mut arena, "a".to_owned());
    assert_eq!(prepend.prepend_prepend(&arena), "a");
    prepend.prepend_set_prepend(&mut arena, "b".to_owned());
    assert_eq!(prepend.prepend_prepend(&arena), "b");
    assert_eq!(prepend.normalize_str(&arena, "c".to_owned()).unwrap(), "bc");
}

#[test]
fn describe_resolves_every_normalizer_kind() {
    let mut arena = NormalizerArena::new();
    let lower = RbLowercase::new(&mut arena);
    assert_eq!(lower.describe(&arena), NormalizerDescriptor::Lowercase);
    let strip = RbStrip::new(&mut arena, true, true);
    assert_eq!(strip.describe(&arena), NormalizerDescriptor::Strip);
    let replace = RbReplace::new(&mut arena, "a".to_owned(), "b".to_owned()).unwrap();
    assert_eq!(replace.describe(&arena), NormalizerDescriptor::Replace);
    let seq = RbSequence::new(&vec![lower, strip]);
    assert_eq!(seq.describe(&arena), NormalizerDescriptor::Sequence);
}
