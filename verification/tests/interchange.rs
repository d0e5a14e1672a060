use stage_pipelines::codec::Value;
use stage_pipelines::errors::DecodeError;
use stage_pipelines::normalizers::{
    decode_normalizer, NormalizerArena, NormalizerDescriptor, RbBertNormalizer, RbReplace,
    RbSequence, RbStrip, RbStripAccents,
};
use stage_pipelines::pre_tokenizers::{
    decode_pre_tokenizer, PreTokenizerArena, PreTokenizerDescriptor, RbCharDelimiterSplit,
    RbDigits, RbMetaspace, RbPunctuation, RbSplit, SplitBehavior,
};

#[test]
fn untagged_delimiter_shape_resolves_to_char_delimiter_split() {
    let value = Value::Obj(vec![("delimiter".to_owned(), Value::Str("-".to_owned()))]);
    let mut arena = PreTokenizerArena::new();
    let decoded = decode_pre_tokenizer(&mut arena, &value).unwrap();
    assert_eq!(
        decoded.describe(&arena),
        PreTokenizerDescriptor::CharDelimiterSplit
    );
    assert_eq!(decoded.char_delimiter_split_delimiter(&arena), "-");
}

#[test]
fn bert_normalizer_round_trip() {
    let mut arena = NormalizerArena::new();
    let bert = RbBertNormalizer::new(&mut arena, true, false, Some(true), false);
    let value = bert.encode(&arena);
    let mut arena2 = NormalizerArena::new();
    let back = decode_normalizer(&mut arena2, &value).unwrap();
    assert_eq!(back.describe(&arena2), NormalizerDescriptor::BertNormalizer);
    assert!(back.bert_clean_text(&arena2));
    assert!(!back.bert_handle_chinese_chars(&arena2));
    assert_eq!(back.bert_strip_accents(&arena2), Some(true));
    assert!(!back.bert_lowercase(&arena2));
    assert_eq!(back.encode(&arena2), value);
}

#[test]
fn replace_round_trip_keeps_behaviour() {
    let mut arena = NormalizerArena::new();
    let replace = RbReplace::new(&mut arena, "a".to_owned(), "e".to_owned()).unwrap();
    let value = replace.encode(&arena);
    let mut arena2 = NormalizerArena::new();
    let back = decode_normalizer(&mut arena2, &value).unwrap();
    assert_eq!(back.describe(&arena2), NormalizerDescriptor::Replace);
    assert_eq!(
        back.normalize_str(&arena2, "banana".to_owned()).unwrap(),
        "benene"
    );
}

#[test]
fn normalizer_sequence_round_trip() {
    let mut arena = NormalizerArena::new();
    let strip = RbStrip::new(&mut arena, true, false);
    let sa = RbStripAccents::new(&mut arena);
    let seq = RbSequence::new(&vec![strip, sa]);
    let value = seq.encode(&arena);
    let mut arena2 = NormalizerArena::new();
    let back = decode_normalizer(&mut arena2, &value).unwrap();
    assert_eq!(back.describe(&arena2), NormalizerDescriptor::Sequence);
    assert_eq!(back.encode(&arena2), value);
    assert_eq!(
        back.normalize_str(&arena2, " hi".to_owned()).unwrap(),
        "hi"
    );
}

#[test]
fn nested_serialized_sequences_flatten_on_load() {
    let mut arena = NormalizerArena::new();
    let strip = RbStrip::new(&mut arena, true, false);
    let sa = RbStripAccents::new(&mut arena);
    let inner = RbSequence::new(&vec![strip, sa]).encode(&arena);
    let outer = Value::Obj(vec![
        ("type".to_owned(), Value::Str("Sequence".to_owned())),
        ("normalizers".to_owned(), Value::List(vec![inner])),
    ]);
    let mut arena2 = NormalizerArena::new();
    let back = decode_normalizer(&mut arena2, &outer).unwrap();
    // the nested sequence was flattened into one flat two-stage sequence
    let mut arena3 = NormalizerArena::new();
    let strip3 = RbStrip::new(&mut arena3, true, false);
    let sa3 = RbStripAccents::new(&mut arena3);
    let flat = RbSequence::new(&vec![strip3, sa3]);
    assert_eq!(back.encode(&arena2), flat.encode(&arena3));
}

#[test]
fn pre_tokenizer_round_trips() {
    let mut arena = PreTokenizerArena::new();
    let m = RbMetaspace::new(&mut arena, '\u{2581}', true);
    let value = m.encode(&arena);
    let mut arena2 = PreTokenizerArena::new();
    let back = decode_pre_tokenizer(&mut arena2, &value).unwrap();
    assert_eq!(back.describe(&arena2), PreTokenizerDescriptor::Metaspace);
    assert_eq!(back.encode(&arena2), value);

    let p = RbPunctuation::new(&mut arena, SplitBehavior::MergedWithNext);
    let pv = p.encode(&arena);
    let mut arena3 = PreTokenizerArena::new();
    let pback = decode_pre_tokenizer(&mut arena3, &pv).unwrap();
    assert_eq!(pback.describe(&arena3), PreTokenizerDescriptor::Punctuation);
    assert_eq!(pback.encode(&arena3), pv);

    let s = RbSplit::new(&mut arena, "-".to_owned(), SplitBehavior::Isolated, true).unwrap();
    let sv = s.encode(&arena);
    let mut arena4 = PreTokenizerArena::new();
    let sback = decode_pre_tokenizer(&mut arena4, &sv).unwrap();
    assert_eq!(sback.describe(&arena4), PreTokenizerDescriptor::Split);
    assert_eq!(sback.encode(&arena4), sv);

    let d = RbDigits::new(&mut arena, true);
    let dv = d.encode(&arena);
    let mut arena5 = PreTokenizerArena::new();
    let dback = decode_pre_tokenizer(&mut arena5, &dv).unwrap();
    assert_eq!(dback.describe(&arena5), PreTokenizerDescriptor::Digits);
    assert_eq!(dback.encode(&arena5), dv);

    let c = RbCharDelimiterSplit::new(&mut arena, '-');
    let cv = c.encode(&arena);
    let mut arena6 = PreTokenizerArena::new();
    let cback = decode_pre_tokenizer(&mut arena6, &cv).unwrap();
    assert_eq!(
        cback.describe(&arena6),
        PreTokenizerDescriptor::CharDelimiterSplit
    );
    assert_eq!(cback.encode(&arena6), cv);
}

#[test]
fn decoding_a_non_object_fails() {
    let mut arena = NormalizerArena::new();
    let err = decode_normalizer(&mut arena, &Value::Bool(true)).unwrap_err();
    assert_eq!(err, DecodeError::NotAnObject);
}

#[test]
fn unknown_field_shape_matches_nothing() {
    let value = Value::Obj(vec![("volume".to_owned(), Value::Bool(true))]);
    let mut arena = NormalizerArena::new();
    let err = decode_normalizer(&mut arena, &value).unwrap_err();
    assert_eq!(err, DecodeError::NoMatch);
}

#[test]
fn matching_shape_with_wrong_value_kind_fails() {
    let value = Value::Obj(vec![("delimiter".to_owned(), Value::Bool(true))]);
    let mut arena = PreTokenizerArena::new();
    let err = decode_pre_tokenizer(&mut arena, &value).unwrap_err();
    assert_eq!(err, DecodeError::BadField);
}

#[test]
fn sequence_tag_without_stage_list_fails() {
    let value = Value::Obj(vec![("type".to_owned(), Value::Str("Sequence".to_owned()))]);
    let mut arena = NormalizerArena::new();
    let err = decode_normalizer(&mut arena, &value).unwrap_err();
    assert_eq!(err, DecodeError::BadSequence);
}

#[test]
fn empty_object_resolves_by_priority_order() {
    let value = Value::Obj(Vec::new());
    let mut arena = NormalizerArena::new();
    let back = decode_normalizer(&mut arena, &value).unwrap();
    assert_eq!(back.describe(&arena), NormalizerDescriptor::StripAccents);
    let mut pt_arena = PreTokenizerArena::new();
    let pt_back = decode_pre_tokenizer(&mut pt_arena, &value).unwrap();
    assert_eq!(
        pt_back.describe(&pt_arena),
        PreTokenizerDescriptor::BertPreTokenizer
    );
}

#[test]
fn strip_encodes_exactly_its_fields() {
    let mut arena = NormalizerArena::new();
    let strip = RbStrip::new(&mut arena, true, false);
    let value = strip.encode(&arena);
    assert_eq!(
        value,
        Value::Obj(vec![
            ("strip_left".to_owned(), Value::Bool(true)),
            ("strip_right".to_owned(), Value::Bool(false)),
        ])
    );
}
