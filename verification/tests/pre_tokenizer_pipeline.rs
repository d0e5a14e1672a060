use stage_pipelines::pre_tokenizers::{
    PreTokenizerArena, PreTokenizerDescriptor, RbBertPreTokenizer, RbByteLevel,
    RbCharDelimiterSplit, RbDigits, RbMetaspace, RbPunctuation, RbSequence, RbSplit,
    RbUnicodeScripts, RbWhitespace, RbWhitespaceSplit, SplitBehavior,
};

#[test]
fn whitespace_reports_original_offsets() {
    let mut arena = PreTokenizerArena::new();
    let ws = RbWhitespace::new(&mut arena);
    let out = ws.pre_tokenize_str(&arena, "Hello World".to_owned()).unwrap();
    assert_eq!(
        out,
        vec![("Hello".to_owned(), (0, 5)), ("World".to_owned(), (6, 11))]
    );
}

#[test]
fn empty_sequence_returns_whole_input_span() {
    let arena = PreTokenizerArena::new();
    let empty = RbSequence::new(&Vec::new());
    let out = empty.pre_tokenize_str(&arena, "abc".to_owned()).unwrap();
    assert_eq!(out, vec![("abc".to_owned(), (0, 3))]);
}

#[test]
fn char_delimiter_drops_delimiter_and_empty_pieces() {
    let mut arena = PreTokenizerArena::new();
    let split = RbCharDelimiterSplit::new(&mut arena, '-');
    let out = split.pre_tokenize_str(&arena, "a-b--c".to_owned()).unwrap();
    assert_eq!(
        out,
        vec![
            ("a".to_owned(), (0, 1)),
            ("b".to_owned(), (2, 3)),
            ("c".to_owned(), (5, 6)),
        ]
    );
}

#[test]
fn whitespace_split_drops_all_whitespace() {
    let mut arena = PreTokenizerArena::new();
    let ws = RbWhitespaceSplit::new(&mut arena);
    let out = ws.pre_tokenize_str(&arena, "a  b".to_owned()).unwrap();
    assert_eq!(
        out,
        vec![("a".to_owned(), (0, 1)), ("b".to_owned(), (3, 4))]
    );
}

#[test]
fn punctuation_isolated() {
    let mut arena = PreTokenizerArena::new();
    let p = RbPunctuation::new(&mut arena, SplitBehavior::Isolated);
    let out = p.pre_tokenize_str(&arena, "Hey!".to_owned()).unwrap();
    assert_eq!(
        out,
        vec![("Hey".to_owned(), (0, 3)), ("!".to_owned(), (3, 4))]
    );
}

#[test]
fn bert_pre_tokenizer_splits_words_and_punctuation() {
    let mut arena = PreTokenizerArena::new();
    let b = RbBertPreTokenizer::new(&mut arena);
    let out = b.pre_tokenize_str(&arena, "Hey friend!".to_owned()).unwrap();
    assert_eq!(
        out,
        vec![
            ("Hey".to_owned(), (0, 3)),
            ("friend".to_owned(), (4, 10)),
            ("!".to_owned(), (10, 11)),
        ]
    );
}

#[test]
fn digits_contiguous_runs() {
    let mut arena = PreTokenizerArena::new();
    let d = RbDigits::new(&mut arena, false);
    let out = d.pre_tokenize_str(&arena, "Hey 123 friend!".to_owned()).unwrap();
    assert_eq!(
        out,
        vec![
            ("Hey ".to_owned(), (0, 4)),
            ("123".to_owned(), (4, 7)),
            (" friend!".to_owned(), (7, 15)),
        ]
    );
}

#[test]
fn digits_individual() {
    let mut arena = PreTokenizerArena::new();
    let d = RbDigits::new(&mut arena, true);
    let out = d.pre_tokenize_str(&arena, "a12".to_owned()).unwrap();
    assert_eq!(
        out,
        vec![
            ("a".to_owned(), (0, 1)),
            ("1".to_owned(), (1, 2)),
            ("2".to_owned(), (2, 3)),
        ]
    );
}

#[test]
fn metaspace_marks_word_starts() {
    let mut arena = PreTokenizerArena::new();
    let m = RbMetaspace::new(&mut arena, '\u{2581}', true);
    let out = m.pre_tokenize_str(&arena, "Hey friend".to_owned()).unwrap();
    assert_eq!(
        out,
        vec![
            ("\u{2581}Hey".to_owned(), (0, 3)),
            ("\u{2581}friend".to_owned(), (3, 10)),
        ]
    );
}

#[test]
fn split_on_literal_pattern() {
    let mut arena = PreTokenizerArena::new();
    let s = RbSplit::new(&mut arena, " ".to_owned(), SplitBehavior::Removed, false).unwrap();
    let out = s.pre_tokenize_str(&arena, "a b".to_owned()).unwrap();
    assert_eq!(
        out,
        vec![("a".to_owned(), (0, 1)), ("b".to_owned(), (2, 3))]
    );
}

#[test]
fn unicode_scripts_cuts_at_script_change() {
    let mut arena = PreTokenizerArena::new();
    let u = RbUnicodeScripts::new(&mut arena);
    let out = u
        .pre_tokenize_str(&arena, "\u{3053}\u{3093}hello".to_owned())
        .unwrap();
    assert_eq!(
        out,
        vec![
            ("\u{3053}\u{3093}".to_owned(), (0, 2)),
            ("hello".to_owned(), (2, 7)),
        ]
    );
}

#[test]
fn byte_level_marks_leading_spaces() {
    let mut arena = PreTokenizerArena::new();
    let b = RbByteLevel::new(&mut arena, true, true);
    let out = b.pre_tokenize_str(&arena, "Hello there".to_owned()).unwrap();
    assert_eq!(out.len(), 2);
    assert_eq!(out[0].0, "\u{120}Hello");
    assert_eq!(out[1].0, "\u{120}there");
    assert_eq!(out[0].1, (0, 5));
    assert_eq!(out[1].1, (5, 11));
}

#[test]
fn byte_level_alphabet_covers_every_byte() {
    assert_eq!(RbByteLevel::alphabet().len(), 256);
}

#[test]
fn chained_stages_keep_offsets_relative_to_original_input() {
    let mut arena = PreTokenizerArena::new();
    let ws = RbWhitespaceSplit::new(&mut arena);
    let d = RbDigits::new(&mut arena, true);
    let seq = RbSequence::new(&vec![ws, d]);
    let out = seq.pre_tokenize_str(&arena, "ab 12".to_owned()).unwrap();
    assert_eq!(
        out,
        vec![
            ("ab".to_owned(), (0, 2)),
            ("1".to_owned(), (3, 4)),
            ("2".to_owned(), (4, 5)),
        ]
    );
}

#[test]
fn byte_level_accessors_read_and_write() {
    let mut arena = PreTokenizerArena::new();
    let b = RbByteLevel::new(&mut arena, true, true);
    assert!(b.byte_level_add_prefix_space(&arena));
    assert!(b.byte_level_use_regex(&arena));
    b.byte_level_set_add_prefix_space(&mut arena, false);
    b.byte_level_set_use_regex(&mut arena, false);
    assert!(!b.byte_level_add_prefix_space(&arena));
    assert!(!b.byte_level_use_regex(&arena));
}

#[test]
fn delimiter_and_metaspace_accessors() {
    let mut arena = PreTokenizerArena::new();
    let c = RbCharDelimiterSplit::new(&mut arena, '-');
    assert_eq!(c.char_delimiter_split_delimiter(&arena), "-");
    c.char_delimiter_split_set_delimiter(&mut arena, '+');
    assert_eq!(c.char_delimiter_split_delimiter(&arena), "+");
    let m = RbMetaspace::new(&mut arena, '\u{2581}', false);
    assert_eq!(m.metaspace_replacement(&arena), "\u{2581}");
    assert!(!m.metaspace_add_prefix_space(&arena));
    m.metaspace_set_replacement(&mut arena, '_');
    m.metaspace_set_add_prefix_space(&mut arena, true);
    assert_eq!(m.metaspace_replacement(&arena), "_");
    assert!(m.metaspace_add_prefix_space(&arena));
    let d = RbDigits::new(&mut arena, false);
    assert!(!d.digits_individual_digits(&arena));
    d.digits_set_individual_digits(&mut arena, true);
    assert!(d.digits_individual_digits(&arena));
}

#[test]
fn describe_resolves_every_pre_tokenizer_kind() {
    let mut arena = PreTokenizerArena::new();
    let ws = RbWhitespace::new(&mut arena);
    assert_eq!(ws.describe(&arena), PreTokenizerDescriptor::Whitespace);
    let b = RbByteLevel::new(&mut arena, true, false);
    assert_eq!(b.describe(&arena), PreTokenizerDescriptor::ByteLevel);
    let seq = RbSequence::new(&vec![ws, b]);
    assert_eq!(seq.describe(&arena), PreTokenizerDescriptor::Sequence);
}
