//! The structural interchange form.
//!
//! A pipeline is exchanged as a `Value`: a single stage as a flat object
//! holding exactly its variant's field set, a sequence as an object carrying
//! the `"type": "Sequence"` discriminator next to the ordered list of its
//! encoded member stages. Decoding resolves a tag-less object by matching its
//! field shape against the family's signature table in a fixed priority
//! order.

use vstd::prelude::*;

verus! {

broadcast use vstd::std_specs::vec::axiom_vec_index_decreases;

/// A structural interchange value.
#[derive(Debug, PartialEq)]
pub enum Value {
    /// An absent optional field.
    Null,
    /// A boolean field.
    Bool(bool),
    /// A textual field; characters travel as one-character strings.
    Str(String),
    /// An ordered list, as in a sequence's stage list.
    List(Vec<Value>),
    /// An object: named fields in writing order.
    Obj(Vec<(String, Value)>),
}

/// The mathematical image of a `Value`.
pub enum ValueSpec {
    /// Image of `Value::Null`.
    Null,
    /// Image of `Value::Bool`.
    Bool(bool),
    /// Image of `Value::Str`.
    Str(Seq<char>),
    /// Image of `Value::List`.
    List(Seq<ValueSpec>),
    /// Image of `Value::Obj`.
    Obj(Seq<(Seq<char>, ValueSpec)>),
}

impl View for Value {
    type V = ValueSpec;

    open spec fn view(&self) -> ValueSpec
        decreases self, 0int,
    {
        match self {
            Value::Null => ValueSpec::Null,
            Value::Bool(b) => ValueSpec::Bool(*b),
            Value::Str(s) => ValueSpec::Str(s@),
            Value::List(items) => ValueSpec::List(list_view_from(items, 0)),
            Value::Obj(fields) => ValueSpec::Obj(obj_view_from(fields, 0)),
        }
    }
}

/// The images of the list elements from position `i` on.
pub open spec fn list_view_from(items: &Vec<Value>, i: int) -> Seq<ValueSpec>
    decreases *items, items@.len() - i,
{
    if i < 0 || i >= items@.len() {
        Seq::empty()
    } else {
        seq![items@[i]@] + list_view_from(items, i + 1)
    }
}

/// The images of the object's fields from position `i` on.
pub open spec fn obj_view_from(fields: &Vec<(String, Value)>, i: int) -> Seq<(Seq<char>, ValueSpec)>
    decreases *fields, fields@.len() - i,
{
    if i < 0 || i >= fields@.len() {
        Seq::empty()
    } else {
        seq![(fields@[i].0@, fields@[i].1@)] + obj_view_from(fields, i + 1)
    }
}

/// The image of a whole list of values.
pub open spec fn list_view(items: &Vec<Value>) -> Seq<ValueSpec> {
    list_view_from(items, 0)
}

/// The image of a whole field list.
pub open spec fn obj_view(fields: &Vec<(String, Value)>) -> Seq<(Seq<char>, ValueSpec)> {
    obj_view_from(fields, 0)
}

/// `list_view_from` enumerates exactly the element images.
pub proof fn lemma_list_view_from(items: &Vec<Value>, i: int)
    requires
        0 <= i <= items@.len(),
    ensures
        list_view_from(items, i).len() == items@.len() - i,
        forall|j: int|
            i <= j < items@.len() ==> list_view_from(items, i)[j - i] == #[trigger] items@[j]@,
    decreases items@.len() - i,
{
    if i < items@.len() {
        lemma_list_view_from(items, i + 1);
        assert(list_view_from(items, i) == seq![items@[i]@] + list_view_from(items, i + 1));
        assert forall|j: int|
            i <= j < items@.len() implies list_view_from(items, i)[j - i] == #[trigger] items@[j]@ by {
            if j == i {
                assert(list_view_from(items, i)[0] == items@[i]@);
            } else {
                assert(list_view_from(items, i)[j - i] == list_view_from(items, i + 1)[j - i - 1]);
            }
        }
    }
}

/// `obj_view_from` enumerates exactly the field images.
pub proof fn lemma_obj_view_from(fields: &Vec<(String, Value)>, i: int)
    requires
        0 <= i <= fields@.len(),
    ensures
        obj_view_from(fields, i).len() == fields@.len() - i,
        forall|j: int|
            i <= j < fields@.len() ==> obj_view_from(fields, i)[j - i] == (
            #[trigger] fields@[j].0@,
            fields@[j].1@,
            ),
    decreases fields@.len() - i,
{
    if i < fields@.len() {
        lemma_obj_view_from(fields, i + 1);
        assert(obj_view_from(fields, i) == seq![(fields@[i].0@, fields@[i].1@)] + obj_view_from(
            fields,
            i + 1,
        ));
        assert forall|j: int|
            i <= j < fields@.len() implies obj_view_from(fields, i)[j - i] == (
            #[trigger] fields@[j].0@,
            fields@[j].1@,
            ) by {
            if j == i {
                assert(obj_view_from(fields, i)[0] == (fields@[i].0@, fields@[i].1@));
            } else {
                assert(obj_view_from(fields, i)[j - i] == obj_view_from(fields, i + 1)[j - i - 1]);
            }
        }
    }
}

/// The known field names of both stage families' interchange signatures.
/// Any other name maps to `Unknown` and matches no signature.
#[derive(Clone, Copy, Debug, PartialEq, Eq, Structural)]
pub enum FieldKey {
    /// The `"type"` discriminator carried by encoded sequences.
    TypeTag,
    /// The `"normalizers"` stage list of an encoded normalizer sequence.
    Normalizers,
    /// The `"pretokenizers"` stage list of an encoded pre-tokenizer sequence.
    PreTokenizers,
    /// `"clean_text"`.
    CleanText,
    /// `"handle_chinese_chars"`.
    HandleChineseChars,
    /// `"strip_accents"`.
    StripAccents,
    /// `"lowercase"`.
    Lowercase,
    /// `"pattern"`.
    Pattern,
    /// `"content"`.
    Content,
    /// `"prepend"`.
    Prepend,
    /// `"strip_left"`.
    StripLeft,
    /// `"strip_right"`.
    StripRight,
    /// `"add_prefix_space"`.
    AddPrefixSpace,
    /// `"use_regex"`.
    UseRegex,
    /// `"delimiter"`.
    Delimiter,
    /// `"individual_digits"`.
    IndividualDigits,
    /// `"replacement"`.
    Replacement,
    /// `"behavior"`.
    Behavior,
    /// `"invert"`.
    Invert,
    /// Any name outside the signature tables.
    Unknown,
}

/// Which known field a name denotes.
pub open spec fn fid(name: Seq<char>) -> FieldKey {
    if name == "type"@ {
        FieldKey::TypeTag
    } else if name == "normalizers"@ {
        FieldKey::Normalizers
    } else if name == "pretokenizers"@ {
        FieldKey::PreTokenizers
    } else if name == "clean_text"@ {
        FieldKey::CleanText
    } else if name == "handle_chinese_chars"@ {
        FieldKey::HandleChineseChars
    } else if name == "strip_accents"@ {
        FieldKey::StripAccents
    } else if name == "lowercase"@ {
        FieldKey::Lowercase
    } else if name == "pattern"@ {
        FieldKey::Pattern
    } else if name == "content"@ {
        FieldKey::Content
    } else if name == "prepend"@ {
        FieldKey::Prepend
    } else if name == "strip_left"@ {
        FieldKey::StripLeft
    } else if name == "strip_right"@ {
        FieldKey::StripRight
    } else if name == "add_prefix_space"@ {
        FieldKey::AddPrefixSpace
    } else if name == "use_regex"@ {
        FieldKey::UseRegex
    } else if name == "delimiter"@ {
        FieldKey::Delimiter
    } else if name == "individual_digits"@ {
        FieldKey::IndividualDigits
    } else if name == "replacement"@ {
        FieldKey::Replacement
    } else if name == "behavior"@ {
        FieldKey::Behavior
    } else if name == "invert"@ {
        FieldKey::Invert
    } else {
        FieldKey::Unknown
    }
}

/// Which known field a name denotes.
pub fn field_key(name: &String) -> (k: FieldKey)
    ensures
        k == fid(name@),
{
    if *name == "type".to_owned() {
        FieldKey::TypeTag
    } else if *name == "normalizers".to_owned() {
        FieldKey::Normalizers
    } else if *name == "pretokenizers".to_owned() {
        FieldKey::PreTokenizers
    } else if *name == "clean_text".to_owned() {
        FieldKey::CleanText
    } else if *name == "handle_chinese_chars".to_owned() {
        FieldKey::HandleChineseChars
    } else if *name == "strip_accents".to_owned() {
        FieldKey::StripAccents
    } else if *name == "lowercase".to_owned() {
        FieldKey::Lowercase
    } else if *name == "pattern".to_owned() {
        FieldKey::Pattern
    } else if *name == "content".to_owned() {
        FieldKey::Content
    } else if *name == "prepend".to_owned() {
        FieldKey::Prepend
    } else if *name == "strip_left".to_owned() {
        FieldKey::StripLeft
    } else if *name == "strip_right".to_owned() {
        FieldKey::StripRight
    } else if *name == "add_prefix_space".to_owned() {
        FieldKey::AddPrefixSpace
    } else if *name == "use_regex".to_owned() {
        FieldKey::UseRegex
    } else if *name == "delimiter".to_owned() {
        FieldKey::Delimiter
    } else if *name == "individual_digits".to_owned() {
        FieldKey::IndividualDigits
    } else if *name == "replacement".to_owned() {
        FieldKey::Replacement
    } else if *name == "behavior".to_owned() {
        FieldKey::Behavior
    } else if *name == "invert".to_owned() {
        FieldKey::Invert
    } else {
        FieldKey::Unknown
    }
}

/// The value of the first field whose name denotes `k`, if any.
pub open spec fn obj_lookup(fields: Seq<(Seq<char>, ValueSpec)>, k: FieldKey) -> Option<ValueSpec>
    decreases fields.len(),
{
    if fields.len() == 0 {
        None
    } else if fid(fields.first().0) == k {
        Some(fields.first().1)
    } else {
        obj_lookup(fields.drop_first(), k)
    }
}

/// Whether the object carries a field denoting `k`.
pub open spec fn obj_has(fields: Seq<(Seq<char>, ValueSpec)>, k: FieldKey) -> bool {
    obj_lookup(fields, k) is Some
}

/// Whether every field name of the object denotes one of the allowed keys.
pub open spec fn obj_within(obj: Seq<(Seq<char>, ValueSpec)>, allowed: Seq<FieldKey>) -> bool {
    forall|i: int| 0 <= i < obj.len() ==> allowed.contains(fid(#[trigger] obj[i].0))
}

/// Whether the object carries every one of the required keys.
pub open spec fn sig_has_all(obj: Seq<(Seq<char>, ValueSpec)>, req: Seq<FieldKey>) -> bool {
    forall|i: int| 0 <= i < req.len() ==> obj_has(obj, #[trigger] req[i])
}

/// Look up the first field whose name denotes `k`.
pub fn lookup_field<'a>(fields: &'a Vec<(String, Value)>, k: FieldKey) -> (r: Option<&'a Value>)
    ensures
        r matches Some(v) ==> obj_lookup(obj_view(fields), k) == Some(v@),
        r is None ==> obj_lookup(obj_view(fields), k) is None,
{
    proof {
        lemma_obj_view_from(fields, 0);
    }
    let ghost obj = obj_view(fields);
    proof {
        assert(obj.skip(0) =~= obj);
    }
    let mut i: usize = 0;
    while i < fields.len()
        invariant
            i <= fields.len(),
            obj == obj_view(fields),
            obj.len() == fields@.len(),
            forall|j: int| 0 <= j < obj.len() ==> #[trigger] obj[j] == (fields@[j].0@, fields@[j].1@),
            obj_lookup(obj, k) == obj_lookup(obj.skip(i as int), k),
        decreases fields.len() - i,
    {
        let fk = field_key(&fields[i].0);
        proof {
            assert(obj.skip(i as int).first() == obj[i as int]);
            assert(obj.skip(i as int).drop_first() =~= obj.skip(i as int + 1));
        }
        if fk == k {
            return Some(&fields[i].1);
        }
        i = i + 1;
    }
    proof {
        assert(obj.skip(fields@.len() as int) =~= Seq::<(Seq<char>, ValueSpec)>::empty());
    }
    None
}

/// The position of the first field whose name denotes `k`.
pub fn lookup_index(fields: &Vec<(String, Value)>, k: FieldKey) -> (r: Option<usize>)
    ensures
        r matches Some(i) ==> i < fields@.len() && obj_lookup(obj_view(fields), k) == Some(
            fields@[i as int].1@,
        ),
        r is None ==> obj_lookup(obj_view(fields), k) is None,
{
    proof {
        lemma_obj_view_from(fields, 0);
    }
    let ghost obj = obj_view(fields);
    proof {
        assert(obj.skip(0) =~= obj);
    }
    let mut i: usize = 0;
    while i < fields.len()
        invariant
            i <= fields.len(),
            obj == obj_view(fields),
            obj.len() == fields@.len(),
            forall|j: int| 0 <= j < obj.len() ==> #[trigger] obj[j] == (fields@[j].0@, fields@[j].1@),
            obj_lookup(obj, k) == obj_lookup(obj.skip(i as int), k),
        decreases fields.len() - i,
    {
        let fk = field_key(&fields[i].0);
        proof {
            assert(obj.skip(i as int).first() == obj[i as int]);
            assert(obj.skip(i as int).drop_first() =~= obj.skip(i as int + 1));
        }
        if fk == k {
            return Some(i);
        }
        i = i + 1;
    }
    proof {
        assert(obj.skip(fields@.len() as int) =~= Seq::<(Seq<char>, ValueSpec)>::empty());
    }
    None
}

/// Whether `k` is one of the listed keys.
pub fn key_in(keys: &Vec<FieldKey>, k: FieldKey) -> (r: bool)
    ensures
        r == keys@.contains(k),
{
    let mut i: usize = 0;
    while i < keys.len()
        invariant
            i <= keys.len(),
            forall|j: int| 0 <= j < i ==> keys@[j] != k,
        decreases keys.len() - i,
    {
        if keys[i] == k {
            return true;
        }
        i = i + 1;
    }
    false
}

/// Whether every field name of the object denotes one of the allowed keys.
pub fn fields_within(fields: &Vec<(String, Value)>, allowed: &Vec<FieldKey>) -> (r: bool)
    ensures
        r == obj_within(obj_view(fields), allowed@),
{
    proof {
        lemma_obj_view_from(fields, 0);
    }
    let ghost obj = obj_view(fields);
    let mut i: usize = 0;
    while i < fields.len()
        invariant
            i <= fields.len(),
            obj == obj_view(fields),
            obj.len() == fields@.len(),
            forall|j: int| 0 <= j < obj.len() ==> #[trigger] obj[j] == (fields@[j].0@, fields@[j].1@),
            forall|j: int| 0 <= j < i ==> allowed@.contains(fid(#[trigger] obj[j].0)),
        decreases fields.len() - i,
    {
        let fk = field_key(&fields[i].0);
        if !key_in(allowed, fk) {
            proof {
                assert(!allowed@.contains(fid(obj[i as int].0)));
            }
            return false;
        }
        i = i + 1;
    }
    true
}

/// Looking up a key finds the first field denoting it.
pub proof fn lemma_obj_lookup_at(obj: Seq<(Seq<char>, ValueSpec)>, k: FieldKey, i: int)
    requires
        0 <= i < obj.len(),
        fid(obj[i].0) == k,
        forall|j: int| 0 <= j < i ==> fid(#[trigger] obj[j].0) != k,
    ensures
        obj_lookup(obj, k) == Some(obj[i].1),
    decreases i,
{
    if i == 0 {
        assert(obj.first() == obj[0]);
    } else {
        assert(obj.first() == obj[0]);
        lemma_obj_lookup_at(obj.drop_first(), k, i - 1);
        assert(obj.drop_first()[i - 1] == obj[i]);
        assert forall|j: int| 0 <= j < i - 1 implies fid(#[trigger] obj.drop_first()[j].0) != k by {
            assert(obj.drop_first()[j] == obj[j + 1]);
        }
    }
}

/// Looking up a key no field denotes finds nothing.
pub proof fn lemma_obj_lookup_none(obj: Seq<(Seq<char>, ValueSpec)>, k: FieldKey)
    requires
        forall|j: int| 0 <= j < obj.len() ==> fid(#[trigger] obj[j].0) != k,
    ensures
        obj_lookup(obj, k) is None,
    decreases obj.len(),
{
    if obj.len() > 0 {
        assert(obj.first() == obj[0]);
        assert forall|j: int|
            0 <= j < obj.drop_first().len() implies fid(
            #[trigger] obj.drop_first()[j].0,
        ) != k by {
            assert(obj.drop_first()[j] == obj[j + 1]);
        }
        lemma_obj_lookup_none(obj.drop_first(), k);
    }
}

/// A one-key list misses every other key.
pub proof fn lemma_not_in1(a: FieldKey, k: FieldKey)
    requires
        k != a,
    ensures
        !seq![a].contains(k),
{
    assert forall|i: int| 0 <= i < 1 implies seq![a][i] != k by {
        assert(seq![a][0] == a);
    }
}

/// A two-key list misses every other key.
pub proof fn lemma_not_in2(a: FieldKey, b: FieldKey, k: FieldKey)
    requires
        k != a,
        k != b,
    ensures
        !seq![a, b].contains(k),
{
    assert forall|i: int| 0 <= i < 2 implies seq![a, b][i] != k by {
        assert(seq![a, b][0] == a);
        assert(seq![a, b][1] == b);
    }
}

/// A three-key list misses every other key.
pub proof fn lemma_not_in3(a: FieldKey, b: FieldKey, c: FieldKey, k: FieldKey)
    requires
        k != a,
        k != b,
        k != c,
    ensures
        !seq![a, b, c].contains(k),
{
    assert forall|i: int| 0 <= i < 3 implies seq![a, b, c][i] != k by {
        assert(seq![a, b, c][0] == a);
        assert(seq![a, b, c][1] == b);
        assert(seq![a, b, c][2] == c);
    }
}

/// Read a boolean payload.
pub fn as_bool(v: &Value) -> (r: Option<bool>)
    ensures
        v@ matches ValueSpec::Bool(b) ==> r == Some(b),
        !(v@ is Bool) ==> r is None,
{
    match v {
        Value::Bool(b) => Some(*b),
        _ => None,
    }
}

/// Read a textual payload, copied out.
pub fn as_text(v: &Value) -> (r: Option<String>)
    ensures
        r matches Some(s) ==> v@ matches ValueSpec::Str(t) && s@ == t,
        r is None ==> !(v@ is Str),
{
    match v {
        Value::Str(s) => Some(s.clone()),
        _ => None,
    }
}

} // verus!
