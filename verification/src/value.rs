//! Schema-less document values.
//!
//! A document is a structured record: null, a boolean, an integer, text, a
//! list, or an object holding named fields.  Scalar numeric fields (epoch
//! timestamps, fixed-point similarity scores and embedding components) are
//! held as `i64`.  The mathematical model of a value is [`ValModel`], in
//! which text is a sequence of characters and lists and objects are
//! sequences.

use vstd::prelude::*;

verus! {

/// The mathematical model of a document value.
pub enum ValModel {
    Null,
    Bool(bool),
    Int(int),
    Text(Seq<char>),
    List(Seq<ValModel>),
    Object(Seq<(Seq<char>, ValModel)>),
}

/// A document value.
#[derive(Debug, PartialEq)]
pub enum Value {
    Null,
    Bool(bool),
    Int(i64),
    Text(String),
    List(Vec<Value>),
    Object(Vec<(String, Value)>),
}

/// The model of a document value.
pub open spec fn val_model(v: Value) -> ValModel
    decreases v via val_model_decreases
{
    match v {
        Value::Null => ValModel::Null,
        Value::Bool(b) => ValModel::Bool(b),
        Value::Int(i) => ValModel::Int(i as int),
        Value::Text(s) => ValModel::Text(s@),
        Value::List(vs) => ValModel::List(list_models(vs@)),
        Value::Object(fs) => ValModel::Object(field_models(fs@)),
    }
}

/// The models of the elements of a list.
pub open spec fn list_models(s: Seq<Value>) -> Seq<ValModel>
    decreases s, s.len(),
{
    if s.len() == 0 {
        Seq::empty()
    } else {
        seq![val_model(s[0])] + list_models(s.skip(1))
    }
}

/// The models of the fields of an object.
pub open spec fn field_models(s: Seq<(String, Value)>) -> Seq<(Seq<char>, ValModel)>
    decreases s, s.len(),
{
    if s.len() == 0 {
        Seq::empty()
    } else {
        seq![(s[0].0@, val_model(s[0].1))] + field_models(s.skip(1))
    }
}

#[via_fn]
proof fn val_model_decreases(v: Value) {
    match v {
        Value::List(vs) => {
            assert(decreases_to!(v => vs));
            assert(decreases_to!(vs => vs@));
        },
        Value::Object(fs) => {
            assert(decreases_to!(v => fs));
            assert(decreases_to!(fs => fs@));
        },
        _ => {},
    }
}

impl View for Value {
    type V = ValModel;

    open spec fn view(&self) -> ValModel {
        val_model(*self)
    }
}

/// `list_models` maps the sequence element by element.
pub proof fn lemma_list_models(s: Seq<Value>)
    ensures
        list_models(s).len() == s.len(),
        forall|i: int| 0 <= i < s.len() ==> list_models(s)[i] == val_model(s[i]),
    decreases s.len(),
{
    if s.len() > 0 {
        lemma_list_models(s.skip(1));
    }
}

/// `field_models` maps the field list element by element.
pub proof fn lemma_field_models(s: Seq<(String, Value)>)
    ensures
        field_models(s).len() == s.len(),
        forall|i: int| 0 <= i < s.len() ==> field_models(s)[i] == (s[i].0@, val_model(s[i].1)),
    decreases s.len(),
{
    if s.len() > 0 {
        lemma_field_models(s.skip(1));
    }
}

/// Appending a list element appends its model.
pub proof fn lemma_list_models_push(s: Seq<Value>, v: Value)
    ensures
        list_models(s.push(v)) == list_models(s).push(val_model(v)),
    decreases s.len(),
{
    if s.len() == 0 {
        assert(s.push(v).skip(1) =~= Seq::<Value>::empty());
        assert(s.push(v)[0] == v);
        assert(list_models(s.push(v).skip(1)) =~= Seq::<ValModel>::empty());
        assert(list_models(s.push(v)) =~= list_models(s).push(val_model(v)));
    } else {
        lemma_list_models_push(s.skip(1), v);
        assert(s.push(v).skip(1) =~= s.skip(1).push(v));
        assert(list_models(s.push(v)) =~= list_models(s).push(val_model(v)));
    }
}

/// Appending an object field appends its model.
pub proof fn lemma_field_models_push(s: Seq<(String, Value)>, f: (String, Value))
    ensures
        field_models(s.push(f)) == field_models(s).push((f.0@, val_model(f.1))),
    decreases s.len(),
{
    if s.len() == 0 {
        assert(s.push(f).skip(1) =~= Seq::<(String, Value)>::empty());
        assert(s.push(f)[0] == f);
        assert(field_models(s.push(f).skip(1)) =~= Seq::<(Seq<char>, ValModel)>::empty());
        assert(field_models(s.push(f)) =~= field_models(s).push((f.0@, val_model(f.1))));
    } else {
        lemma_field_models_push(s.skip(1), f);
        assert(s.push(f).skip(1) =~= s.skip(1).push(f));
        assert(field_models(s.push(f)) =~= field_models(s).push((f.0@, val_model(f.1))));
    }
}

/// The value of the first field named `key` in an object's field list,
/// if any.
pub open spec fn fields_get(fields: Seq<(Seq<char>, ValModel)>, key: Seq<char>) -> Option<ValModel>
    decreases fields.len(),
{
    if fields.len() == 0 {
        None
    } else if fields[0].0 == key {
        Some(fields[0].1)
    } else {
        fields_get(fields.skip(1), key)
    }
}

/// The field list with the first field named `key` replaced by `val`, or with
/// `(key, val)` appended when no field of that name exists.
pub open spec fn fields_set(
    fields: Seq<(Seq<char>, ValModel)>,
    key: Seq<char>,
    val: ValModel,
) -> Seq<(Seq<char>, ValModel)>
    decreases fields.len(),
{
    if fields.len() == 0 {
        seq![(key, val)]
    } else if fields[0].0 == key {
        seq![(key, val)] + fields.skip(1)
    } else {
        seq![fields[0]] + fields_set(fields.skip(1), key, val)
    }
}

/// The value of field `key` of a document, when the document is an object
/// holding such a field.
pub open spec fn doc_get(doc: ValModel, key: Seq<char>) -> Option<ValModel> {
    match doc {
        ValModel::Object(fields) => fields_get(fields, key),
        _ => None,
    }
}

/// The document with field `key` set to `val`; only objects can be updated.
pub open spec fn doc_set(doc: ValModel, key: Seq<char>, val: ValModel) -> ValModel {
    match doc {
        ValModel::Object(fields) => ValModel::Object(fields_set(fields, key, val)),
        _ => doc,
    }
}

impl Value {
    /// Whether this value is an object.
    pub fn is_object(&self) -> (r: bool)
        ensures
            r == (self@ is Object),
    {
        match self {
            Value::Object(_) => true,
            _ => false,
        }
    }

    /// Look up a field of an object; `None` on non-objects and missing fields.
    #[verifier::loop_isolation(false)]
    pub fn get(&self, key: &str) -> (r: Option<&Value>)
        ensures
            match r {
                Some(v) => doc_get(self@, key@) == Some(v@),
                None => doc_get(self@, key@) is None,
            },
    {
        match self {
            Value::Object(fields) => {
                let k: String = key.to_owned();
                let n = fields.len();
                let mut i: usize = 0;
                while i < n
                    invariant
                        0 <= i <= n,
                        n == fields@.len(),
                        k@ == key@,
                        forall|j: int| 0 <= j < i ==> #[trigger] fields@[j].0@ != key@,
                    decreases n - i,
                {
                    if fields[i].0 == k {
                        proof {
                            lemma_field_models(fields@);
                            assert forall|j: int| 0 <= j < i implies field_models(
                                fields@,
                            )[j].0 != key@ by {
                                assert(field_models(fields@)[j] == (
                                    fields@[j].0@,
                                    val_model(fields@[j].1),
                                ));
                            }
                            lemma_fields_get_first_match(field_models(fields@), key@, i as int);
                        }
                        return Some(&fields[i].1);
                    }
                    i = i + 1;
                }
                proof {
                    lemma_field_models(fields@);
                    assert forall|j: int| 0 <= j < field_models(fields@).len() implies field_models(
                        fields@,
                    )[j].0 != key@ by {
                        assert(field_models(fields@)[j] == (
                            fields@[j].0@,
                            val_model(fields@[j].1),
                        ));
                    }
                    lemma_fields_get_no_match(field_models(fields@), key@);
                }
                None
            },
            _ => None,
        }
    }

    /// The text held by a text value.
    pub fn as_text(&self) -> (r: Option<&String>)
        ensures
            match r {
                Some(s) => self@ == ValModel::Text(s@),
                None => !(self@ is Text),
            },
    {
        match self {
            Value::Text(s) => Some(s),
            _ => None,
        }
    }

    /// The integer held by an integer value.
    pub fn as_int(&self) -> (r: Option<i64>)
        ensures
            match r {
                Some(i) => self@ == ValModel::Int(i as int),
                None => !(self@ is Int),
            },
    {
        match self {
            Value::Int(i) => Some(*i),
            _ => None,
        }
    }

    /// The boolean held by a boolean value.
    pub fn as_bool(&self) -> (r: Option<bool>)
        ensures
            match r {
                Some(b) => self@ == ValModel::Bool(b),
                None => !(self@ is Bool),
            },
    {
        match self {
            Value::Bool(b) => Some(*b),
            _ => None,
        }
    }

    /// The elements of a list value.
    pub fn as_list(&self) -> (r: Option<&Vec<Value>>)
        ensures
            match r {
                Some(vs) => self@ == ValModel::List(list_models(vs@)),
                None => !(self@ is List),
            },
    {
        match self {
            Value::List(vs) => Some(vs),
            _ => None,
        }
    }

    /// A structurally equal copy of this value.
    #[verifier::loop_isolation(false)]
    pub fn deep_clone(&self) -> (r: Value)
        ensures
            r@ == self@,
        decreases self,
    {
        match self {
            Value::Null => Value::Null,
            Value::Bool(b) => Value::Bool(*b),
            Value::Int(i) => Value::Int(*i),
            Value::Text(s) => Value::Text(s.clone()),
            Value::List(vs) => {
                let n = vs.len();
                let mut out: Vec<Value> = Vec::new();
                let mut i: usize = 0;
                while i < n
                    invariant
                        0 <= i <= n,
                        n == vs@.len(),
                        out@.len() == i,
                        forall|j: int| 0 <= j < i ==> val_model(#[trigger] out@[j]) == val_model(
                            vs@[j],
                        ),
                    decreases n - i,
                {
                    out.push(vs[i].deep_clone());
                    i = i + 1;
                }
                proof {
                    lemma_list_models(out@);
                    lemma_list_models(vs@);
                    assert(list_models(out@) =~= list_models(vs@));
                }
                Value::List(out)
            },
            Value::Object(fs) => {
                let n = fs.len();
                let mut out: Vec<(String, Value)> = Vec::new();
                let mut i: usize = 0;
                while i < n
                    invariant
                        0 <= i <= n,
                        n == fs@.len(),
                        out@.len() == i,
                        forall|j: int| 0 <= j < i ==> (#[trigger] out@[j]).0@ == fs@[j].0@
                            && val_model(out@[j].1) == val_model(fs@[j].1),
                    decreases n - i,
                {
                    out.push((fs[i].0.clone(), fs[i].1.deep_clone()));
                    i = i + 1;
                }
                proof {
                    lemma_field_models(out@);
                    lemma_field_models(fs@);
                    assert(field_models(out@) =~= field_models(fs@));
                }
                Value::Object(out)
            },
        }
    }

    /// The document with field `key` set to `val`, replacing the first field
    /// of that name or appending a new one; non-objects are returned
    /// unchanged.
    #[verifier::loop_isolation(false)]
    pub fn with_field(self, key: &str, val: Value) -> (r: Value)
        ensures
            r@ == doc_set(self@, key@, val@),
    {
        let ghost val_m = val@;
        match self {
            Value::Object(mut fields) => {
                let k: String = key.to_owned();
                let n = fields.len();
                let ghost orig = fields@;
                let mut i: usize = 0;
                while i < n
                    invariant
                        0 <= i <= n,
                        n == fields@.len(),
                        fields@ == orig,
                        k@ == key@,
                        val@ == val_m,
                        forall|j: int| 0 <= j < i ==> #[trigger] orig[j].0@ != key@,
                    decreases n - i,
                {
                    if fields[i].0 == k {
                        fields.set(i, (k, val));
                        proof {
                            lemma_field_models(orig);
                            lemma_field_models(fields@);
                            assert forall|j: int| 0 <= j < i implies field_models(
                                orig,
                            )[j].0 != key@ by {
                                assert(field_models(orig)[j] == (
                                    orig[j].0@,
                                    val_model(orig[j].1),
                                ));
                            }
                            lemma_fields_set_first_match(field_models(orig), key@, val_m, i as int);
                            assert forall|j: int|
                                0 <= j < field_models(fields@).len() implies field_models(
                                fields@,
                            )[j] == field_models(orig).update(i as int, (key@, val_m))[j] by {
                                assert(field_models(fields@)[j] == (
                                    fields@[j].0@,
                                    val_model(fields@[j].1),
                                ));
                                if j != i {
                                    assert(field_models(orig)[j] == (
                                        orig[j].0@,
                                        val_model(orig[j].1),
                                    ));
                                }
                            }
                            assert(field_models(fields@) =~= field_models(orig).update(
                                i as int,
                                (key@, val_m),
                            ));
                        }
                        return Value::Object(fields);
                    }
                    i = i + 1;
                }
                fields.push((k, val));
                proof {
                    lemma_field_models(orig);
                    lemma_field_models(fields@);
                    assert forall|j: int| 0 <= j < field_models(orig).len() implies field_models(
                        orig,
                    )[j].0 != key@ by {
                        assert(field_models(orig)[j] == (orig[j].0@, val_model(orig[j].1)));
                    }
                    lemma_fields_set_no_match(field_models(orig), key@, val_m);
                    assert forall|j: int|
                        0 <= j < field_models(fields@).len() implies field_models(fields@)[j]
                        == field_models(orig).push((key@, val_m))[j] by {
                        assert(field_models(fields@)[j] == (
                            fields@[j].0@,
                            val_model(fields@[j].1),
                        ));
                        if j < orig.len() {
                            assert(field_models(orig)[j] == (orig[j].0@, val_model(orig[j].1)));
                        }
                    }
                    assert(field_models(fields@) =~= field_models(orig).push((key@, val_m)));
                }
                Value::Object(fields)
            },
            other => other,
        }
    }
}

/// When the first `i` fields all miss `key` and field `i` hits it, the lookup
/// yields field `i`'s value.
pub proof fn lemma_fields_get_first_match(
    fields: Seq<(Seq<char>, ValModel)>,
    key: Seq<char>,
    i: int,
)
    requires
        0 <= i < fields.len(),
        fields[i].0 == key,
        forall|j: int| 0 <= j < i ==> fields[j].0 != key,
    ensures
        fields_get(fields, key) == Some(fields[i].1),
    decreases i,
{
    if i == 0 {
    } else {
        lemma_fields_get_first_match(fields.skip(1), key, i - 1);
    }
}

/// When no field is named `key`, the lookup yields nothing.
pub proof fn lemma_fields_get_no_match(fields: Seq<(Seq<char>, ValModel)>, key: Seq<char>)
    requires
        forall|j: int| 0 <= j < fields.len() ==> fields[j].0 != key,
    ensures
        fields_get(fields, key) is None,
    decreases fields.len(),
{
    if fields.len() > 0 {
        lemma_fields_get_no_match(fields.skip(1), key);
    }
}

/// Replacing the first field named `key` rewrites exactly position `i`.
pub proof fn lemma_fields_set_first_match(
    fields: Seq<(Seq<char>, ValModel)>,
    key: Seq<char>,
    val: ValModel,
    i: int,
)
    requires
        0 <= i < fields.len(),
        fields[i].0 == key,
        forall|j: int| 0 <= j < i ==> fields[j].0 != key,
    ensures
        fields_set(fields, key, val) =~= fields.update(i, (key, val)),
    decreases i,
{
    if i == 0 {
    } else {
        lemma_fields_set_first_match(fields.skip(1), key, val, i - 1);
        assert(fields_set(fields.skip(1), key, val) =~= fields.skip(1).update(i - 1, (key, val)));
    }
}

/// When no field is named `key`, setting it appends a new field.
pub proof fn lemma_fields_set_no_match(
    fields: Seq<(Seq<char>, ValModel)>,
    key: Seq<char>,
    val: ValModel,
)
    requires
        forall|j: int| 0 <= j < fields.len() ==> fields[j].0 != key,
    ensures
        fields_set(fields, key, val) =~= fields.push((key, val)),
    decreases fields.len(),
{
    if fields.len() > 0 {
        lemma_fields_set_no_match(fields.skip(1), key, val);
    }
}

} // verus!
