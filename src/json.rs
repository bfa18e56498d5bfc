//! The dynamic value tree carried by rows and records, and its model.

use vstd::prelude::*;
use crate::named::{named_lookup, lemma_named_lookup_index};

verus! {

/// A JSON-shaped value. Numbers are held as their canonical decimal text.
pub enum JsonValue {
    Null,
    Bool(bool),
    Number(String),
    String(String),
    Array(Vec<JsonValue>),
    Object(Vec<(String, JsonValue)>),
}

/// The mathematical model of a [`JsonValue`].
pub ghost enum JsonModel {
    Null,
    Bool(bool),
    Number(Seq<char>),
    Str(Seq<char>),
    Array(Seq<JsonModel>),
    Object(Seq<(Seq<char>, JsonModel)>),
}

impl JsonValue {
    pub open spec fn model(&self) -> JsonModel
        decreases self,
    {
        match self {
            JsonValue::Null => JsonModel::Null,
            JsonValue::Bool(b) => JsonModel::Bool(*b),
            JsonValue::Number(t) => JsonModel::Number(t@),
            JsonValue::String(s) => JsonModel::Str(s@),
            JsonValue::Array(items) => JsonModel::Array(models_of(items@)),
            JsonValue::Object(pairs) => JsonModel::Object(pairs_model(pairs@)),
        }
    }
}

/// Element-wise model of a sequence of values.
pub open spec fn models_of(s: Seq<JsonValue>) -> Seq<JsonModel>
    decreases s,
{
    if s.len() == 0 {
        Seq::empty()
    } else {
        models_of(s.subrange(0, s.len() - 1)).push(s[s.len() - 1].model())
    }
}

/// Model of a sequence of named values.
pub open spec fn pairs_model(s: Seq<(String, JsonValue)>) -> Seq<(Seq<char>, JsonModel)>
    decreases s,
{
    if s.len() == 0 {
        Seq::empty()
    } else {
        pairs_model(s.subrange(0, s.len() - 1)).push(
            (s[s.len() - 1].0@, s[s.len() - 1].1.model()),
        )
    }
}

/// `models_of` is element-wise.
pub proof fn lemma_models_of(s: Seq<JsonValue>)
    ensures
        models_of(s).len() == s.len(),
        forall|i: int| 0 <= i < s.len() ==> #[trigger] models_of(s)[i] == s[i].model(),
    decreases s.len(),
{
    if s.len() > 0 {
        let t = s.subrange(0, s.len() - 1);
        lemma_models_of(t);
        assert forall|i: int| 0 <= i < s.len() implies #[trigger] models_of(s)[i] == s[i].model() by {
            if i < s.len() - 1 {
                assert(t[i] == s[i]);
            }
        }
    }
}

/// `pairs_model` is element-wise.
pub proof fn lemma_pairs_model(s: Seq<(String, JsonValue)>)
    ensures
        pairs_model(s).len() == s.len(),
        forall|i: int|
            0 <= i < s.len() ==> #[trigger] pairs_model(s)[i] == (s[i].0@, s[i].1.model()),
    decreases s.len(),
{
    if s.len() > 0 {
        let t = s.subrange(0, s.len() - 1);
        lemma_pairs_model(t);
        assert forall|i: int| 0 <= i < s.len() implies #[trigger] pairs_model(s)[i] == (
        s[i].0@, s[i].1.model()) by {
            if i < s.len() - 1 {
                assert(t[i] == s[i]);
            }
        }
    }
}

/// The value stored under `k`: the first pair whose name is `k`.
pub open spec fn lookup(s: Seq<(Seq<char>, JsonModel)>, k: Seq<char>) -> Option<JsonModel> {
    named_lookup(s, k)
}

/// Relies on `<str as PartialEq>::eq`: two string slices are equal exactly
/// when they hold the same characters.
pub assume_specification[ <str as PartialEq>::eq ](a: &str, b: &str) -> (r: bool)
    ensures
        r == (a@ == b@),
;

/// Relies on `String::push`: the character is appended at the end.
pub assume_specification[ std::string::String::push ](s: &mut std::string::String, ch: char)
    ensures
        final(s)@ == old(s)@.push(ch),
;

/// The model of an optional borrowed value.
pub open spec fn opt_model(o: Option<&JsonValue>) -> Option<JsonModel> {
    match o {
        Some(v) => Some(v.model()),
        None => None,
    }
}

/// Finds the value named `key` among `pairs`.
pub fn find_named<'a>(pairs: &'a Vec<(String, JsonValue)>, key: &str) -> (r: Option<&'a JsonValue>)
    ensures
        opt_model(r) == lookup(pairs_model(pairs@), key@),
{
    proof {
        lemma_pairs_model(pairs@);
    }
    let mut i: usize = 0;
    while i < pairs.len()
        invariant
            i <= pairs.len(),
            pairs_model(pairs@).len() == pairs.len(),
            forall|j: int|
                0 <= j < pairs.len() ==> #[trigger] pairs_model(pairs@)[j] == (
                pairs@[j].0@, pairs@[j].1.model()),
            forall|j: int| 0 <= j < i ==> #[trigger] pairs_model(pairs@)[j].0 != key@,
        decreases pairs.len() - i,
    {
        let name: &str = pairs[i].0.as_str();
        let same = name.eq(key);
        if same {
            proof {
                lemma_named_lookup_index(pairs_model(pairs@), key@, i as int);
            }
            return Some(&pairs[i].1);
        }
        i += 1;
    }
    proof {
        lemma_named_lookup_index(pairs_model(pairs@), key@, i as int);
    }
    None
}

impl JsonValue {
    /// Deep structural equality.
    pub fn same_as(&self, other: &JsonValue) -> (r: bool)
        ensures
            r == (self.model() == other.model()),
        decreases self,
    {
        match self {
            JsonValue::Null => other.is_null_value(),
            JsonValue::Bool(x) => match other {
                JsonValue::Bool(y) => *x == *y,
                _ => false,
            },
            JsonValue::Number(x) => match other {
                JsonValue::Number(y) => x.as_str().eq(y.as_str()),
                _ => false,
            },
            JsonValue::String(x) => match other {
                JsonValue::String(y) => x.as_str().eq(y.as_str()),
                _ => false,
            },
            JsonValue::Array(xs) => match other {
                JsonValue::Array(ys) => {
                    proof {
                        lemma_models_of(xs@);
                        lemma_models_of(ys@);
                    }
                    if xs.len() != ys.len() {
                        return false;
                    }
                    let mut i: usize = 0;
                    while i < xs.len()
                        invariant
                            *self is Array,
                            self->Array_0 == *xs,
                            *other is Array,
                            other->Array_0 == *ys,
                            xs.len() == ys.len(),
                            i <= xs.len(),
                            models_of(xs@).len() == xs.len(),
                            models_of(ys@).len() == ys.len(),
                            forall|j: int| 0 <= j < xs.len() ==> #[trigger] models_of(xs@)[j] == xs@[j].model(),
                            forall|j: int| 0 <= j < ys.len() ==> #[trigger] models_of(ys@)[j] == ys@[j].model(),
                            forall|j: int| 0 <= j < i ==> xs@[j].model() == ys@[j].model(),
                        decreases xs.len() - i,
                    {
                        proof {
                            assert(decreases_to!(xs => xs[i as int]));
                        }
                        if !xs[i].same_as(&ys[i]) {
                            assert(models_of(xs@)[i as int] != models_of(ys@)[i as int]);
                            return false;
                        }
                        i += 1;
                    }
                    assert(models_of(xs@) =~= models_of(ys@));
                    true
                },
                _ => false,
            },
            JsonValue::Object(xs) => match other {
                JsonValue::Object(ys) => {
                    proof {
                        lemma_pairs_model(xs@);
                        lemma_pairs_model(ys@);
                    }
                    if xs.len() != ys.len() {
                        return false;
                    }
                    let mut i: usize = 0;
                    while i < xs.len()
                        invariant
                            *self is Object,
                            self->Object_0 == *xs,
                            *other is Object,
                            other->Object_0 == *ys,
                            xs.len() == ys.len(),
                            i <= xs.len(),
                            pairs_model(xs@).len() == xs.len(),
                            pairs_model(ys@).len() == ys.len(),
                            forall|j: int|
                                0 <= j < xs.len() ==> #[trigger] pairs_model(xs@)[j] == (
                                xs@[j].0@, xs@[j].1.model()),
                            forall|j: int|
                                0 <= j < ys.len() ==> #[trigger] pairs_model(ys@)[j] == (
                                ys@[j].0@, ys@[j].1.model()),
                            forall|j: int| 0 <= j < i ==> pairs_model(xs@)[j] == pairs_model(ys@)[j],
                        decreases xs.len() - i,
                    {
                        proof {
                            assert(decreases_to!(xs => xs[i as int]));
                            assert(decreases_to!(xs[i as int] => xs[i as int].1));
                        }
                        if !xs[i].0.as_str().eq(ys[i].0.as_str()) {
                            assert(pairs_model(xs@)[i as int] != pairs_model(ys@)[i as int]);
                            return false;
                        }
                        if !xs[i].1.same_as(&ys[i].1) {
                            assert(pairs_model(xs@)[i as int] != pairs_model(ys@)[i as int]);
                            return false;
                        }
                        i += 1;
                    }
                    assert(pairs_model(xs@) =~= pairs_model(ys@));
                    true
                },
                _ => false,
            },
        }
    }

    fn is_null_value(&self) -> (r: bool)
        ensures
            r == (self.model() == JsonModel::Null),
    {
        match self {
            JsonValue::Null => true,
            _ => false,
        }
    }

    /// A copy with the same model.
    pub fn deep_clone(&self) -> (r: JsonValue)
        ensures
            r.model() == self.model(),
        decreases self,
    {
        match self {
            JsonValue::Null => JsonValue::Null,
            JsonValue::Bool(b) => JsonValue::Bool(*b),
            JsonValue::Number(t) => JsonValue::Number(t.clone()),
            JsonValue::String(s) => JsonValue::String(s.clone()),
            JsonValue::Array(xs) => {
                proof {
                    lemma_models_of(xs@);
                }
                let mut out: Vec<JsonValue> = Vec::new();
                let mut i: usize = 0;
                while i < xs.len()
                    invariant
                        *self is Array,
                        self->Array_0 == *xs,
                        i <= xs.len(),
                        out.len() == i,
                        models_of(xs@).len() == xs.len(),
                        forall|j: int| 0 <= j < xs.len() ==> #[trigger] models_of(xs@)[j] == xs@[j].model(),
                        forall|j: int| 0 <= j < i ==> #[trigger] out@[j].model() == xs@[j].model(),
                    decreases xs.len() - i,
                {
                    proof {
                        assert(decreases_to!(xs => xs[i as int]));
                    }
                    out.push(xs[i].deep_clone());
                    i += 1;
                }
                proof {
                    lemma_models_of(out@);
                    assert(models_of(out@) =~= models_of(xs@));
                }
                JsonValue::Array(out)
            },
            JsonValue::Object(xs) => {
                proof {
                    lemma_pairs_model(xs@);
                }
                let mut out: Vec<(String, JsonValue)> = Vec::new();
                let mut i: usize = 0;
                while i < xs.len()
                    invariant
                        *self is Object,
                        self->Object_0 == *xs,
                        i <= xs.len(),
                        out.len() == i,
                        pairs_model(xs@).len() == xs.len(),
                        forall|j: int|
                            0 <= j < xs.len() ==> #[trigger] pairs_model(xs@)[j] == (
                            xs@[j].0@, xs@[j].1.model()),
                        forall|j: int|
                            0 <= j < i ==> (#[trigger] out@[j]).0@ == xs@[j].0@ && out@[j].1.model()
                                == xs@[j].1.model(),
                    decreases xs.len() - i,
                {
                    proof {
                        assert(decreases_to!(xs => xs[i as int]));
                        assert(decreases_to!(xs[i as int] => xs[i as int].1));
                    }
                    out.push((xs[i].0.clone(), xs[i].1.deep_clone()));
                    i += 1;
                }
                proof {
                    lemma_pairs_model(out@);
                    assert(pairs_model(out@) =~= pairs_model(xs@));
                }
                JsonValue::Object(out)
            },
        }
    }
}

/// A copy of named values with the same model.
pub fn clone_pairs(xs: &Vec<(String, JsonValue)>) -> (r: Vec<(String, JsonValue)>)
    ensures
        pairs_model(r@) == pairs_model(xs@),
{
    proof {
        lemma_pairs_model(xs@);
    }
    let mut out: Vec<(String, JsonValue)> = Vec::new();
    let mut i: usize = 0;
    while i < xs.len()
        invariant
            i <= xs.len(),
            out.len() == i,
            pairs_model(xs@).len() == xs.len(),
            forall|j: int|
                0 <= j < xs.len() ==> #[trigger] pairs_model(xs@)[j] == (xs@[j].0@, xs@[j].1.model()),
            forall|j: int|
                0 <= j < i ==> (#[trigger] out@[j]).0@ == xs@[j].0@ && out@[j].1.model()
                    == xs@[j].1.model(),
        decreases xs.len() - i,
    {
        out.push((xs[i].0.clone(), xs[i].1.deep_clone()));
        i += 1;
    }
    proof {
        lemma_pairs_model(out@);
        assert(pairs_model(out@) =~= pairs_model(xs@));
    }
    out
}

} // verus!
