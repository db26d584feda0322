//! JSON values, and the mathematical value that each of them stands for.

use vstd::prelude::*;

use crate::assoc;

verus! {

/// A JSON number: a non-negative integer, a negative integer, or any other
/// number, carried as the bits of its IEEE 754 double.
#[derive(Debug, Clone, Copy, PartialEq, Eq, Structural)]
pub enum Number {
    Unsigned(u64),
    Negative(i64),
    Float(u64),
}

/// A JSON value.
#[derive(Debug, PartialEq, Eq)]
pub enum Json {
    Null,
    Bool(bool),
    Number(Number),
    Text(String),
    Array(Vec<Json>),
    Object(Vec<(String, Json)>),
}

/// What a `Json` stands for.
pub enum JsonView {
    Null,
    Bool(bool),
    Number(Number),
    Text(Seq<char>),
    Array(Seq<JsonView>),
    Object(Seq<(Seq<char>, JsonView)>),
}

/// What `j` stands for.
pub open spec fn value_of(j: Json) -> JsonView
    decreases j,
{
    match j {
        Json::Null => JsonView::Null,
        Json::Bool(b) => JsonView::Bool(b),
        Json::Number(n) => JsonView::Number(n),
        Json::Text(s) => JsonView::Text(s@),
        Json::Array(items) => JsonView::Array(
            Seq::new(
                items@.len(),
                |i: int|
                    if 0 <= i < items@.len() {
                        value_of(items@[i])
                    } else {
                        JsonView::Null
                    },
            ),
        ),
        Json::Object(fields) => JsonView::Object(
            Seq::new(
                fields@.len(),
                |i: int|
                    if 0 <= i < fields@.len() {
                        (fields@[i].0@, value_of(fields@[i].1))
                    } else {
                        (Seq::<char>::empty(), JsonView::Null)
                    },
            ),
        ),
    }
}

impl DeepView for Json {
    type V = JsonView;

    open spec fn deep_view(&self) -> JsonView {
        value_of(*self)
    }
}

impl View for Json {
    type V = JsonView;

    open spec fn view(&self) -> JsonView {
        self.deep_view()
    }
}

/// An array stands for the sequence of what its items stand for.
pub broadcast proof fn lemma_array_view(items: Vec<Json>)
    ensures
        #[trigger] Json::Array(items).deep_view() == JsonView::Array(items.deep_view()),
{
    reveal_with_fuel(value_of, 2);
    assert(value_of(Json::Array(items))->Array_0 =~= items.deep_view());
}

/// An object stands for the sequence of its keys, each with what its value
/// stands for.
pub broadcast proof fn lemma_object_view(fields: Vec<(String, Json)>)
    ensures
        #[trigger] Json::Object(fields).deep_view() == JsonView::Object(fields.deep_view()),
{
    reveal_with_fuel(value_of, 2);
    assert(value_of(Json::Object(fields))->Object_0 =~= fields.deep_view());
}

impl JsonView {
    /// The value under `key`, `None` for a missing key and for anything that is
    /// not an object.
    pub open spec fn field(self, key: Seq<char>) -> Option<JsonView> {
        match self {
            JsonView::Object(fields) => assoc::lookup(fields, key),
            _ => None,
        }
    }

    /// The text that this is, if it is one.
    pub open spec fn text(self) -> Option<Seq<char>> {
        match self {
            JsonView::Text(s) => Some(s),
            _ => None,
        }
    }

    /// The integer that this is, if it is one that fits.
    pub open spec fn signed(self) -> Option<i64> {
        match self {
            JsonView::Number(Number::Unsigned(n)) => if n <= i64::MAX {
                Some(n as i64)
            } else {
                None
            },
            JsonView::Number(Number::Negative(n)) => Some(n),
            _ => None,
        }
    }

    /// The non-negative integer that this is, if it is one.
    pub open spec fn unsigned(self) -> Option<u64> {
        match self {
            JsonView::Number(Number::Unsigned(n)) => Some(n),
            _ => None,
        }
    }
}

/// The number that holds `n`.
pub open spec fn number_of(n: i64) -> Number {
    if n >= 0 {
        Number::Unsigned(n as u64)
    } else {
        Number::Negative(n)
    }
}

/// The number value that holds `n`.
pub fn integer(n: i64) -> (r: Json)
    ensures
        r@ == JsonView::Number(number_of(n)),
{
    if n >= 0 {
        Json::Number(Number::Unsigned(n as u64))
    } else {
        Json::Number(Number::Negative(n))
    }
}

/// The text value that holds the characters of `s`.
pub fn text(s: &str) -> (r: Json)
    ensures
        r@ == JsonView::Text(s@),
{
    Json::Text(s.to_owned())
}

/// A copy of values.
pub fn clone_values(values: &Vec<Json>) -> (r: Vec<Json>)
    ensures
        r.deep_view() == values.deep_view(),
{
    clone_from(values, 0)
}

/// A copy of the values from the one at `from` on.
pub fn clone_from(values: &Vec<Json>, from: usize) -> (r: Vec<Json>)
    requires
        from <= values@.len(),
    ensures
        r.deep_view() == values.deep_view().skip(from as int),
        from == 0 ==> r.deep_view() == values.deep_view(),
{
    let mut out: Vec<Json> = Vec::new();
    let mut i: usize = from;
    while i < values.len()
        invariant
            from <= i <= values@.len(),
            out@.len() == i - from,
            forall|j: int| 0 <= j < i - from ==> (#[trigger] out@[j])@ == values@[j + from]@,
        decreases values@.len() - i,
    {
        out.push(values[i].clone());
        i += 1;
    }
    proof {
        assert(out.deep_view() =~= values.deep_view().skip(from as int));
        if from == 0 {
            assert(values.deep_view().skip(0) =~= values.deep_view());
        }
    }
    out
}

impl Clone for Json {
    fn clone(&self) -> (r: Self)
        ensures
            r@ == self@,
        decreases self,
    {
        match self {
            Json::Null => Json::Null,
            Json::Bool(b) => Json::Bool(*b),
            Json::Number(n) => Json::Number(*n),
            Json::Text(s) => Json::Text(s.clone()),
            Json::Array(items) => {
                let mut out: Vec<Json> = Vec::new();
                let mut i: usize = 0;
                while i < items.len()
                    invariant
                        i <= items@.len(),
                        out@.len() == i,
                        *self == Json::Array(*items),
                        forall|j: int| 0 <= j < i ==> out@[j]@ == items@[j]@,
                    decreases items@.len() - i,
                {
                    assert(decreases_to!(self->Array_0@ => self->Array_0@[i as int]));
                    assert(decreases_to!(self => self->Array_0));
                    out.push(items[i].clone());
                    i += 1;
                }
                proof {
                    lemma_array_view(*items);
                    lemma_array_view(out);
                    assert(out.deep_view() =~= items.deep_view());
                }
                Json::Array(out)
            },
            Json::Object(fields) => {
                let mut out: Vec<(String, Json)> = Vec::new();
                let mut i: usize = 0;
                while i < fields.len()
                    invariant
                        i <= fields@.len(),
                        out@.len() == i,
                        *self == Json::Object(*fields),
                        forall|j: int|
                            0 <= j < i ==> out@[j].0@ == fields@[j].0@ && out@[j].1@
                                == fields@[j].1@,
                    decreases fields@.len() - i,
                {
                    assert(decreases_to!(self->Object_0@ => self->Object_0@[i as int]));
                    assert(decreases_to!(self => self->Object_0));
                    out.push((fields[i].0.clone(), fields[i].1.clone()));
                    i += 1;
                }
                proof {
                    lemma_object_view(*fields);
                    lemma_object_view(out);
                    assert(out.deep_view() =~= fields.deep_view());
                }
                Json::Object(out)
            },
        }
    }
}

impl Json {
    /// The value under `key`, `None` for a missing key and for anything that is
    /// not an object.
    pub fn get(&self, key: &str) -> (r: Option<&Json>)
        ensures
            r.deep_view() == self@.field(key@),
    {
        match self {
            Json::Object(fields) => {
                proof {
                    lemma_object_view(*fields);
                }
                assoc::lookup_in(fields, key)
            },
            _ => None,
        }
    }

    /// The text that this is, if it is one.
    pub fn as_str(&self) -> (r: Option<&str>)
        ensures
            match r {
                Some(s) => self@ == JsonView::Text(s@),
                None => self@.text() is None,
            },
    {
        match self {
            Json::Text(s) => Some(s.as_str()),
            _ => None,
        }
    }

    /// The integer that this is, if it is one that fits.
    pub fn as_i64(&self) -> (r: Option<i64>)
        ensures
            r == self@.signed(),
    {
        match self {
            Json::Number(Number::Unsigned(n)) => if *n <= i64::MAX as u64 {
                Some(*n as i64)
            } else {
                None
            },
            Json::Number(Number::Negative(n)) => Some(*n),
            _ => None,
        }
    }

    /// The non-negative integer that this is, if it is one.
    pub fn as_u64(&self) -> (r: Option<u64>)
        ensures
            r == self@.unsigned(),
    {
        match self {
            Json::Number(Number::Unsigned(n)) => Some(*n),
            _ => None,
        }
    }
}

} // verus!
