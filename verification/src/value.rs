//! The typed value a flag carries: a closed set of nine shapes — four plain
//! scalars, a double-precision number, and an array of each — with parsing
//! from text and coercion from JSON.

use vstd::prelude::*;
use vstd::string::StringExecFns;
use crate::json::{JsonVal, num_of_text, text_of_num, number_to_text};
use crate::numtext::{
    spec_parse_i64, spec_parse_i128, spec_int_text, parse_i64, parse_i128, i64_to_text,
    i128_to_text, lemma_int_text_round_trip,
};
use crate::text::str_eq;

verus! {

/// The shape of a flag value.
#[derive(Clone, Copy, PartialEq, Eq, Structural)]
pub enum Tag {
    Bool,
    String,
    Int64,
    Int128,
    Float64,
    StringArray,
    Int64Array,
    Int128Array,
    Float64Array,
}

/// The shapes that hold an array.
pub open spec fn is_array_tag(t: Tag) -> bool {
    t == Tag::StringArray || t == Tag::Int64Array || t == Tag::Int128Array
        || t == Tag::Float64Array
}

impl Tag {
    /// Whether values of this shape are arrays.
    pub fn is_array(self) -> (b: bool)
        ensures
            b == is_array_tag(self),
    {
        self == Tag::StringArray || self == Tag::Int64Array || self == Tag::Int128Array
            || self == Tag::Float64Array
    }
}

/// What a flag value is, at the specification level: texts as character
/// sequences, arrays as sequences.
pub enum ValueView {
    Bool(bool),
    Str(Seq<char>),
    Int64(i64),
    Int128(i128),
    Float64(serde_json::Number),
    StrArr(Seq<Seq<char>>),
    I64Arr(Seq<i64>),
    I128Arr(Seq<i128>),
    FloatArr(Seq<serde_json::Number>),
}

/// The shape of a value at the specification level.
pub open spec fn view_tag(v: ValueView) -> Tag {
    match v {
        ValueView::Bool(_) => Tag::Bool,
        ValueView::Str(_) => Tag::String,
        ValueView::Int64(_) => Tag::Int64,
        ValueView::Int128(_) => Tag::Int128,
        ValueView::Float64(_) => Tag::Float64,
        ValueView::StrArr(_) => Tag::StringArray,
        ValueView::I64Arr(_) => Tag::Int64Array,
        ValueView::I128Arr(_) => Tag::Int128Array,
        ValueView::FloatArr(_) => Tag::Float64Array,
    }
}

/// A typed flag value.
pub enum FlagValue {
    Bool(bool),
    String(String),
    Int64(i64),
    Int128(i128),
    Float64(serde_json::Number),
    StringArray(Vec<String>),
    Int64Array(Vec<i64>),
    Int128Array(Vec<i128>),
    Float64Array(Vec<serde_json::Number>),
}

impl View for FlagValue {
    type V = ValueView;

    open spec fn view(&self) -> ValueView {
        match self {
            FlagValue::Bool(b) => ValueView::Bool(*b),
            FlagValue::String(s) => ValueView::Str(s@),
            FlagValue::Int64(n) => ValueView::Int64(*n),
            FlagValue::Int128(n) => ValueView::Int128(*n),
            FlagValue::Float64(x) => ValueView::Float64(*x),
            FlagValue::StringArray(a) => ValueView::StrArr(a.deep_view()),
            FlagValue::Int64Array(a) => ValueView::I64Arr(a@),
            FlagValue::Int128Array(a) => ValueView::I128Arr(a@),
            FlagValue::Float64Array(a) => ValueView::FloatArr(a@),
        }
    }
}

impl Clone for FlagValue {
    /// A clone carries the very same value.
    fn clone(&self) -> (r: Self)
        ensures
            r@ == self@,
    {
        match self {
            FlagValue::Bool(b) => FlagValue::Bool(*b),
            FlagValue::String(s) => FlagValue::String(s.clone()),
            FlagValue::Int64(n) => FlagValue::Int64(*n),
            FlagValue::Int128(n) => FlagValue::Int128(*n),
            FlagValue::Float64(x) => FlagValue::Float64(x.clone()),
            FlagValue::StringArray(a) => {
                let r = a.clone();
                proof {
                    assert(r.deep_view() =~= a.deep_view());
                }
                FlagValue::StringArray(r)
            },
            FlagValue::Int64Array(a) => {
                let r = a.clone();
                proof {
                    assert(r@ =~= a@);
                }
                FlagValue::Int64Array(r)
            },
            FlagValue::Int128Array(a) => {
                let r = a.clone();
                proof {
                    assert(r@ =~= a@);
                }
                FlagValue::Int128Array(r)
            },
            FlagValue::Float64Array(a) => {
                let r = a.clone();
                proof {
                    assert(r@ =~= a@);
                }
                FlagValue::Float64Array(r)
            },
        }
    }
}

impl FlagValue {
    /// The shape of this value.
    pub fn tag(&self) -> (t: Tag)
        ensures
            t == view_tag(self@),
    {
        match self {
            FlagValue::Bool(_) => Tag::Bool,
            FlagValue::String(_) => Tag::String,
            FlagValue::Int64(_) => Tag::Int64,
            FlagValue::Int128(_) => Tag::Int128,
            FlagValue::Float64(_) => Tag::Float64,
            FlagValue::StringArray(_) => Tag::StringArray,
            FlagValue::Int64Array(_) => Tag::Int64Array,
            FlagValue::Int128Array(_) => Tag::Int128Array,
            FlagValue::Float64Array(_) => Tag::Float64Array,
        }
    }

    /// Whether this value is a boolean.
    pub fn is_bool(&self) -> (b: bool)
        ensures
            b == (view_tag(self@) == Tag::Bool),
    {
        self.tag() == Tag::Bool
    }

    /// Whether this value is an array.
    pub fn is_vec(&self) -> (b: bool)
        ensures
            b == is_array_tag(view_tag(self@)),
    {
        self.tag().is_array()
    }

    /// Sets a boolean flag value to true, the effect of a bare boolean flag
    /// on the command line.
    pub fn set_true(&mut self)
        requires
            view_tag(old(self)@) == Tag::Bool,
        ensures
            final(self)@ == ValueView::Bool(true),
    {
        *self = FlagValue::Bool(true);
    }

    /// Empties an array value; a scalar is left as it is.
    pub fn clear(&mut self)
        ensures
            final(self)@ == view_clear(old(self)@),
    {
        match self {
            FlagValue::StringArray(a) => {
                a.clear();
                proof {
                    assert(a.deep_view() =~= Seq::<Seq<char>>::empty());
                }
            },
            FlagValue::Int64Array(a) => a.clear(),
            FlagValue::Int128Array(a) => a.clear(),
            FlagValue::Float64Array(a) => a.clear(),
            _ => {},
        }
    }
}

/// An array value emptied; a scalar untouched.
pub open spec fn view_clear(v: ValueView) -> ValueView {
    match v {
        ValueView::StrArr(_) => ValueView::StrArr(Seq::empty()),
        ValueView::I64Arr(_) => ValueView::I64Arr(Seq::empty()),
        ValueView::I128Arr(_) => ValueView::I128Arr(Seq::empty()),
        ValueView::FloatArr(_) => ValueView::FloatArr(Seq::empty()),
        _ => v,
    }
}

/// What "true" and "false" mean; no other text is a boolean.
pub open spec fn bool_of_text(s: Seq<char>) -> Option<bool> {
    if s == "true"@ {
        Some(true)
    } else if s == "false"@ {
        Some(false)
    } else {
        None
    }
}

/// What one text does to a value: a scalar is replaced by the parsed text,
/// an array has the parsed text appended as one element. `None` on a text
/// that does not parse at the value's shape.
pub open spec fn view_parse_and_set(v: ValueView, s: Seq<char>) -> Option<ValueView> {
    match v {
        ValueView::Bool(_) => match bool_of_text(s) {
            Some(b) => Some(ValueView::Bool(b)),
            None => None,
        },
        ValueView::Str(_) => Some(ValueView::Str(s)),
        ValueView::Int64(_) => match spec_parse_i64(s) {
            Some(n) => Some(ValueView::Int64(n)),
            None => None,
        },
        ValueView::Int128(_) => match spec_parse_i128(s) {
            Some(n) => Some(ValueView::Int128(n)),
            None => None,
        },
        ValueView::Float64(_) => match num_of_text(s) {
            Some(n) => Some(ValueView::Float64(n)),
            None => None,
        },
        ValueView::StrArr(a) => Some(ValueView::StrArr(a.push(s))),
        ValueView::I64Arr(a) => match spec_parse_i64(s) {
            Some(n) => Some(ValueView::I64Arr(a.push(n))),
            None => None,
        },
        ValueView::I128Arr(a) => match spec_parse_i128(s) {
            Some(n) => Some(ValueView::I128Arr(a.push(n))),
            None => None,
        },
        ValueView::FloatArr(a) => match num_of_text(s) {
            Some(n) => Some(ValueView::FloatArr(a.push(n))),
            None => None,
        },
    }
}

/// The texts of a JSON array whose elements are all strings, if so.
pub open spec fn coerce_str_elems(a: Seq<JsonVal>) -> Option<Seq<Seq<char>>>
    decreases a.len(),
{
    if a.len() == 0 {
        Some(Seq::empty())
    } else {
        match a.first() {
            JsonVal::Str(s) => match coerce_str_elems(a.drop_first()) {
                Some(r) => Some(seq![s@] + r),
                None => None,
            },
            _ => None,
        }
    }
}

/// The values of a JSON array whose elements are all integers in `i64`
/// range, if so.
pub open spec fn coerce_i64_elems(a: Seq<JsonVal>) -> Option<Seq<i64>>
    decreases a.len(),
{
    if a.len() == 0 {
        Some(Seq::empty())
    } else {
        match a.first() {
            JsonVal::Num(m) => match m.as_int {
                Some(n) => match coerce_i64_elems(a.drop_first()) {
                    Some(r) => Some(seq![n] + r),
                    None => None,
                },
                None => None,
            },
            _ => None,
        }
    }
}

/// The values of a JSON array whose elements are all integers, if so.
pub open spec fn coerce_i128_elems(a: Seq<JsonVal>) -> Option<Seq<i128>>
    decreases a.len(),
{
    if a.len() == 0 {
        Some(Seq::empty())
    } else {
        match a.first() {
            JsonVal::Num(m) => match m.as_wide {
                Some(n) => match coerce_i128_elems(a.drop_first()) {
                    Some(r) => Some(seq![n] + r),
                    None => None,
                },
                None => None,
            },
            _ => None,
        }
    }
}

/// The numbers of a JSON array whose elements are all numbers, if so.
pub open spec fn coerce_num_elems(a: Seq<JsonVal>) -> Option<Seq<serde_json::Number>>
    decreases a.len(),
{
    if a.len() == 0 {
        Some(Seq::empty())
    } else {
        match a.first() {
            JsonVal::Num(m) => match coerce_num_elems(a.drop_first()) {
                Some(r) => Some(seq![m.num] + r),
                None => None,
            },
            _ => None,
        }
    }
}

/// What one JSON value does to a flag value when their shapes match: a
/// scalar is replaced, an array has every coerced element appended. `None`
/// where the shapes differ, or where any one array element does not coerce.
pub open spec fn view_set_json(v: ValueView, j: JsonVal) -> Option<ValueView> {
    match v {
        ValueView::Bool(_) => match j {
            JsonVal::Bool(b) => Some(ValueView::Bool(b)),
            _ => None,
        },
        ValueView::Str(_) => match j {
            JsonVal::Str(s) => Some(ValueView::Str(s@)),
            _ => None,
        },
        ValueView::Int64(_) => match j {
            JsonVal::Num(m) => match m.as_int {
                Some(n) => Some(ValueView::Int64(n)),
                None => None,
            },
            _ => None,
        },
        ValueView::Int128(_) => match j {
            JsonVal::Num(m) => match m.as_wide {
                Some(n) => Some(ValueView::Int128(n)),
                None => None,
            },
            _ => None,
        },
        ValueView::Float64(_) => match j {
            JsonVal::Num(m) => Some(ValueView::Float64(m.num)),
            _ => None,
        },
        ValueView::StrArr(cur) => match j {
            JsonVal::Arr(elems) => match coerce_str_elems(elems@) {
                Some(es) => Some(ValueView::StrArr(cur + es)),
                None => None,
            },
            _ => None,
        },
        ValueView::I64Arr(cur) => match j {
            JsonVal::Arr(elems) => match coerce_i64_elems(elems@) {
                Some(es) => Some(ValueView::I64Arr(cur + es)),
                None => None,
            },
            _ => None,
        },
        ValueView::I128Arr(cur) => match j {
            JsonVal::Arr(elems) => match coerce_i128_elems(elems@) {
                Some(es) => Some(ValueView::I128Arr(cur + es)),
                None => None,
            },
            _ => None,
        },
        ValueView::FloatArr(cur) => match j {
            JsonVal::Arr(elems) => match coerce_num_elems(elems@) {
                Some(es) => Some(ValueView::FloatArr(cur + es)),
                None => None,
            },
            _ => None,
        },
    }
}

fn collect_str_elems(elems: &Vec<JsonVal>) -> (r: Option<Vec<String>>)
    ensures
        match r {
            Some(v) => coerce_str_elems(elems@) == Some(v.deep_view()),
            None => coerce_str_elems(elems@) is None,
        },
{
    let mut out: Vec<String> = Vec::new();
    let mut i: usize = 0;
    proof {
        assert(elems@.subrange(0, elems@.len() as int) =~= elems@);
        assert(out.deep_view() + coerce_str_elems(elems@)->Some_0 =~= coerce_str_elems(
            elems@,
        )->Some_0);
    }
    while i < elems.len()
        invariant
            0 <= i <= elems@.len(),
            coerce_str_elems(elems@) == match coerce_str_elems(
                elems@.subrange(i as int, elems@.len() as int),
            ) {
                Some(rest) => Some(out.deep_view() + rest),
                None => None::<Seq<Seq<char>>>,
            },
        decreases elems@.len() - i,
    {
        let ghost suf = elems@.subrange(i as int, elems@.len() as int);
        proof {
            assert(suf.first() == elems@[i as int]);
            assert(suf.drop_first() =~= elems@.subrange(i as int + 1, elems@.len() as int));
        }
        match &elems[i] {
            JsonVal::Str(s) => {
                proof {
                    let tail = coerce_str_elems(suf.drop_first());
                    if tail is Some {
                        assert(out.deep_view() + (seq![s@] + tail->Some_0) =~= out.deep_view().push(
                            s@,
                        ) + tail->Some_0);
                    }
                }
                let ghost pre = out.deep_view();
                out.push(s.clone());
                proof {
                    assert(out.deep_view() =~= pre.push(s@));
                }
            },
            _ => {
                return None;
            },
        }
        i = i + 1;
    }
    proof {
        assert(elems@.subrange(i as int, elems@.len() as int) =~= Seq::<JsonVal>::empty());
        assert(out.deep_view() + Seq::<Seq<char>>::empty() =~= out.deep_view());
    }
    Some(out)
}

fn collect_i64_elems(elems: &Vec<JsonVal>) -> (r: Option<Vec<i64>>)
    ensures
        match r {
            Some(v) => coerce_i64_elems(elems@) == Some(v@),
            None => coerce_i64_elems(elems@) is None,
        },
{
    let mut out: Vec<i64> = Vec::new();
    let mut i: usize = 0;
    proof {
        assert(elems@.subrange(0, elems@.len() as int) =~= elems@);
        assert(out@ + coerce_i64_elems(elems@)->Some_0 =~= coerce_i64_elems(elems@)->Some_0);
    }
    while i < elems.len()
        invariant
            0 <= i <= elems@.len(),
            coerce_i64_elems(elems@) == match coerce_i64_elems(
                elems@.subrange(i as int, elems@.len() as int),
            ) {
                Some(rest) => Some(out@ + rest),
                None => None::<Seq<i64>>,
            },
        decreases elems@.len() - i,
    {
        let ghost suf = elems@.subrange(i as int, elems@.len() as int);
        proof {
            assert(suf.first() == elems@[i as int]);
            assert(suf.drop_first() =~= elems@.subrange(i as int + 1, elems@.len() as int));
        }
        match &elems[i] {
            JsonVal::Num(m) => match m.as_int {
                Some(n) => {
                    proof {
                        let tail = coerce_i64_elems(suf.drop_first());
                        if tail is Some {
                            assert(out@ + (seq![n] + tail->Some_0) =~= out@.push(n)
                                + tail->Some_0);
                        }
                    }
                    out.push(n);
                },
                None => {
                    return None;
                },
            },
            _ => {
                return None;
            },
        }
        i = i + 1;
    }
    proof {
        assert(elems@.subrange(i as int, elems@.len() as int) =~= Seq::<JsonVal>::empty());
        assert(out@ + Seq::<i64>::empty() =~= out@);
    }
    Some(out)
}

fn collect_i128_elems(elems: &Vec<JsonVal>) -> (r: Option<Vec<i128>>)
    ensures
        match r {
            Some(v) => coerce_i128_elems(elems@) == Some(v@),
            None => coerce_i128_elems(elems@) is None,
        },
{
    let mut out: Vec<i128> = Vec::new();
    let mut i: usize = 0;
    proof {
        assert(elems@.subrange(0, elems@.len() as int) =~= elems@);
        assert(out@ + coerce_i128_elems(elems@)->Some_0 =~= coerce_i128_elems(elems@)->Some_0);
    }
    while i < elems.len()
        invariant
            0 <= i <= elems@.len(),
            coerce_i128_elems(elems@) == match coerce_i128_elems(
                elems@.subrange(i as int, elems@.len() as int),
            ) {
                Some(rest) => Some(out@ + rest),
                None => None::<Seq<i128>>,
            },
        decreases elems@.len() - i,
    {
        let ghost suf = elems@.subrange(i as int, elems@.len() as int);
        proof {
            assert(suf.first() == elems@[i as int]);
            assert(suf.drop_first() =~= elems@.subrange(i as int + 1, elems@.len() as int));
        }
        match &elems[i] {
            JsonVal::Num(m) => match m.as_wide {
                Some(n) => {
                    proof {
                        let tail = coerce_i128_elems(suf.drop_first());
                        if tail is Some {
                            assert(out@ + (seq![n] + tail->Some_0) =~= out@.push(n)
                                + tail->Some_0);
                        }
                    }
                    out.push(n);
                },
                None => {
                    return None;
                },
            },
            _ => {
                return None;
            },
        }
        i = i + 1;
    }
    proof {
        assert(elems@.subrange(i as int, elems@.len() as int) =~= Seq::<JsonVal>::empty());
        assert(out@ + Seq::<i128>::empty() =~= out@);
    }
    Some(out)
}

fn collect_num_elems(elems: &Vec<JsonVal>) -> (r: Option<Vec<serde_json::Number>>)
    ensures
        match r {
            Some(v) => coerce_num_elems(elems@) == Some(v@),
            None => coerce_num_elems(elems@) is None,
        },
{
    let mut out: Vec<serde_json::Number> = Vec::new();
    let mut i: usize = 0;
    proof {
        assert(elems@.subrange(0, elems@.len() as int) =~= elems@);
        assert(out@ + coerce_num_elems(elems@)->Some_0 =~= coerce_num_elems(elems@)->Some_0);
    }
    while i < elems.len()
        invariant
            0 <= i <= elems@.len(),
            coerce_num_elems(elems@) == match coerce_num_elems(
                elems@.subrange(i as int, elems@.len() as int),
            ) {
                Some(rest) => Some(out@ + rest),
                None => None::<Seq<serde_json::Number>>,
            },
        decreases elems@.len() - i,
    {
        let ghost suf = elems@.subrange(i as int, elems@.len() as int);
        proof {
            assert(suf.first() == elems@[i as int]);
            assert(suf.drop_first() =~= elems@.subrange(i as int + 1, elems@.len() as int));
        }
        match &elems[i] {
            JsonVal::Num(m) => {
                proof {
                    let tail = coerce_num_elems(suf.drop_first());
                    if tail is Some {
                        assert(out@ + (seq![m.num] + tail->Some_0) =~= out@.push(m.num)
                            + tail->Some_0);
                    }
                }
                out.push(m.num.clone());
            },
            _ => {
                return None;
            },
        }
        i = i + 1;
    }
    proof {
        assert(elems@.subrange(i as int, elems@.len() as int) =~= Seq::<JsonVal>::empty());
        assert(out@ + Seq::<serde_json::Number>::empty() =~= out@);
    }
    Some(out)
}

impl FlagValue {
    /// Applies one JSON value to this flag value where their shapes match: a
    /// scalar is replaced, an array has every element appended — all of them,
    /// or none: a single element of the wrong shape leaves the value
    /// untouched and yields false.
    pub fn try_set_json(&mut self, j: &JsonVal) -> (ok: bool)
        ensures
            ok <==> view_set_json(old(self)@, *j) is Some,
            ok ==> Some(final(self)@) == view_set_json(old(self)@, *j),
            !ok ==> final(self)@ == old(self)@,
    {
        match self {
            FlagValue::Bool(b) => match j {
                JsonVal::Bool(v) => {
                    *b = *v;
                    true
                },
                _ => false,
            },
            FlagValue::String(t) => match j {
                JsonVal::Str(s) => {
                    *t = s.clone();
                    true
                },
                _ => false,
            },
            FlagValue::Int64(n) => match j {
                JsonVal::Num(m) => match m.as_int {
                    Some(v) => {
                        *n = v;
                        true
                    },
                    None => false,
                },
                _ => false,
            },
            FlagValue::Int128(n) => match j {
                JsonVal::Num(m) => match m.as_wide {
                    Some(v) => {
                        *n = v;
                        true
                    },
                    None => false,
                },
                _ => false,
            },
            FlagValue::Float64(x) => match j {
                JsonVal::Num(m) => {
                    *x = m.num.clone();
                    true
                },
                _ => false,
            },
            FlagValue::StringArray(a) => match j {
                JsonVal::Arr(elems) => match collect_str_elems(elems) {
                    Some(mut v) => {
                        let ghost pre = a.deep_view();
                        let ghost add = v.deep_view();
                        a.append(&mut v);
                        proof {
                            assert(a.deep_view() =~= pre + add);
                        }
                        true
                    },
                    None => false,
                },
                _ => false,
            },
            FlagValue::Int64Array(a) => match j {
                JsonVal::Arr(elems) => match collect_i64_elems(elems) {
                    Some(mut v) => {
                        a.append(&mut v);
                        true
                    },
                    None => false,
                },
                _ => false,
            },
            FlagValue::Int128Array(a) => match j {
                JsonVal::Arr(elems) => match collect_i128_elems(elems) {
                    Some(mut v) => {
                        a.append(&mut v);
                        true
                    },
                    None => false,
                },
                _ => false,
            },
            FlagValue::Float64Array(a) => match j {
                JsonVal::Arr(elems) => match collect_num_elems(elems) {
                    Some(mut v) => {
                        a.append(&mut v);
                        true
                    },
                    None => false,
                },
                _ => false,
            },
        }
    }
}

/// The text did not parse at the value's shape.
pub struct ParseError;

impl FlagValue {
    /// Applies one text to this value: parses it at the value's shape, then
    /// replaces a scalar or appends to an array. On failure nothing changes.
    pub fn parse_and_set(&mut self, s: &str) -> (r: Result<(), ParseError>)
        ensures
            r is Ok <==> view_parse_and_set(old(self)@, s@) is Some,
            r is Ok ==> Some(final(self)@) == view_parse_and_set(old(self)@, s@),
            r is Err ==> final(self)@ == old(self)@,
    {
        match self {
            FlagValue::Bool(b) => {
                if str_eq(s, "true") {
                    *b = true;
                    Ok(())
                } else if str_eq(s, "false") {
                    *b = false;
                    Ok(())
                } else {
                    Err(ParseError)
                }
            },
            FlagValue::String(t) => {
                *t = s.to_owned();
                Ok(())
            },
            FlagValue::Int64(n) => match parse_i64(s) {
                Some(v) => {
                    *n = v;
                    Ok(())
                },
                None => Err(ParseError),
            },
            FlagValue::Int128(n) => match parse_i128(s) {
                Some(v) => {
                    *n = v;
                    Ok(())
                },
                None => Err(ParseError),
            },
            FlagValue::Float64(x) => match crate::json::parse_number(s) {
                Some(v) => {
                    *x = v;
                    Ok(())
                },
                None => Err(ParseError),
            },
            FlagValue::StringArray(a) => {
                let ghost pre = a.deep_view();
                a.push(s.to_owned());
                proof {
                    assert(a.deep_view() =~= pre.push(s@));
                }
                Ok(())
            },
            FlagValue::Int64Array(a) => match parse_i64(s) {
                Some(v) => {
                    a.push(v);
                    Ok(())
                },
                None => Err(ParseError),
            },
            FlagValue::Int128Array(a) => match parse_i128(s) {
                Some(v) => {
                    a.push(v);
                    Ok(())
                },
                None => Err(ParseError),
            },
            FlagValue::Float64Array(a) => match crate::json::parse_number(s) {
                Some(v) => {
                    a.push(v);
                    Ok(())
                },
                None => Err(ParseError),
            },
        }
    }
}

/// The texts of an array, joined with ", ".
pub open spec fn join_texts(a: Seq<Seq<char>>) -> Seq<char>
    decreases a.len(),
{
    if a.len() == 0 {
        Seq::empty()
    } else if a.len() == 1 {
        a[0]
    } else {
        join_texts(a.drop_last()) + ", "@ + a.last()
    }
}

/// The text a value renders to: scalars as their plain text, arrays as
/// their elements' texts joined with ", " between brackets.
pub open spec fn view_text(v: ValueView) -> Seq<char> {
    match v {
        ValueView::Bool(b) => if b {
            "true"@
        } else {
            "false"@
        },
        ValueView::Str(s) => s,
        ValueView::Int64(n) => spec_int_text(n as int),
        ValueView::Int128(n) => spec_int_text(n as int),
        ValueView::Float64(x) => text_of_num(x),
        ValueView::StrArr(a) => "["@ + join_texts(a) + "]"@,
        ValueView::I64Arr(a) => "["@ + join_texts(a.map_values(|n: i64| spec_int_text(n as int)))
            + "]"@,
        ValueView::I128Arr(a) => "["@ + join_texts(
            a.map_values(|n: i128| spec_int_text(n as int)),
        ) + "]"@,
        ValueView::FloatArr(a) => "["@ + join_texts(
            a.map_values(|x: serde_json::Number| text_of_num(x)),
        ) + "]"@,
    }
}

fn join_with_commas(items: &Vec<String>) -> (r: String)
    ensures
        r@ == "["@ + join_texts(items.deep_view()) + "]"@,
{
    let mut out = String::new();
    out.push('[');
    proof {
        reveal_strlit("[");
        assert(out@ =~= "["@);
    }
    let mut i: usize = 0;
    while i < items.len()
        invariant
            0 <= i <= items@.len(),
            out@ == "["@ + join_texts(items.deep_view().subrange(0, i as int)),
        decreases items@.len() - i,
    {
        if i > 0 {
            out.append(", ");
        }
        out.append(items[i].as_str());
        proof {
            let full = items.deep_view();
            let pre = full.subrange(0, i as int);
            let cur = full.subrange(0, i as int + 1);
            assert(cur.drop_last() =~= pre);
            assert(cur.last() == items@[i as int]@);
            if i == 0 {
                assert(join_texts(pre) =~= Seq::<char>::empty());
                assert(out@ =~= "["@ + join_texts(cur));
            } else {
                assert(out@ =~= "["@ + join_texts(cur));
            }
        }
        i = i + 1;
    }
    out.push(']');
    proof {
        reveal_strlit("]");
        assert(items.deep_view().subrange(0, items@.len() as int) =~= items.deep_view());
        assert(out@ =~= "["@ + join_texts(items.deep_view()) + "]"@);
    }
    out
}

impl FlagValue {
    /// Renders this value as text: scalars plainly, arrays as
    /// "[a, b, c]". For every scalar the rendered text parses back, at the
    /// value's own shape, to the very same value.
    pub fn to_text(&self) -> (r: String)
        ensures
            r@ == view_text(self@),
            !is_array_tag(view_tag(self@)) ==> view_parse_and_set(self@, r@) == Some(self@),
    {
        match self {
            FlagValue::Bool(b) => {
                proof {
                    reveal_strlit("true");
                    reveal_strlit("false");
                    assert("true"@.len() == 4);
                    assert("false"@.len() == 5);
                    assert("true"@ != "false"@);
                }
                if *b {
                    "true".to_owned()
                } else {
                    "false".to_owned()
                }
            },
            FlagValue::String(t) => t.clone(),
            FlagValue::Int64(n) => {
                proof {
                    lemma_int_text_round_trip(*n as int);
                }
                i64_to_text(*n)
            },
            FlagValue::Int128(n) => {
                proof {
                    lemma_int_text_round_trip(*n as int);
                }
                i128_to_text(*n)
            },
            FlagValue::Float64(x) => number_to_text(x),
            FlagValue::StringArray(a) => {
                let items = a.clone();
                proof {
                    assert(items.deep_view() =~= a.deep_view());
                }
                join_with_commas(&items)
            },
            FlagValue::Int64Array(a) => {
                let mut items: Vec<String> = Vec::new();
                let mut i: usize = 0;
                while i < a.len()
                    invariant
                        0 <= i <= a@.len(),
                        items.deep_view() =~= a@.subrange(0, i as int).map_values(
                            |n: i64| spec_int_text(n as int),
                        ),
                    decreases a@.len() - i,
                {
                    let ghost pre = items.deep_view();
                    items.push(i64_to_text(a[i]));
                    proof {
                        assert(items.deep_view() =~= pre.push(spec_int_text(a@[i as int] as int)));
                        assert(a@.subrange(0, i as int + 1).map_values(
                            |n: i64| spec_int_text(n as int),
                        ) =~= a@.subrange(0, i as int).map_values(
                            |n: i64| spec_int_text(n as int),
                        ).push(spec_int_text(a@[i as int] as int)));
                    }
                    i = i + 1;
                }
                proof {
                    assert(a@.subrange(0, a@.len() as int) =~= a@);
                }
                join_with_commas(&items)
            },
            FlagValue::Int128Array(a) => {
                let mut items: Vec<String> = Vec::new();
                let mut i: usize = 0;
                while i < a.len()
                    invariant
                        0 <= i <= a@.len(),
                        items.deep_view() =~= a@.subrange(0, i as int).map_values(
                            |n: i128| spec_int_text(n as int),
                        ),
                    decreases a@.len() - i,
                {
                    let ghost pre = items.deep_view();
                    items.push(i128_to_text(a[i]));
                    proof {
                        assert(items.deep_view() =~= pre.push(spec_int_text(a@[i as int] as int)));
                        assert(a@.subrange(0, i as int + 1).map_values(
                            |n: i128| spec_int_text(n as int),
                        ) =~= a@.subrange(0, i as int).map_values(
                            |n: i128| spec_int_text(n as int),
                        ).push(spec_int_text(a@[i as int] as int)));
                    }
                    i = i + 1;
                }
                proof {
                    assert(a@.subrange(0, a@.len() as int) =~= a@);
                }
                join_with_commas(&items)
            },
            FlagValue::Float64Array(a) => {
                let mut items: Vec<String> = Vec::new();
                let mut i: usize = 0;
                while i < a.len()
                    invariant
                        0 <= i <= a@.len(),
                        items.deep_view() =~= a@.subrange(0, i as int).map_values(
                            |x: serde_json::Number| text_of_num(x),
                        ),
                    decreases a@.len() - i,
                {
                    let ghost pre = items.deep_view();
                    items.push(number_to_text(&a[i]));
                    proof {
                        assert(items.deep_view() =~= pre.push(text_of_num(a@[i as int])));
                        assert(a@.subrange(0, i as int + 1).map_values(
                            |x: serde_json::Number| text_of_num(x),
                        ) =~= a@.subrange(0, i as int).map_values(
                            |x: serde_json::Number| text_of_num(x),
                        ).push(text_of_num(a@[i as int])));
                    }
                    i = i + 1;
                }
                proof {
                    assert(a@.subrange(0, a@.len() as int) =~= a@);
                }
                join_with_commas(&items)
            },
        }
    }
}

/// Applying a text never changes a value's shape.
pub proof fn lemma_parse_set_tag(v: ValueView, s: Seq<char>)
    ensures
        view_parse_and_set(v, s) matches Some(v2) ==> view_tag(v2) == view_tag(v),
{
    match v {
        ValueView::Bool(_) => {},
        ValueView::Str(_) => {},
        ValueView::Int64(_) => {},
        ValueView::Int128(_) => {},
        ValueView::Float64(_) => {},
        ValueView::StrArr(_) => {},
        ValueView::I64Arr(_) => {},
        ValueView::I128Arr(_) => {},
        ValueView::FloatArr(_) => {},
    }
}

/// Emptying a value never changes its shape.
pub proof fn lemma_clear_tag(v: ValueView)
    ensures
        view_tag(view_clear(v)) == view_tag(v),
{
}

/// Applying a JSON value never changes a value's shape.
pub proof fn lemma_set_json_tag(v: ValueView, j: JsonVal)
    ensures
        view_set_json(v, j) matches Some(v2) ==> view_tag(v2) == view_tag(v),
{
    match v {
        ValueView::Bool(_) => {},
        ValueView::Str(_) => {},
        ValueView::Int64(_) => {},
        ValueView::Int128(_) => {},
        ValueView::Float64(_) => {},
        ValueView::StrArr(_) => {},
        ValueView::I64Arr(_) => {},
        ValueView::I128Arr(_) => {},
        ValueView::FloatArr(_) => {},
    }
}

/// Law: rendering a boolean, text or integer scalar and parsing the text
/// back, at the value's own shape, yields the very same value. (For the
/// double-precision scalar the same law is an `ensures` of `to_text`.)
pub proof fn lemma_scalar_text_round_trip(v: ValueView)
    requires
        view_tag(v) == Tag::Bool || view_tag(v) == Tag::String || view_tag(v) == Tag::Int64
            || view_tag(v) == Tag::Int128,
    ensures
        view_parse_and_set(v, view_text(v)) == Some(v),
{
    reveal_strlit("true");
    reveal_strlit("false");
    assert("true"@.len() == 4);
    assert("false"@.len() == 5);
    match v {
        ValueView::Bool(b) => {
            assert("true"@ != "false"@);
        },
        ValueView::Int64(n) => {
            lemma_int_text_round_trip(n as int);
        },
        ValueView::Int128(n) => {
            lemma_int_text_round_trip(n as int);
        },
        _ => {},
    }
}


impl FlagValue {
    /// The boolean this value holds; it must be a boolean.
    pub fn as_bool(&self) -> (r: bool)
        requires
            self@ is Bool,
        ensures
            self@ == ValueView::Bool(r),
    {
        match self {
            FlagValue::Bool(b) => *b,
            _ => vstd::pervasive::unreached(),
        }
    }

    /// The text this value holds; it must be a text.
    pub fn as_string(&self) -> (r: String)
        requires
            self@ is Str,
        ensures
            self@ == ValueView::Str(r@),
    {
        match self {
            FlagValue::String(s) => s.clone(),
            _ => vstd::pervasive::unreached(),
        }
    }

    /// The 64-bit integer this value holds; it must be one.
    pub fn as_i64(&self) -> (r: i64)
        requires
            self@ is Int64,
        ensures
            self@ == ValueView::Int64(r),
    {
        match self {
            FlagValue::Int64(n) => *n,
            _ => vstd::pervasive::unreached(),
        }
    }

    /// The wide integer this value holds; it must be one.
    pub fn as_i128(&self) -> (r: i128)
        requires
            self@ is Int128,
        ensures
            self@ == ValueView::Int128(r),
    {
        match self {
            FlagValue::Int128(n) => *n,
            _ => vstd::pervasive::unreached(),
        }
    }

    /// The double-precision number this value holds; it must be one. It is
    /// handed out as the JSON number that carries it.
    pub fn as_f64(&self) -> (r: serde_json::Number)
        requires
            self@ is Float64,
        ensures
            self@ == ValueView::Float64(r),
    {
        match self {
            FlagValue::Float64(x) => x.clone(),
            _ => vstd::pervasive::unreached(),
        }
    }

    /// The text array this value holds; it must be one.
    pub fn as_vec_string(&self) -> (r: Vec<String>)
        requires
            self@ is StrArr,
        ensures
            self@ == ValueView::StrArr(r.deep_view()),
    {
        match self {
            FlagValue::StringArray(a) => {
                let r = a.clone();
                proof {
                    assert(r.deep_view() =~= a.deep_view());
                }
                r
            },
            _ => vstd::pervasive::unreached(),
        }
    }

    /// The 64-bit integer array this value holds; it must be one.
    pub fn as_vec_i64(&self) -> (r: Vec<i64>)
        requires
            self@ is I64Arr,
        ensures
            self@ == ValueView::I64Arr(r@),
    {
        match self {
            FlagValue::Int64Array(a) => {
                let r = a.clone();
                proof {
                    assert(r@ =~= a@);
                }
                r
            },
            _ => vstd::pervasive::unreached(),
        }
    }

    /// The wide integer array this value holds; it must be one.
    pub fn as_vec_i128(&self) -> (r: Vec<i128>)
        requires
            self@ is I128Arr,
        ensures
            self@ == ValueView::I128Arr(r@),
    {
        match self {
            FlagValue::Int128Array(a) => {
                let r = a.clone();
                proof {
                    assert(r@ =~= a@);
                }
                r
            },
            _ => vstd::pervasive::unreached(),
        }
    }

    /// The double-precision array this value holds; it must be one.
    pub fn as_vec_f64(&self) -> (r: Vec<serde_json::Number>)
        requires
            self@ is FloatArr,
        ensures
            self@ == ValueView::FloatArr(r@),
    {
        match self {
            FlagValue::Float64Array(a) => {
                let r = a.clone();
                proof {
                    assert(r@ =~= a@);
                }
                r
            },
            _ => vstd::pervasive::unreached(),
        }
    }
}

} // verus!
