//! Standalone header-field filters over entries — equality and
//! greater-than on one dotted field — and the deep value equality they
//! build on.

use vstd::prelude::*;
use crate::TypeError;
use crate::entry::Entry;
use crate::entry::read_path;
use crate::strutil::spec_split;
use crate::value::HVal;
use crate::value::Value;
use crate::value::model_of;
use crate::value::models_of;
use crate::value::pair_models_of;
use crate::value::lemma_models_of_index;
use crate::value::lemma_models_of_len;
use crate::value::lemma_pair_models_of_index;
use crate::value::lemma_pair_models_of_len;

verus! {

/// Deep equality of two header values: their models are equal.
pub fn value_eq(a: &Value, b: &Value) -> (r: bool)
    ensures
        r == (model_of(*a) == model_of(*b)),
    decreases *a, 0int,
{
    match a {
        Value::Str(x) => match b {
            Value::Str(y) => *x == *y,
            _ => false,
        },
        Value::Int(x) => match b {
            Value::Int(y) => *x == *y,
            _ => false,
        },
        Value::Bool(x) => match b {
            Value::Bool(y) => *x == *y,
            _ => false,
        },
        Value::List(xs) => match b {
            Value::List(ys) => vals_eq(xs, ys),
            _ => false,
        },
        Value::Table(xp) => match b {
            Value::Table(yp) => pairs_eq(xp, yp),
            _ => false,
        },
    }
}

fn vals_eq(xs: &Vec<Value>, ys: &Vec<Value>) -> (r: bool)
    ensures
        r == (models_of(xs@) == models_of(ys@)),
    decreases xs, 1int,
{
    proof {
        lemma_models_of_len(xs@);
        lemma_models_of_len(ys@);
    }
    if xs.len() != ys.len() {
        return false;
    }
    let mut i: usize = 0;
    while i < xs.len()
        invariant
            i <= xs@.len(),
            xs@.len() == ys@.len(),
            forall|j: int| 0 <= j < i ==> model_of(#[trigger] xs@[j]) == model_of(ys@[j]),
        decreases xs@.len() - i,
    {
        if !value_eq(&xs[i], &ys[i]) {
            proof {
                lemma_models_of_index(xs@, i as int);
                lemma_models_of_index(ys@, i as int);
                assert(models_of(xs@)[i as int] != models_of(ys@)[i as int]);
            }
            return false;
        }
        i = i + 1;
    }
    proof {
        assert forall|m: int| 0 <= m < xs@.len() implies #[trigger] models_of(xs@)[m]
            == models_of(ys@)[m] by {
            lemma_models_of_index(xs@, m);
            lemma_models_of_index(ys@, m);
        }
        assert(models_of(xs@) =~= models_of(ys@));
    }
    true
}

fn pairs_eq(xs: &Vec<(String, Value)>, ys: &Vec<(String, Value)>) -> (r: bool)
    ensures
        r == (pair_models_of(xs@) == pair_models_of(ys@)),
    decreases xs, 1int,
{
    proof {
        lemma_pair_models_of_len(xs@);
        lemma_pair_models_of_len(ys@);
    }
    if xs.len() != ys.len() {
        return false;
    }
    let mut i: usize = 0;
    while i < xs.len()
        invariant
            i <= xs@.len(),
            xs@.len() == ys@.len(),
            forall|j: int|
                0 <= j < i ==> (#[trigger] xs@[j]).0@ == ys@[j].0@ && model_of(xs@[j].1)
                    == model_of(ys@[j].1),
        decreases xs@.len() - i,
    {
        let keys_eq = xs[i].0 == ys[i].0;
        if !keys_eq {
            proof {
                lemma_pair_models_of_index(xs@, i as int);
                lemma_pair_models_of_index(ys@, i as int);
                assert(pair_models_of(xs@)[i as int] != pair_models_of(ys@)[i as int]);
            }
            return false;
        }
        if !value_eq(&xs[i].1, &ys[i].1) {
            proof {
                lemma_pair_models_of_index(xs@, i as int);
                lemma_pair_models_of_index(ys@, i as int);
                assert(pair_models_of(xs@)[i as int] != pair_models_of(ys@)[i as int]);
            }
            return false;
        }
        i = i + 1;
    }
    proof {
        assert forall|m: int| 0 <= m < xs@.len() implies #[trigger] pair_models_of(xs@)[m]
            == pair_models_of(ys@)[m] by {
            lemma_pair_models_of_index(xs@, m);
            lemma_pair_models_of_index(ys@, m);
        }
        assert(pair_models_of(xs@) =~= pair_models_of(ys@));
    }
    true
}

/// Deep equality of two entries: header models and content equal.
pub fn entry_eq(a: &Entry, b: &Entry) -> (r: bool)
    ensures
        r == (a.header_model() == b.header_model() && a.content_model() == b.content_model()),
{
    let ha = a.get_header_fields();
    let hb = b.get_header_fields();
    let headers = pairs_eq(ha, hb);
    let contents = *a.get_content() == *b.get_content();
    headers && contents
}

/// Tests one header field for equality with an expected value.
pub struct FieldEq {
    path: String,
    expected: Value,
}

impl FieldEq {
    pub closed spec fn path_text(&self) -> Seq<char> {
        self.path@
    }

    pub closed spec fn expected_model(&self) -> HVal {
        model_of(self.expected)
    }

    pub fn new(path: String, expected_value: Value) -> (r: FieldEq)
        ensures
            r.path_text() == path@,
            r.expected_model() == model_of(expected_value),
    {
        FieldEq { path, expected: expected_value }
    }

    /// True iff the field at the path holds exactly the expected value;
    /// an absent field does not match. Total: never fails.
    pub fn filter(&self, e: &Entry) -> (r: Result<bool, TypeError>)
        ensures
            r matches Ok(b) && b == (read_path(e.header_model(), spec_split(self.path_text(), '.'))
                == Some(self.expected_model())),
    {
        match e.header_read(self.path.as_str()) {
            Some(v) => Ok(value_eq(v, &self.expected)),
            None => Ok(false),
        }
    }
}

/// The comparison the greater-than field filter makes: integer against
/// integer, anything else false.
pub open spec fn gt_pred(expected: HVal, v: HVal) -> bool {
    match (expected, v) {
        (HVal::I(i), HVal::I(j)) => i > j,
        _ => false,
    }
}

/// Tests one header field against an expected value with greater-than.
pub struct FieldGt {
    path: String,
    expected: Value,
}

impl FieldGt {
    pub closed spec fn path_text(&self) -> Seq<char> {
        self.path@
    }

    pub closed spec fn expected_model(&self) -> HVal {
        model_of(self.expected)
    }

    pub fn new(path: String, expected_value: Value) -> (r: FieldGt)
        ensures
            r.path_text() == path@,
            r.expected_model() == model_of(expected_value),
    {
        FieldGt { path, expected: expected_value }
    }

    /// True iff the expected value is an integer strictly above the integer
    /// the field holds; absence and other kinds are false. Total: never
    /// fails.
    pub fn filter(&self, e: &Entry) -> (r: Result<bool, TypeError>)
        ensures
            r matches Ok(b) && b == (match read_path(
                e.header_model(),
                spec_split(self.path_text(), '.'),
            ) {
                Some(v) => gt_pred(self.expected_model(), v),
                None => false,
            }),
    {
        match e.header_read(self.path.as_str()) {
            Some(v) => match v {
                Value::Int(j) => match &self.expected {
                    Value::Int(i) => Ok(*i > *j),
                    _ => Ok(false),
                },
                _ => Ok(false),
            },
            None => Ok(false),
        }
    }
}

} // verus!
