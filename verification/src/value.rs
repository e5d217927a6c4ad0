//! The typed header value tree and its mathematical model.

use vstd::prelude::*;

verus! {

/// The model of a header value: what contracts say about values.
pub enum HVal {
    S(Seq<char>),
    I(int),
    B(bool),
    L(Seq<HVal>),
    T(Seq<(Seq<char>, HVal)>),
}

/// A typed header value: a closed union of the value kinds a header can
/// hold. Tables keep their fields in insertion order.
pub enum Value {
    Str(String),
    Int(i64),
    Bool(bool),
    List(Vec<Value>),
    Table(Vec<(String, Value)>),
}

/// The model of a value.
pub open spec fn model_of(v: Value) -> HVal
    decreases v,
{
    match v {
        Value::Str(s) => HVal::S(s@),
        Value::Int(i) => HVal::I(i as int),
        Value::Bool(b) => HVal::B(b),
        Value::List(items) => HVal::L(models_of(items@)),
        Value::Table(pairs) => HVal::T(pair_models_of(pairs@)),
    }
}

/// The models of a sequence of values, in order.
pub open spec fn models_of(items: Seq<Value>) -> Seq<HVal>
    decreases items,
{
    if items.len() == 0 {
        Seq::<HVal>::empty()
    } else {
        seq![model_of(items[0])] + models_of(items.drop_first())
    }
}

/// The models of a sequence of table fields, in order.
pub open spec fn pair_models_of(pairs: Seq<(String, Value)>) -> Seq<(Seq<char>, HVal)>
    decreases pairs,
{
    if pairs.len() == 0 {
        Seq::<(Seq<char>, HVal)>::empty()
    } else {
        seq![(pairs[0].0@, model_of(pairs[0].1))] + pair_models_of(pairs.drop_first())
    }
}

pub proof fn lemma_models_of_index(items: Seq<Value>, i: int)
    requires
        0 <= i < items.len(),
    ensures
        models_of(items).len() == items.len(),
        models_of(items)[i] == model_of(items[i]),
    decreases items,
{
    lemma_models_of_len(items);
    if i > 0 {
        lemma_models_of_index(items.drop_first(), i - 1);
    }
}

pub proof fn lemma_models_of_len(items: Seq<Value>)
    ensures
        models_of(items).len() == items.len(),
    decreases items,
{
    if items.len() > 0 {
        lemma_models_of_len(items.drop_first());
    }
}

pub proof fn lemma_pair_models_of_index(pairs: Seq<(String, Value)>, i: int)
    requires
        0 <= i < pairs.len(),
    ensures
        pair_models_of(pairs).len() == pairs.len(),
        pair_models_of(pairs)[i] == (pairs[i].0@, model_of(pairs[i].1)),
    decreases pairs,
{
    lemma_pair_models_of_len(pairs);
    if i > 0 {
        lemma_pair_models_of_index(pairs.drop_first(), i - 1);
    }
}

pub proof fn lemma_pair_models_of_len(pairs: Seq<(String, Value)>)
    ensures
        pair_models_of(pairs).len() == pairs.len(),
    decreases pairs,
{
    if pairs.len() > 0 {
        lemma_pair_models_of_len(pairs.drop_first());
    }
}

impl Value {
    /// The model of this value.
    pub open spec fn model(self) -> HVal {
        model_of(self)
    }
}

pub proof fn lemma_pair_models_of_update(s: Seq<(String, Value)>, i: int, p: (String, Value))
    requires
        0 <= i < s.len(),
    ensures
        pair_models_of(s.update(i, p)) == pair_models_of(s).update(i, (p.0@, model_of(p.1))),
    decreases s,
{
    lemma_pair_models_of_len(s);
    lemma_pair_models_of_len(s.update(i, p));
    if i == 0 {
        assert(s.update(0, p).drop_first() =~= s.drop_first());
        assert(pair_models_of(s.update(0, p)) =~= pair_models_of(s).update(
            0,
            (p.0@, model_of(p.1)),
        ));
    } else {
        assert(s.update(i, p).drop_first() =~= s.drop_first().update(i - 1, p));
        lemma_pair_models_of_update(s.drop_first(), i - 1, p);
        assert(pair_models_of(s.update(i, p)) =~= pair_models_of(s).update(
            i,
            (p.0@, model_of(p.1)),
        ));
    }
}

pub proof fn lemma_pair_models_of_push(s: Seq<(String, Value)>, p: (String, Value))
    ensures
        pair_models_of(s.push(p)) == pair_models_of(s).push((p.0@, model_of(p.1))),
    decreases s,
{
    if s.len() == 0 {
        assert(s.push(p)[0] == p);
        assert(s.push(p).drop_first() =~= Seq::<(String, Value)>::empty());
        assert(pair_models_of(s.push(p)) == seq![(p.0@, model_of(p.1))] + pair_models_of(
            s.push(p).drop_first(),
        ));
        assert(pair_models_of(s.push(p)) =~~= pair_models_of(s).push((p.0@, model_of(p.1))));
    } else {
        assert(s.push(p)[0] == s[0]);
        assert(s.push(p).drop_first() =~= s.drop_first().push(p));
        lemma_pair_models_of_push(s.drop_first(), p);
        lemma_pair_models_of_len(s);
        lemma_pair_models_of_len(s.drop_first());
        assert(pair_models_of(s.push(p)) =~~= pair_models_of(s).push((p.0@, model_of(p.1))));
    }
}

pub proof fn lemma_pair_models_of_remove(s: Seq<(String, Value)>, i: int)
    requires
        0 <= i < s.len(),
    ensures
        pair_models_of(s.remove(i)) == pair_models_of(s).remove(i),
    decreases s,
{
    lemma_pair_models_of_len(s);
    if i == 0 {
        assert(s.remove(0) =~= s.drop_first());
        assert(pair_models_of(s).remove(0) =~= pair_models_of(s.drop_first()));
    } else {
        assert(s.remove(i).drop_first() =~= s.drop_first().remove(i - 1));
        assert(s.remove(i)[0] == s[0]);
        lemma_pair_models_of_remove(s.drop_first(), i - 1);
        assert(pair_models_of(s.remove(i)) =~= pair_models_of(s).remove(i));
    }
}

pub proof fn lemma_models_of_skip(s: Seq<Value>, n: int)
    requires
        0 <= n <= s.len(),
    ensures
        models_of(s.skip(n)) == models_of(s).skip(n),
    decreases n,
{
    lemma_models_of_len(s);
    if n == 0 {
        assert(s.skip(0) =~= s);
        assert(models_of(s).skip(0) =~= models_of(s));
    } else {
        assert(s.skip(n) =~= s.drop_first().skip(n - 1));
        lemma_models_of_skip(s.drop_first(), n - 1);
        lemma_models_of_len(s.drop_first());
        assert(models_of(s).skip(n) =~= models_of(s.drop_first()).skip(n - 1));
    }
}

pub proof fn lemma_pair_models_of_skip(s: Seq<(String, Value)>, n: int)
    requires
        0 <= n <= s.len(),
    ensures
        pair_models_of(s.skip(n)) == pair_models_of(s).skip(n),
    decreases n,
{
    lemma_pair_models_of_len(s);
    if n == 0 {
        assert(s.skip(0) =~= s);
        assert(pair_models_of(s).skip(0) =~= pair_models_of(s));
    } else {
        assert(s.skip(n) =~= s.drop_first().skip(n - 1));
        lemma_pair_models_of_skip(s.drop_first(), n - 1);
        lemma_pair_models_of_len(s.drop_first());
        assert(pair_models_of(s).skip(n) =~= pair_models_of(s.drop_first()).skip(n - 1));
    }
}

} // verus!
