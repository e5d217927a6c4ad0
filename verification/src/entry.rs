//! One document of the store: a typed header tree plus a text body, with
//! dotted-path header access and the round-trip-safe on-disk form
//! `<header encoding>\n<content>`.

use vstd::prelude::*;
use vstd::slice::slice_subrange;
use crate::ParseError;
use crate::TypeError;
use crate::value::HVal;
use crate::value::Value;
use crate::value::model_of;
use crate::value::pair_models_of;
use crate::value::lemma_pair_models_of_index;
use crate::value::lemma_pair_models_of_len;
use crate::value::lemma_pair_models_of_push;
use crate::value::lemma_pair_models_of_update;
use crate::value::lemma_pair_models_of_remove;
use crate::codec::ser_val;
use crate::codec::ser_pairs;
use crate::codec::parse_val;
use crate::codec::bounded_pairs;
use crate::codec::parse_val_x;
use crate::codec::ser_pairs_x;
use crate::codec::lemma_round_trip_val;
use crate::codec::has_key;
use crate::codec::uniq_val;
use crate::codec::uniq_pairs;
use crate::codec::lemma_uniq_push;
use crate::codec::lemma_uniq_update_same;
use crate::codec::lemma_uniq_remove;
use crate::codec::lemma_uniq_pairs_index;
use crate::codec::lemma_parse_uniq_val;
use crate::codec::has_key_x;
use crate::strutil::spec_split;
use crate::strutil::split_string;
use crate::strutil::chars_of;
use crate::strutil::string_from_chars;

verus! {

/// The first index at or after `i` whose key is `k`, or the length if no
/// field has that key.
pub open spec fn find_key(pairs: Seq<(Seq<char>, HVal)>, k: Seq<char>, i: int) -> int
    decreases pairs.len() - i,
{
    if i < 0 || i >= pairs.len() {
        pairs.len() as int
    } else if pairs[i].0 == k {
        i
    } else {
        find_key(pairs, k, i + 1)
    }
}

/// Reading a dotted path: absent keys and non-table intermediate values
/// both yield no value.
pub open spec fn read_path(pairs: Seq<(Seq<char>, HVal)>, path: Seq<Seq<char>>) -> Option<HVal>
    decreases path.len(),
{
    if path.len() == 0 {
        None
    } else {
        let i = find_key(pairs, path[0], 0);
        if i == pairs.len() {
            None
        } else if path.len() == 1 {
            Some(pairs[i].1)
        } else {
            match pairs[i].1 {
                HVal::T(sub) => read_path(sub, path.drop_first()),
                _ => None,
            }
        }
    }
}

/// Inserting at a dotted path, creating intermediate tables as needed;
/// `None` is the type error of a non-table intermediate value.
pub open spec fn insert_path(
    pairs: Seq<(Seq<char>, HVal)>,
    path: Seq<Seq<char>>,
    v: HVal,
) -> Option<Seq<(Seq<char>, HVal)>>
    decreases path.len(),
{
    if path.len() == 0 {
        None
    } else {
        let i = find_key(pairs, path[0], 0);
        if path.len() == 1 {
            if i == pairs.len() {
                Some(pairs.push((path[0], v)))
            } else {
                Some(pairs.update(i, (path[0], v)))
            }
        } else {
            if i == pairs.len() {
                match insert_path(Seq::<(Seq<char>, HVal)>::empty(), path.drop_first(), v) {
                    Some(sub) => Some(pairs.push((path[0], HVal::T(sub)))),
                    None => None,
                }
            } else {
                match pairs[i].1 {
                    HVal::T(sub) => match insert_path(sub, path.drop_first(), v) {
                        Some(s2) => Some(pairs.update(i, (pairs[i].0, HVal::T(s2)))),
                        None => None,
                    },
                    _ => None,
                }
            }
        }
    }
}

/// Deleting a dotted path; the flag says whether a value was removed, and
/// `None` is the type error of a non-table intermediate value.
pub open spec fn delete_path(pairs: Seq<(Seq<char>, HVal)>, path: Seq<Seq<char>>) -> Option<
    (Seq<(Seq<char>, HVal)>, bool),
>
    decreases path.len(),
{
    if path.len() == 0 {
        None
    } else {
        let i = find_key(pairs, path[0], 0);
        if i == pairs.len() {
            Some((pairs, false))
        } else if path.len() == 1 {
            Some((pairs.remove(i), true))
        } else {
            match pairs[i].1 {
                HVal::T(sub) => match delete_path(sub, path.drop_first()) {
                    Some((s2, b)) => Some((pairs.update(i, (pairs[i].0, HVal::T(s2))), b)),
                    None => None,
                },
                _ => None,
            }
        }
    }
}

proof fn lemma_find_key_range(pairs: Seq<(Seq<char>, HVal)>, k: Seq<char>, i: int)
    requires
        0 <= i <= pairs.len(),
    ensures
        i <= find_key(pairs, k, i) <= pairs.len(),
        find_key(pairs, k, i) < pairs.len() ==> pairs[find_key(pairs, k, i)].0 == k,
        forall|j: int| i <= j < find_key(pairs, k, i) ==> (#[trigger] pairs[j].0) != k,
    decreases pairs.len() - i,
{
    if i < pairs.len() && pairs[i].0 != k {
        lemma_find_key_range(pairs, k, i + 1);
    }
}

proof fn lemma_has_key_exists(pairs: Seq<(Seq<char>, HVal)>, k: Seq<char>)
    ensures
        has_key(pairs, k) <==> exists|j: int| 0 <= j < pairs.len() && (#[trigger] pairs[j].0) == k,
    decreases pairs,
{
    if pairs.len() > 0 {
        lemma_has_key_exists(pairs.drop_first(), k);
        if has_key(pairs, k) {
            if pairs[0].0 == k {
                assert(pairs[0].0 == k);
            } else {
                let j = choose|j: int|
                    0 <= j < pairs.drop_first().len() && (#[trigger] pairs.drop_first()[j].0) == k;
                assert(pairs[j + 1].0 == k);
            }
        }
        if exists|j: int| 0 <= j < pairs.len() && (#[trigger] pairs[j].0) == k {
            let j = choose|j: int| 0 <= j < pairs.len() && (#[trigger] pairs[j].0) == k;
            if j > 0 {
                assert(pairs.drop_first()[j - 1].0 == k);
            }
        }
    }
}

/// Inserting a key-unique value into a key-unique header keeps every table
/// key-unique.
pub proof fn lemma_insert_uniq(pairs: Seq<(Seq<char>, HVal)>, path: Seq<Seq<char>>, v: HVal)
    requires
        uniq_pairs(pairs),
        uniq_val(v),
    ensures
        match insert_path(pairs, path, v) {
            Some(h2) => uniq_pairs(h2),
            None => true,
        },
    decreases path.len(),
{
    if path.len() > 0 {
        let i = find_key(pairs, path[0], 0);
        lemma_find_key_range(pairs, path[0], 0);
        if path.len() == 1 {
            if i == pairs.len() {
                lemma_has_key_exists(pairs, path[0]);
                if has_key(pairs, path[0]) {
                    let j = choose|j: int|
                        0 <= j < pairs.len() && (#[trigger] pairs[j].0) == path[0];
                    assert(false);
                }
                lemma_uniq_push(pairs, (path[0], v));
            } else {
                lemma_uniq_update_same(pairs, i, (path[0], v));
            }
        } else {
            if i == pairs.len() {
                assert(uniq_pairs(Seq::<(Seq<char>, HVal)>::empty()));
                lemma_insert_uniq(Seq::<(Seq<char>, HVal)>::empty(), path.drop_first(), v);
                match insert_path(Seq::<(Seq<char>, HVal)>::empty(), path.drop_first(), v) {
                    Some(sub) => {
                        lemma_has_key_exists(pairs, path[0]);
                        if has_key(pairs, path[0]) {
                            let j = choose|j: int|
                                0 <= j < pairs.len() && (#[trigger] pairs[j].0) == path[0];
                            assert(false);
                        }
                        lemma_uniq_push(pairs, (path[0], HVal::T(sub)));
                    },
                    None => {},
                }
            } else {
                lemma_uniq_pairs_index(pairs, i);
                match pairs[i].1 {
                    HVal::T(sub) => {
                        lemma_insert_uniq(sub, path.drop_first(), v);
                        match insert_path(sub, path.drop_first(), v) {
                            Some(s2) => {
                                lemma_uniq_update_same(pairs, i, (pairs[i].0, HVal::T(s2)));
                            },
                            None => {},
                        }
                    },
                    _ => {},
                }
            }
        }
    }
}

/// Deleting at a path in a key-unique header keeps every table key-unique.
pub proof fn lemma_delete_uniq(pairs: Seq<(Seq<char>, HVal)>, path: Seq<Seq<char>>)
    requires
        uniq_pairs(pairs),
    ensures
        match delete_path(pairs, path) {
            Some(p) => uniq_pairs(p.0),
            None => true,
        },
    decreases path.len(),
{
    if path.len() > 0 {
        let i = find_key(pairs, path[0], 0);
        lemma_find_key_range(pairs, path[0], 0);
        if i < pairs.len() {
            if path.len() == 1 {
                lemma_uniq_remove(pairs, i);
            } else {
                lemma_uniq_pairs_index(pairs, i);
                match pairs[i].1 {
                    HVal::T(sub) => {
                        lemma_delete_uniq(sub, path.drop_first());
                        match delete_path(sub, path.drop_first()) {
                            Some(p2) => {
                                lemma_uniq_update_same(pairs, i, (pairs[i].0, HVal::T(p2.0)));
                            },
                            None => {},
                        }
                    },
                    _ => {},
                }
            }
        }
    }
}

proof fn lemma_remove_no_key(pairs: Seq<(Seq<char>, HVal)>, i: int)
    requires
        uniq_pairs(pairs),
        0 <= i < pairs.len(),
    ensures
        !has_key(pairs.remove(i), pairs[i].0),
    decreases pairs,
{
    if i == 0 {
        assert(pairs.remove(0) =~= pairs.drop_first());
    } else {
        if pairs[0].0 == pairs[i].0 {
            lemma_has_key_exists(pairs.drop_first(), pairs[0].0);
            assert(pairs.drop_first()[i - 1].0 == pairs[0].0);
            assert(false);
        }
        assert(pairs.remove(i)[0] == pairs[0]);
        assert(pairs.remove(i).drop_first() =~= pairs.drop_first().remove(i - 1));
        lemma_remove_no_key(pairs.drop_first(), i - 1);
    }
}

proof fn lemma_find_key_pointwise(
    s1: Seq<(Seq<char>, HVal)>,
    s2: Seq<(Seq<char>, HVal)>,
    k: Seq<char>,
    j: int,
)
    requires
        s2.len() == s1.len(),
        forall|m: int| 0 <= m < s1.len() ==> (#[trigger] s2[m].0) == s1[m].0,
        0 <= j <= s1.len(),
    ensures
        find_key(s2, k, j) == find_key(s1, k, j),
    decreases s1.len() - j,
{
    if j < s1.len() {
        lemma_find_key_pointwise(s1, s2, k, j + 1);
    }
}

/// Delete then read: after deleting at a dotted path in a key-unique
/// header, reading that path yields no value.
pub proof fn lemma_delete_then_read(pairs: Seq<(Seq<char>, HVal)>, path: Seq<Seq<char>>)
    requires
        uniq_pairs(pairs),
        path.len() > 0,
    ensures
        match delete_path(pairs, path) {
            Some(p) => read_path(p.0, path) is None,
            None => true,
        },
    decreases path.len(),
{
    let i = find_key(pairs, path[0], 0);
    lemma_find_key_range(pairs, path[0], 0);
    if i == pairs.len() {
    } else if path.len() == 1 {
        let h2 = pairs.remove(i);
        lemma_remove_no_key(pairs, i);
        lemma_has_key_exists(h2, path[0]);
        lemma_find_key_range(h2, path[0], 0);
        if find_key(h2, path[0], 0) < h2.len() {
            assert(h2[find_key(h2, path[0], 0)].0 == path[0]);
            assert(false);
        }
    } else {
        match pairs[i].1 {
            HVal::T(sub) => {
                lemma_uniq_pairs_index(pairs, i);
                lemma_delete_then_read(sub, path.drop_first());
                match delete_path(sub, path.drop_first()) {
                    Some(p2) => {
                        let h2 = pairs.update(i, (pairs[i].0, HVal::T(p2.0)));
                        lemma_find_key_pointwise(pairs, h2, path[0], 0);
                        assert(h2[i] == (pairs[i].0, HVal::T(p2.0)));
                    },
                    None => {},
                }
            },
            _ => {},
        }
    }
}

/// The views of a vector of path segments.
pub open spec fn seg_views(segs: Seq<String>) -> Seq<Seq<char>> {
    segs.map_values(|x: String| x@)
}

fn find_key_x(pairs: &Vec<(String, Value)>, k: &String) -> (r: usize)
    ensures
        r as int == find_key(pair_models_of(pairs@), k@, 0),
        r <= pairs@.len(),
{
    let ghost m = pair_models_of(pairs@);
    proof {
        lemma_pair_models_of_len(pairs@);
    }
    let mut j: usize = 0;
    while j < pairs.len()
        invariant
            j <= pairs@.len(),
            m == pair_models_of(pairs@),
            m.len() == pairs@.len(),
            find_key(m, k@, 0) == find_key(m, k@, j as int),
        decreases pairs@.len() - j,
    {
        proof {
            lemma_pair_models_of_index(pairs@, j as int);
        }
        if pairs[j].0 == *k {
            assert(m[j as int].0 == k@);
            assert(find_key(m, k@, j as int) == j);
            return j;
        }
        assert(m[j as int].0 != k@);
        j = j + 1;
    }
    assert(find_key(m, k@, pairs@.len() as int) == pairs@.len() as int);
    j
}

fn read_in<'a>(pairs: &'a Vec<(String, Value)>, segs: &Vec<String>, pi: usize) -> (r: Option<
    &'a Value,
>)
    requires
        pi < segs@.len(),
    ensures
        match r {
            Some(v) => read_path(pair_models_of(pairs@), seg_views(segs@).skip(pi as int)) == Some(
                model_of(*v),
            ),
            None => read_path(pair_models_of(pairs@), seg_views(segs@).skip(pi as int))
                == None::<HVal>,
        },
    decreases segs@.len() - pi,
{
    let ghost path = seg_views(segs@).skip(pi as int);
    proof {
        assert(path.len() > 0);
        assert(path[0] == segs@[pi as int]@);
        lemma_pair_models_of_len(pairs@);
    }
    let n = segs.len();
    let i = find_key_x(pairs, &segs[pi]);
    if i == pairs.len() {
        return None;
    }
    proof {
        lemma_pair_models_of_index(pairs@, i as int);
    }
    if pi + 1 == n {
        assert(path.len() == 1);
        Some(&pairs[i].1)
    } else {
        assert(path.drop_first() =~= seg_views(segs@).skip(pi + 1));
        match &pairs[i].1 {
            Value::Table(sub) => read_in(sub, segs, pi + 1),
            _ => None,
        }
    }
}

fn insert_in(pairs: &mut Vec<(String, Value)>, segs: &Vec<String>, pi: usize, v: Value) -> (r:
    Result<(), TypeError>)
    requires
        pi < segs@.len(),
    ensures
        match r {
            Ok(()) => insert_path(
                pair_models_of(old(pairs)@),
                seg_views(segs@).skip(pi as int),
                model_of(v),
            ) == Some(pair_models_of(final (pairs)@)),
            Err(e) => e == TypeError::Mismatch && insert_path(
                pair_models_of(old(pairs)@),
                seg_views(segs@).skip(pi as int),
                model_of(v),
            ) == None::<Seq<(Seq<char>, HVal)>> && pair_models_of(final (pairs)@)
                == pair_models_of(old(pairs)@),
        },
    decreases segs@.len() - pi,
{
    let ghost path = seg_views(segs@).skip(pi as int);
    let ghost m0 = pair_models_of(pairs@);
    proof {
        assert(path.len() > 0);
        assert(path[0] == segs@[pi as int]@);
        lemma_pair_models_of_len(pairs@);
    }
    let n = segs.len();
    let i = find_key_x(pairs, &segs[pi]);
    if pi + 1 == n {
        assert(path.len() == 1);
        let key = segs[pi].clone();
        if i == pairs.len() {
            let ghost pre = pairs@;
            pairs.push((key, v));
            proof {
                lemma_pair_models_of_push(pre, (key, v));
            }
        } else {
            let ghost pre = pairs@;
            let _old_pair = pairs.remove(i);
            pairs.insert(i, (key, v));
            proof {
                assert(pairs@ =~= pre.update(i as int, (key, v)));
                lemma_pair_models_of_update(pre, i as int, (key, v));
            }
        }
        Ok(())
    } else {
        assert(path.drop_first() =~= seg_views(segs@).skip(pi + 1));
        if i == pairs.len() {
            let mut sub: Vec<(String, Value)> = Vec::new();
            assert(pair_models_of(sub@) =~= Seq::<(Seq<char>, HVal)>::empty());
            match insert_in(&mut sub, segs, pi + 1, v) {
                Ok(()) => {
                    let key = segs[pi].clone();
                    let ghost pre = pairs@;
                    pairs.push((key, Value::Table(sub)));
                    proof {
                        lemma_pair_models_of_push(pre, (key, Value::Table(sub)));
                    }
                    Ok(())
                },
                Err(e) => Err(e),
            }
        } else {
            proof {
                lemma_pair_models_of_index(pairs@, i as int);
            }
            let ghost pre = pairs@;
            let (key0, oldv) = pairs.remove(i);
            match oldv {
                Value::Table(mut sub) => {
                    let ghost sub0 = pair_models_of(sub@);
                    match insert_in(&mut sub, segs, pi + 1, v) {
                        Ok(()) => {
                            pairs.insert(i, (key0, Value::Table(sub)));
                            proof {
                                assert(pairs@ =~= pre.update(
                                    i as int,
                                    (key0, Value::Table(sub)),
                                ));
                                lemma_pair_models_of_update(
                                    pre,
                                    i as int,
                                    (key0, Value::Table(sub)),
                                );
                                assert(key0@ == m0[i as int].0);
                            }
                            Ok(())
                        },
                        Err(e) => {
                            pairs.insert(i, (key0, Value::Table(sub)));
                            proof {
                                assert(pairs@ =~= pre.update(
                                    i as int,
                                    (key0, Value::Table(sub)),
                                ));
                                lemma_pair_models_of_update(
                                    pre,
                                    i as int,
                                    (key0, Value::Table(sub)),
                                );
                                assert(pair_models_of(pairs@) =~= m0);
                            }
                            Err(e)
                        },
                    }
                },
                other => {
                    pairs.insert(i, (key0, other));
                    proof {
                        assert(pairs@ =~= pre.update(i as int, (key0, other)));
                        lemma_pair_models_of_update(pre, i as int, (key0, other));
                        assert(pair_models_of(pairs@) =~= m0);
                        assert(!(m0[i as int].1 is T));
                    }
                    Err(TypeError::Mismatch)
                },
            }
        }
    }
}

fn delete_in(pairs: &mut Vec<(String, Value)>, segs: &Vec<String>, pi: usize) -> (r: Result<
    bool,
    TypeError,
>)
    requires
        pi < segs@.len(),
    ensures
        match r {
            Ok(b) => delete_path(pair_models_of(old(pairs)@), seg_views(segs@).skip(pi as int))
                == Some((pair_models_of(final (pairs)@), b)),
            Err(e) => e == TypeError::Mismatch && delete_path(
                pair_models_of(old(pairs)@),
                seg_views(segs@).skip(pi as int),
            ) == None::<(Seq<(Seq<char>, HVal)>, bool)> && pair_models_of(final (pairs)@)
                == pair_models_of(old(pairs)@),
        },
    decreases segs@.len() - pi,
{
    let ghost path = seg_views(segs@).skip(pi as int);
    let ghost m0 = pair_models_of(pairs@);
    proof {
        assert(path.len() > 0);
        assert(path[0] == segs@[pi as int]@);
        lemma_pair_models_of_len(pairs@);
    }
    let n = segs.len();
    let i = find_key_x(pairs, &segs[pi]);
    if i == pairs.len() {
        return Ok(false);
    }
    proof {
        lemma_pair_models_of_index(pairs@, i as int);
    }
    if pi + 1 == n {
        assert(path.len() == 1);
        let ghost pre = pairs@;
        let _removed = pairs.remove(i);
        proof {
            lemma_pair_models_of_remove(pre, i as int);
        }
        Ok(true)
    } else {
        assert(path.drop_first() =~= seg_views(segs@).skip(pi + 1));
        let ghost pre = pairs@;
        let (key0, oldv) = pairs.remove(i);
        match oldv {
            Value::Table(mut sub) => {
                match delete_in(&mut sub, segs, pi + 1) {
                    Ok(b) => {
                        pairs.insert(i, (key0, Value::Table(sub)));
                        proof {
                            assert(pairs@ =~= pre.update(i as int, (key0, Value::Table(sub))));
                            lemma_pair_models_of_update(pre, i as int, (key0, Value::Table(sub)));
                            assert(key0@ == m0[i as int].0);
                        }
                        Ok(b)
                    },
                    Err(e) => {
                        pairs.insert(i, (key0, Value::Table(sub)));
                        proof {
                            assert(pairs@ =~= pre.update(i as int, (key0, Value::Table(sub))));
                            lemma_pair_models_of_update(pre, i as int, (key0, Value::Table(sub)));
                            assert(pair_models_of(pairs@) =~= m0);
                        }
                        Err(e)
                    },
                }
            },
            other => {
                pairs.insert(i, (key0, other));
                proof {
                    assert(pairs@ =~= pre.update(i as int, (key0, other)));
                    lemma_pair_models_of_update(pre, i as int, (key0, other));
                    assert(pair_models_of(pairs@) =~= m0);
                    assert(!(m0[i as int].1 is T));
                }
                Err(TypeError::Mismatch)
            },
        }
    }
}

fn key_in_suffix(pairs: &Vec<(String, Value)>, k: &String, j: usize) -> (r: bool)
    requires
        j <= pairs.len(),
    ensures
        r == has_key(pair_models_of(pairs@.skip(j as int)), k@),
    decreases pairs.len() - j,
{
    if j < pairs.len() {
        proof {
            let tail = pairs@.skip(j as int);
            assert(tail.len() > 0);
            assert(tail[0] == pairs@[j as int]);
            assert(tail.drop_first() =~= pairs@.skip(j + 1));
            assert(pair_models_of(tail) == seq![(tail[0].0@, model_of(tail[0].1))]
                + pair_models_of(tail.drop_first()));
            assert(pair_models_of(tail)[0] == (pairs@[j as int].0@, model_of(pairs@[j as int].1)));
            assert(pair_models_of(tail).drop_first() =~= pair_models_of(pairs@.skip(j + 1)));
        }
        if pairs[j].0 == *k {
            true
        } else {
            key_in_suffix(pairs, k, j + 1)
        }
    } else {
        assert(pairs@.skip(j as int) =~= Seq::<(String, Value)>::empty());
        assert(pair_models_of(Seq::<(String, Value)>::empty())
            =~= Seq::<(Seq<char>, HVal)>::empty());
        false
    }
}

/// Every table inside the value has key-unique fields: only such values
/// may enter a header.
pub fn value_keys_unique(v: &Value) -> (r: bool)
    ensures
        r == uniq_val(model_of(*v)),
    decreases *v, 0int, 0int,
{
    match v {
        Value::Str(_) => true,
        Value::Int(_) => true,
        Value::Bool(_) => true,
        Value::List(items) => {
            assert(items@.skip(0) =~= items@);
            items_keys_unique(items, 0)
        },
        Value::Table(pairs) => {
            assert(pairs@.skip(0) =~= pairs@);
            pairs_keys_unique(pairs, 0)
        },
    }
}

fn items_keys_unique(items: &Vec<Value>, i: usize) -> (r: bool)
    requires
        i <= items.len(),
    ensures
        r == crate::codec::uniq_items(crate::value::models_of(items@.skip(i as int))),
    decreases items, 1int, items.len() - i,
{
    if i < items.len() {
        proof {
            let tail = items@.skip(i as int);
            assert(tail.len() > 0);
            assert(tail[0] == items@[i as int]);
            assert(tail.drop_first() =~= items@.skip(i + 1));
            assert(crate::value::models_of(tail) == seq![model_of(tail[0])]
                + crate::value::models_of(tail.drop_first()));
            assert(crate::value::models_of(tail)[0] == model_of(items@[i as int]));
            assert(crate::value::models_of(tail).drop_first() =~= crate::value::models_of(
                items@.skip(i + 1),
            ));
        }
        let h = value_keys_unique(&items[i]);
        if !h {
            return false;
        }
        items_keys_unique(items, i + 1)
    } else {
        assert(items@.skip(i as int) =~= Seq::<Value>::empty());
        assert(crate::value::models_of(Seq::<Value>::empty()) =~= Seq::<HVal>::empty());
        true
    }
}

fn pairs_keys_unique(pairs: &Vec<(String, Value)>, i: usize) -> (r: bool)
    requires
        i <= pairs.len(),
    ensures
        r == uniq_pairs(pair_models_of(pairs@.skip(i as int))),
    decreases pairs, 1int, pairs.len() - i,
{
    if i < pairs.len() {
        proof {
            let tail = pairs@.skip(i as int);
            assert(tail.len() > 0);
            assert(tail[0] == pairs@[i as int]);
            assert(tail.drop_first() =~= pairs@.skip(i + 1));
            assert(pair_models_of(tail) == seq![(tail[0].0@, model_of(tail[0].1))]
                + pair_models_of(tail.drop_first()));
            assert(pair_models_of(tail)[0] == (pairs@[i as int].0@, model_of(pairs@[i as int].1)));
            assert(pair_models_of(tail).drop_first() =~= pair_models_of(pairs@.skip(i + 1)));
        }
        if key_in_suffix(pairs, &pairs[i].0, i + 1) {
            return false;
        }
        let h = value_keys_unique(&pairs[i].1);
        if !h {
            return false;
        }
        pairs_keys_unique(pairs, i + 1)
    } else {
        assert(pairs@.skip(i as int) =~= Seq::<(String, Value)>::empty());
        assert(pair_models_of(Seq::<(String, Value)>::empty())
            =~= Seq::<(Seq<char>, HVal)>::empty());
        true
    }
}

/// The on-disk text of an entry: the encoded header table, one newline,
/// then the content verbatim.
pub open spec fn ser_entry(h: Seq<(Seq<char>, HVal)>, c: Seq<char>) -> Seq<char> {
    ser_val(HVal::T(h)) + seq!['\n'] + c
}

/// Parsing the on-disk text of an entry back into header and content.
pub open spec fn parse_entry(s: Seq<char>) -> Option<(Seq<(Seq<char>, HVal)>, Seq<char>)> {
    match parse_val(s) {
        Some((HVal::T(h), rest)) => {
            if rest.len() >= 1 && rest[0] == '\n' {
                Some((h, rest.drop_first()))
            } else {
                None
            }
        },
        _ => None,
    }
}

/// One document: a typed header tree and a text content body.
pub struct Entry {
    header: Vec<(String, Value)>,
    content: String,
}

impl Entry {
    /// The model of the header: the ordered field tree.
    pub closed spec fn header_model(&self) -> Seq<(Seq<char>, HVal)> {
        pair_models_of(self.header@)
    }

    /// The model of the content.
    pub closed spec fn content_model(&self) -> Seq<char> {
        self.content@
    }

    /// A fresh entry: empty header, empty content.
    pub fn empty() -> (r: Entry)
        ensures
            r.header_model() == Seq::<(Seq<char>, HVal)>::empty(),
            r.content_model() == Seq::<char>::empty(),
            uniq_pairs(r.header_model()),
    {
        let e = Entry { header: Vec::new(), content: String::new() };
        proof {
            assert(e.header_model() =~= Seq::<(Seq<char>, HVal)>::empty());
            assert(uniq_pairs(Seq::<(Seq<char>, HVal)>::empty()));
        }
        e
    }

    /// Reads the value at a dotted header path; an absent path (or one
    /// through a non-table value) yields no value.
    pub fn header_read(&self, path: &str) -> (r: Option<&Value>)
        ensures
            match r {
                Some(v) => read_path(self.header_model(), spec_split(path@, '.')) == Some(
                    model_of(*v),
                ),
                None => read_path(self.header_model(), spec_split(path@, '.')) == None::<HVal>,
            },
    {
        let segs = split_string(path, '.');
        proof {
            crate::strutil::lemma_split_nonempty(path@, '.');
            assert(seg_views(segs@) == spec_split(path@, '.'));
            assert(seg_views(segs@).skip(0) =~= seg_views(segs@));
        }
        read_in(&self.header, &segs, 0)
    }

    /// Inserts a value at a dotted header path, creating intermediate
    /// tables; fails iff some intermediate segment names a non-table value,
    /// or the inserted value holds a table with two fields of one key, and
    /// then changes nothing. Key-unique headers stay key-unique.
    pub fn header_insert(&mut self, path: &str, v: Value) -> (r: Result<(), TypeError>)
        ensures
            match r {
                Ok(()) => uniq_val(model_of(v)) && insert_path(
                    old(self).header_model(),
                    spec_split(path@, '.'),
                    model_of(v),
                ) == Some(final (self).header_model()),
                Err(e) => e == TypeError::Mismatch && (insert_path(
                    old(self).header_model(),
                    spec_split(path@, '.'),
                    model_of(v),
                ) == None::<Seq<(Seq<char>, HVal)>> || !uniq_val(model_of(v))) && final (
                self).header_model() == old(self).header_model(),
            },
            final (self).content_model() == old(self).content_model(),
            uniq_pairs(old(self).header_model()) ==> uniq_pairs(final (self).header_model()),
    {
        if !value_keys_unique(&v) {
            return Err(TypeError::Mismatch);
        }
        let segs = split_string(path, '.');
        proof {
            crate::strutil::lemma_split_nonempty(path@, '.');
            assert(seg_views(segs@) == spec_split(path@, '.'));
            assert(seg_views(segs@).skip(0) =~= seg_views(segs@));
            if uniq_pairs(self.header_model()) {
                lemma_insert_uniq(self.header_model(), seg_views(segs@), model_of(v));
            }
        }
        insert_in(&mut self.header, &segs, 0, v)
    }

    /// Deletes the value at a dotted header path, reporting whether one
    /// existed; fails iff some intermediate segment names a non-table
    /// value, and then changes nothing. Key-unique headers stay key-unique.
    pub fn header_delete(&mut self, path: &str) -> (r: Result<bool, TypeError>)
        ensures
            match r {
                Ok(b) => delete_path(old(self).header_model(), spec_split(path@, '.')) == Some(
                    (final (self).header_model(), b),
                ),
                Err(e) => e == TypeError::Mismatch && delete_path(
                    old(self).header_model(),
                    spec_split(path@, '.'),
                ) == None::<(Seq<(Seq<char>, HVal)>, bool)> && final (self).header_model() == old(
                    self,
                ).header_model(),
            },
            final (self).content_model() == old(self).content_model(),
            uniq_pairs(old(self).header_model()) ==> uniq_pairs(final (self).header_model()),
    {
        let segs = split_string(path, '.');
        proof {
            crate::strutil::lemma_split_nonempty(path@, '.');
            assert(seg_views(segs@) == spec_split(path@, '.'));
            assert(seg_views(segs@).skip(0) =~= seg_views(segs@));
            if uniq_pairs(self.header_model()) {
                lemma_delete_uniq(self.header_model(), seg_views(segs@));
            }
        }
        delete_in(&mut self.header, &segs, 0)
    }

    /// Reads a string value at a dotted header path: no value if the path
    /// is absent, a type error if it holds another kind.
    pub fn read_string(&self, path: &str) -> (r: Result<Option<String>, TypeError>)
        ensures
            match r {
                Ok(Some(s)) => read_path(self.header_model(), spec_split(path@, '.')) == Some(
                    HVal::S(s@),
                ),
                Ok(None) => read_path(self.header_model(), spec_split(path@, '.')) == None::<HVal>,
                Err(e) => e == TypeError::Mismatch && match read_path(
                    self.header_model(),
                    spec_split(path@, '.'),
                ) {
                    Some(v) => !(v is S),
                    None => false,
                },
            },
    {
        match self.header_read(path) {
            None => Ok(None),
            Some(v) => match v {
                Value::Str(s) => Ok(Some(s.clone())),
                _ => Err(TypeError::Mismatch),
            },
        }
    }

    /// Reads a boolean value at a dotted header path: no value if the path
    /// is absent, a type error if it holds another kind.
    pub fn read_bool(&self, path: &str) -> (r: Result<Option<bool>, TypeError>)
        ensures
            match r {
                Ok(Some(b)) => read_path(self.header_model(), spec_split(path@, '.')) == Some(
                    HVal::B(b),
                ),
                Ok(None) => read_path(self.header_model(), spec_split(path@, '.')) == None::<HVal>,
                Err(e) => e == TypeError::Mismatch && match read_path(
                    self.header_model(),
                    spec_split(path@, '.'),
                ) {
                    Some(v) => !(v is B),
                    None => false,
                },
            },
    {
        match self.header_read(path) {
            None => Ok(None),
            Some(v) => match v {
                Value::Bool(b) => Ok(Some(*b)),
                _ => Err(TypeError::Mismatch),
            },
        }
    }

    /// The header's fields, in order.
    pub fn get_header_fields(&self) -> (r: &Vec<(String, Value)>)
        ensures
            pair_models_of(r@) == self.header_model(),
    {
        &self.header
    }

    /// The content body.
    pub fn get_content(&self) -> (r: &String)
        ensures
            r@ == self.content_model(),
    {
        &self.content
    }

    /// Replaces the content body; the header is untouched.
    pub fn set_content(&mut self, c: String)
        ensures
            final (self).content_model() == c@,
            final (self).header_model() == old(self).header_model(),
    {
        self.content = c;
    }

    /// Serializes the entry to its on-disk text.
    pub fn serialize(&self) -> (r: String)
        ensures
            r@ == ser_entry(self.header_model(), self.content_model()),
            bounded_pairs(self.header_model()),
    {
        let mut out: Vec<char> = Vec::new();
        out.push('t');
        ser_pairs_x(&self.header, 0, &mut out);
        out.push('e');
        out.push('\n');
        let mut cs = chars_of(self.content.as_str());
        out.append(&mut cs);
        proof {
            assert(self.header@.skip(0) =~= self.header@);
            assert(out@ =~= ser_entry(self.header_model(), self.content_model()));
        }
        string_from_chars(out.as_slice())
    }

    /// Parses on-disk text into an entry; fails exactly when the text is
    /// not a well-formed entry encoding.
    pub fn parse(s: &str) -> (r: Result<Entry, ParseError>)
        ensures
            match r {
                Ok(e) => parse_entry(s@) == Some((e.header_model(), e.content_model()))
                    && uniq_pairs(e.header_model()),
                Err(pe) => pe == ParseError::HeaderSyntax && parse_entry(s@) == None::<
                    (Seq<(Seq<char>, HVal)>, Seq<char>),
                >,
            },
    {
        proof {
            lemma_parse_uniq_val(s@);
        }
        let cs = chars_of(s);
        match parse_val_x(cs.as_slice()) {
            None => Err(ParseError::HeaderSyntax),
            Some((v, rest)) => match v {
                Value::Table(pairs) => {
                    if rest.len() >= 1 {
                        let c0 = rest[0];
                        if c0 == '\n' {
                            let body = slice_subrange(rest, 1, rest.len());
                            assert(body@ =~= rest@.drop_first());
                            let content = string_from_chars(body);
                            Ok(Entry { header: pairs, content })
                        } else {
                            Err(ParseError::HeaderSyntax)
                        }
                    } else {
                        Err(ParseError::HeaderSyntax)
                    }
                },
                _ => Err(ParseError::HeaderSyntax),
            },
        }
    }
}

/// Whatever entry text parses, its header is key-unique in every table:
/// the parser rejects a duplicate key.
pub proof fn lemma_parse_entry_uniq(s: Seq<char>)
    ensures
        match parse_entry(s) {
            Some(p) => uniq_pairs(p.0),
            None => true,
        },
{
    lemma_parse_uniq_val(s);
}

/// Round trip: parsing the serialized form of any key-unique entry
/// recovers exactly its header tree and content. (The header operations
/// only build key-unique headers; a tree with two fields of one key in a
/// table would serialize to text the parser rejects.)
pub proof fn lemma_entry_round_trip(h: Seq<(Seq<char>, HVal)>, c: Seq<char>)
    requires
        bounded_pairs(h),
        uniq_pairs(h),
    ensures
        parse_entry(ser_entry(h, c)) == Some((h, c)),
{
    lemma_round_trip_val(HVal::T(h), seq!['\n'] + c);
    assert(ser_entry(h, c) =~= ser_val(HVal::T(h)) + (seq!['\n'] + c));
    let rest = seq!['\n'] + c;
    assert(rest[0] == '\n');
    assert(rest.drop_first() =~= c);
}

} // verus!
