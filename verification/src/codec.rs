//! The on-disk text encoding of header values, and its round-trip proof.
//!
//! The encoding is canonical and self-delimiting:
//!   - string: `s<len>:<chars>` (length in decimal)
//!   - integer: `i<digits>;` or `i-<digits>;`
//!   - boolean: `bt` or `bf`
//!   - list: `l<values>e`
//!   - table: `t<key><value>...e`, key encoded `k<len>:<chars>`
//!
//! Parsing one value of this form from the front of a character sequence
//! recovers exactly the value and leaves the rest untouched; this is the
//! round-trip law proved at the bottom of this module.

use vstd::prelude::*;
use vstd::slice::slice_subrange;
use crate::value::HVal;
use crate::value::Value;
use crate::value::model_of;
use crate::value::models_of;
use crate::value::pair_models_of;
use crate::strutil::chars_of;
use crate::strutil::string_from_chars;

verus! {

pub open spec fn is_digit(c: char) -> bool {
    c == '0' || c == '1' || c == '2' || c == '3' || c == '4' || c == '5' || c == '6' || c == '7'
        || c == '8' || c == '9'
}

pub open spec fn digit_val(c: char) -> int {
    if c == '0' {
        0
    } else if c == '1' {
        1
    } else if c == '2' {
        2
    } else if c == '3' {
        3
    } else if c == '4' {
        4
    } else if c == '5' {
        5
    } else if c == '6' {
        6
    } else if c == '7' {
        7
    } else if c == '8' {
        8
    } else {
        9
    }
}

pub open spec fn digit_char(d: int) -> char {
    if d == 0 {
        '0'
    } else if d == 1 {
        '1'
    } else if d == 2 {
        '2'
    } else if d == 3 {
        '3'
    } else if d == 4 {
        '4'
    } else if d == 5 {
        '5'
    } else if d == 6 {
        '6'
    } else if d == 7 {
        '7'
    } else if d == 8 {
        '8'
    } else {
        '9'
    }
}

/// The decimal digits of `n`, most significant first, no leading zeros.
pub open spec fn dec_digits(n: nat) -> Seq<char>
    decreases n,
{
    if n < 10 {
        seq![digit_char(n as int)]
    } else {
        dec_digits(n / 10) + seq![digit_char((n % 10) as int)]
    }
}

pub open spec fn pow10(k: nat) -> nat
    decreases k,
{
    if k == 0 {
        1
    } else {
        10 * pow10((k - 1) as nat)
    }
}

/// A value small enough for the encoding: string and key lengths fit the
/// decimal length field, integers fit a machine integer.
pub open spec fn bounded(v: HVal) -> bool
    decreases v,
{
    match v {
        HVal::S(s) => s.len() <= u64::MAX,
        HVal::I(i) => i64::MIN <= i <= i64::MAX,
        HVal::B(_) => true,
        HVal::L(items) => bounded_items(items),
        HVal::T(pairs) => bounded_pairs(pairs),
    }
}

pub open spec fn bounded_items(items: Seq<HVal>) -> bool
    decreases items,
{
    items.len() == 0 || (bounded(items[0]) && bounded_items(items.drop_first()))
}

pub open spec fn bounded_pairs(pairs: Seq<(Seq<char>, HVal)>) -> bool
    decreases pairs,
{
    pairs.len() == 0 || (pairs[0].0.len() <= u64::MAX && bounded(pairs[0].1) && bounded_pairs(
        pairs.drop_first(),
    ))
}

/// Some field of the table has this key.
pub open spec fn has_key(pairs: Seq<(Seq<char>, HVal)>, k: Seq<char>) -> bool
    decreases pairs,
{
    pairs.len() > 0 && (pairs[0].0 == k || has_key(pairs.drop_first(), k))
}

/// A value whose tables, at every depth, have no two fields of one key;
/// only such trees are headers, so that dotted-path reads and deletes act
/// on at most one field.
pub open spec fn uniq_val(v: HVal) -> bool
    decreases v,
{
    match v {
        HVal::S(_) => true,
        HVal::I(_) => true,
        HVal::B(_) => true,
        HVal::L(items) => uniq_items(items),
        HVal::T(pairs) => uniq_pairs(pairs),
    }
}

pub open spec fn uniq_items(items: Seq<HVal>) -> bool
    decreases items,
{
    items.len() == 0 || (uniq_val(items[0]) && uniq_items(items.drop_first()))
}

pub open spec fn uniq_pairs(pairs: Seq<(Seq<char>, HVal)>) -> bool
    decreases pairs,
{
    pairs.len() == 0 || (!has_key(pairs.drop_first(), pairs[0].0) && uniq_val(pairs[0].1)
        && uniq_pairs(pairs.drop_first()))
}

/// The encoding of one value.
pub open spec fn ser_val(v: HVal) -> Seq<char>
    decreases v, 0int,
{
    match v {
        HVal::S(s) => seq!['s'] + dec_digits(s.len()) + seq![':'] + s,
        HVal::I(i) => seq!['i'] + (if i < 0 {
            seq!['-'] + dec_digits((-i) as nat)
        } else {
            dec_digits(i as nat)
        }) + seq![';'],
        HVal::B(b) => seq!['b'] + seq![if b {
            't'
        } else {
            'f'
        }],
        HVal::L(items) => seq!['l'] + ser_items(items) + seq!['e'],
        HVal::T(pairs) => seq!['t'] + ser_pairs(pairs) + seq!['e'],
    }
}

pub open spec fn ser_items(items: Seq<HVal>) -> Seq<char>
    decreases items, 1int,
{
    if items.len() == 0 {
        Seq::<char>::empty()
    } else {
        ser_val(items[0]) + ser_items(items.drop_first())
    }
}

pub open spec fn ser_pairs(pairs: Seq<(Seq<char>, HVal)>) -> Seq<char>
    decreases pairs, 1int,
{
    if pairs.len() == 0 {
        Seq::<char>::empty()
    } else {
        seq!['k'] + dec_digits(pairs[0].0.len()) + seq![':'] + pairs[0].0 + ser_val(pairs[0].1)
            + ser_pairs(pairs.drop_first())
    }
}

/// Reads decimal digits from the front of `s`, most significant first,
/// refusing values that do not fit a 64-bit machine integer.
pub open spec fn parse_nat_loop(s: Seq<char>, acc: nat) -> Option<(nat, Seq<char>)>
    decreases s.len(),
{
    if s.len() > 0 && is_digit(s[0]) {
        if acc * 10 + digit_val(s[0]) > u64::MAX {
            None
        } else {
            parse_nat_loop(s.drop_first(), (acc * 10 + digit_val(s[0])) as nat)
        }
    } else {
        Some((acc, s))
    }
}

pub open spec fn parse_nat(s: Seq<char>) -> Option<(nat, Seq<char>)> {
    if s.len() > 0 && is_digit(s[0]) {
        parse_nat_loop(s, 0)
    } else {
        None
    }
}

/// Reads `<len>:<chars>` from the front of `s`.
pub open spec fn parse_lstr(s: Seq<char>) -> Option<(Seq<char>, Seq<char>)> {
    match parse_nat(s) {
        None => None,
        Some((n, r)) => {
            if r.len() == 0 || r[0] != ':' {
                None
            } else {
                let body = r.drop_first();
                if body.len() < n {
                    None
                } else {
                    Some((body.take(n as int), body.skip(n as int)))
                }
            }
        },
    }
}

/// Parses one encoded value from the front of `s`, returning it and the
/// unconsumed rest.
pub open spec fn parse_val(s: Seq<char>) -> Option<(HVal, Seq<char>)>
    decreases s.len(), 0int,
{
    if s.len() == 0 {
        None
    } else if s[0] == 's' {
        match parse_lstr(s.drop_first()) {
            None => None,
            Some((body, r)) => Some((HVal::S(body), r)),
        }
    } else if s[0] == 'i' {
        let t = s.drop_first();
        let neg = t.len() > 0 && t[0] == '-';
        let u = if neg {
            t.drop_first()
        } else {
            t
        };
        match parse_nat(u) {
            None => None,
            Some((n, r)) => {
                if r.len() == 0 || r[0] != ';' {
                    None
                } else if neg {
                    if n > 0x8000_0000_0000_0000 {
                        None
                    } else {
                        Some((HVal::I(-(n as int)), r.drop_first()))
                    }
                } else {
                    if n > i64::MAX {
                        None
                    } else {
                        Some((HVal::I(n as int), r.drop_first()))
                    }
                }
            },
        }
    } else if s[0] == 'b' {
        let t = s.drop_first();
        if t.len() == 0 {
            None
        } else if t[0] == 't' {
            Some((HVal::B(true), t.drop_first()))
        } else if t[0] == 'f' {
            Some((HVal::B(false), t.drop_first()))
        } else {
            None
        }
    } else if s[0] == 'l' {
        match parse_items(s.drop_first()) {
            None => None,
            Some((items, r)) => Some((HVal::L(items), r)),
        }
    } else if s[0] == 't' {
        match parse_pairs(s.drop_first()) {
            None => None,
            Some((pairs, r)) => Some((HVal::T(pairs), r)),
        }
    } else {
        None
    }
}

/// Parses encoded values until the list terminator.
pub open spec fn parse_items(s: Seq<char>) -> Option<(Seq<HVal>, Seq<char>)>
    decreases s.len(), 1int,
{
    if s.len() == 0 {
        None
    } else if s[0] == 'e' {
        Some((Seq::<HVal>::empty(), s.drop_first()))
    } else {
        match parse_val(s) {
            None => None,
            Some((v, r)) => {
                if r.len() < s.len() {
                    match parse_items(r) {
                        None => None,
                        Some((items, r2)) => Some((seq![v] + items, r2)),
                    }
                } else {
                    None
                }
            },
        }
    }
}

/// Parses encoded key/value fields until the table terminator.
pub open spec fn parse_pairs(s: Seq<char>) -> Option<(Seq<(Seq<char>, HVal)>, Seq<char>)>
    decreases s.len(), 1int,
{
    if s.len() == 0 {
        None
    } else if s[0] == 'e' {
        Some((Seq::<(Seq<char>, HVal)>::empty(), s.drop_first()))
    } else if s[0] == 'k' {
        match parse_lstr(s.drop_first()) {
            None => None,
            Some((key, r)) => {
                if r.len() < s.len() {
                    match parse_val(r) {
                        None => None,
                        Some((v, r2)) => {
                            if r2.len() < s.len() {
                                match parse_pairs(r2) {
                                    None => None,
                                    Some((pairs, r3)) => {
                                        if has_key(pairs, key) {
                                            None
                                        } else {
                                            Some((seq![(key, v)] + pairs, r3))
                                        }
                                    },
                                }
                            } else {
                                None
                            }
                        },
                    }
                } else {
                    None
                }
            },
        }
    } else {
        None
    }
}

pub proof fn lemma_dec_digits_first(n: nat)
    ensures
        dec_digits(n).len() >= 1,
        is_digit(dec_digits(n)[0]),
    decreases n,
{
    if n >= 10 {
        lemma_dec_digits_first(n / 10);
        assert(dec_digits(n)[0] == dec_digits(n / 10)[0]);
    }
}

proof fn lemma_nat_loop(m: nat, rest: Seq<char>, acc: nat)
    requires
        acc * pow10(dec_digits(m).len()) + m <= u64::MAX,
    ensures
        parse_nat_loop(dec_digits(m) + rest, acc) == parse_nat_loop(
            rest,
            (acc * pow10(dec_digits(m).len()) + m) as nat,
        ),
    decreases m,
{
    if m < 10 {
        let s = dec_digits(m) + rest;
        assert(s[0] == digit_char(m as int));
        assert(is_digit(digit_char(m as int)) && digit_val(digit_char(m as int)) == m);
        assert(pow10(0) == 1);
        assert(pow10(1) == 10);
        assert(s.drop_first() =~= rest);
        assert(acc * 10 + m <= u64::MAX);
    } else {
        let pre = dec_digits(m / 10);
        let lastc = digit_char((m % 10) as int);
        let lp = pre.len();
        assert(dec_digits(m) == pre + seq![lastc]);
        assert(dec_digits(m).len() == lp + 1);
        assert(pow10(lp + 1) == 10 * pow10(lp));
        let p = pow10(lp);
        assert((pre + seq![lastc]) + rest =~= pre + (seq![lastc] + rest));
        assert(m == 10 * (m / 10) + m % 10);
        assert(acc * (10 * p) + (10 * (m / 10) + m % 10) <= u64::MAX);
        assert(10 * (acc * p + m / 10) + m % 10 <= u64::MAX) by (nonlinear_arith)
            requires
                acc * (10 * p) + (10 * (m / 10) + m % 10) <= u64::MAX,
        ;
        assert(acc * p + m / 10 <= u64::MAX);
        lemma_nat_loop(m / 10, seq![lastc] + rest, acc);
        let a2 = (acc * p + m / 10) as nat;
        assert(parse_nat_loop(dec_digits(m) + rest, acc) == parse_nat_loop(
            seq![lastc] + rest,
            a2,
        ));
        let s2 = seq![lastc] + rest;
        assert(s2[0] == lastc);
        assert(is_digit(lastc) && digit_val(lastc) == m % 10);
        assert(a2 * 10 + m % 10 <= u64::MAX) by (nonlinear_arith)
            requires
                a2 == acc * p + m / 10,
                10 * (acc * p + m / 10) + m % 10 <= u64::MAX,
        ;
        assert(s2.drop_first() =~= rest);
        assert(a2 * 10 + m % 10 == acc * pow10(dec_digits(m).len()) + m) by (nonlinear_arith)
            requires
                a2 == acc * p + m / 10,
                pow10(dec_digits(m).len()) == 10 * p,
                m == 10 * (m / 10) + m % 10,
        ;
    }
}

pub proof fn lemma_parse_nat_ser(n: nat, rest: Seq<char>)
    requires
        n <= u64::MAX,
        rest.len() == 0 || !is_digit(rest[0]),
    ensures
        parse_nat(dec_digits(n) + rest) == Some((n, rest)),
{
    lemma_dec_digits_first(n);
    assert((dec_digits(n) + rest)[0] == dec_digits(n)[0]);
    assert(pow10(dec_digits(n).len()) >= 1) by {
        lemma_pow10_pos(dec_digits(n).len());
    }
    assert(0 * pow10(dec_digits(n).len()) + n == n) by (nonlinear_arith);
    lemma_nat_loop(n, rest, 0);
    assert(parse_nat_loop(rest, n) == Some((n, rest)));
}

proof fn lemma_pow10_pos(k: nat)
    ensures
        pow10(k) >= 1,
    decreases k,
{
    if k > 0 {
        lemma_pow10_pos((k - 1) as nat);
    }
}

pub proof fn lemma_parse_lstr_ser(k: Seq<char>, rest: Seq<char>)
    requires
        k.len() <= u64::MAX,
    ensures
        parse_lstr(dec_digits(k.len()) + seq![':'] + k + rest) == Some((k, rest)),
{
    let s = dec_digits(k.len()) + seq![':'] + k + rest;
    let tail = seq![':'] + k + rest;
    assert(s =~= dec_digits(k.len()) + tail);
    assert(!is_digit(tail[0]));
    lemma_parse_nat_ser(k.len(), tail);
    assert(parse_nat(s) == Some((k.len(), tail)));
    assert(tail[0] == ':');
    let body = tail.drop_first();
    assert(body =~= k + rest);
    assert(body.len() >= k.len());
    assert(body.take(k.len() as int) =~= k);
    assert(body.skip(k.len() as int) =~= rest);
}

/// Every value encoding is nonempty and begins with a value marker, never
/// a terminator or key marker.
pub proof fn lemma_ser_val_shape(v: HVal)
    ensures
        ser_val(v).len() >= 1,
        ser_val(v)[0] != 'e',
        ser_val(v)[0] != 'k',
{
    match v {
        HVal::S(s) => {
            assert(ser_val(v)[0] == 's');
        },
        HVal::I(i) => {
            assert(ser_val(v)[0] == 'i');
        },
        HVal::B(b) => {
            assert(ser_val(v)[0] == 'b');
        },
        HVal::L(items) => {
            assert(ser_val(v)[0] == 'l');
        },
        HVal::T(pairs) => {
            assert(ser_val(v)[0] == 't');
        },
    }
}

/// Round trip: parsing the encoding of a bounded value from the front of
/// any character sequence yields exactly that value and the rest.
pub proof fn lemma_round_trip_val(v: HVal, rest: Seq<char>)
    requires
        bounded(v),
        uniq_val(v),
    ensures
        parse_val(ser_val(v) + rest) == Some((v, rest)),
    decreases v, 0int,
{
    let s = ser_val(v) + rest;
    assert(s.len() >= 1) by {
        lemma_ser_val_shape(v);
    }
    match v {
        HVal::S(body) => {
            assert(s[0] == 's');
            assert(s.drop_first() =~= dec_digits(body.len()) + seq![':'] + body + rest);
            lemma_parse_lstr_ser(body, rest);
        },
        HVal::I(i) => {
            assert(s[0] == 'i');
            if i < 0 {
                let a = (-i) as nat;
                let t = s.drop_first();
                assert(t =~= seq!['-'] + (dec_digits(a) + (seq![';'] + rest)));
                assert(t[0] == '-');
                let u = t.drop_first();
                assert(u =~= dec_digits(a) + (seq![';'] + rest));
                assert(!is_digit((seq![';'] + rest)[0]));
                lemma_parse_nat_ser(a, seq![';'] + rest);
                let r = seq![';'] + rest;
                assert(r[0] == ';');
                assert(r.drop_first() =~= rest);
                assert(a <= 0x8000_0000_0000_0000);
            } else {
                let t = s.drop_first();
                assert(t =~= dec_digits(i as nat) + (seq![';'] + rest));
                lemma_dec_digits_first(i as nat);
                assert(t[0] == dec_digits(i as nat)[0]);
                assert(!is_digit((seq![';'] + rest)[0]));
                lemma_parse_nat_ser(i as nat, seq![';'] + rest);
                let r = seq![';'] + rest;
                assert(r[0] == ';');
                assert(r.drop_first() =~= rest);
            }
        },
        HVal::B(b) => {
            assert(s[0] == 'b');
            let t = s.drop_first();
            if b {
                assert(t =~= seq!['t'] + rest);
                assert(t[0] == 't');
                assert(t.drop_first() =~= rest);
            } else {
                assert(t =~= seq!['f'] + rest);
                assert(t[0] == 'f');
                assert(t.drop_first() =~= rest);
            }
        },
        HVal::L(items) => {
            assert(s[0] == 'l');
            assert(s.drop_first() =~= ser_items(items) + seq!['e'] + rest);
            lemma_round_trip_items(items, rest);
        },
        HVal::T(pairs) => {
            assert(s[0] == 't');
            assert(s.drop_first() =~= ser_pairs(pairs) + seq!['e'] + rest);
            lemma_round_trip_pairs(pairs, rest);
        },
    }
}

pub proof fn lemma_round_trip_items(items: Seq<HVal>, rest: Seq<char>)
    requires
        bounded_items(items),
        uniq_items(items),
    ensures
        parse_items(ser_items(items) + seq!['e'] + rest) == Some((items, rest)),
    decreases items, 1int,
{
    let s = ser_items(items) + seq!['e'] + rest;
    if items.len() == 0 {
        assert(s =~= seq!['e'] + rest);
        assert(s[0] == 'e');
        assert(s.drop_first() =~= rest);
    } else {
        let v0 = items[0];
        let tail = ser_items(items.drop_first()) + seq!['e'] + rest;
        assert(s =~= ser_val(v0) + tail);
        lemma_ser_val_shape(v0);
        assert(s[0] == ser_val(v0)[0]);
        assert(s[0] != 'e');
        lemma_round_trip_val(v0, tail);
        assert(parse_val(s) == Some((v0, tail)));
        assert(tail.len() < s.len());
        lemma_round_trip_items(items.drop_first(), rest);
        assert(parse_items(tail) == Some((items.drop_first(), rest)));
        assert(seq![v0] + items.drop_first() =~= items);
    }
}

pub proof fn lemma_round_trip_pairs(pairs: Seq<(Seq<char>, HVal)>, rest: Seq<char>)
    requires
        bounded_pairs(pairs),
        uniq_pairs(pairs),
    ensures
        parse_pairs(ser_pairs(pairs) + seq!['e'] + rest) == Some((pairs, rest)),
    decreases pairs, 1int,
{
    let s = ser_pairs(pairs) + seq!['e'] + rest;
    if pairs.len() == 0 {
        assert(s =~= seq!['e'] + rest);
        assert(s[0] == 'e');
        assert(s.drop_first() =~= rest);
    } else {
        let key = pairs[0].0;
        let v0 = pairs[0].1;
        let after_val = ser_pairs(pairs.drop_first()) + seq!['e'] + rest;
        let after_key = ser_val(v0) + after_val;
        assert(s =~= seq!['k'] + (dec_digits(key.len()) + seq![':'] + key + after_key));
        assert(s[0] == 'k');
        assert(s.drop_first() =~= dec_digits(key.len()) + seq![':'] + key + after_key);
        lemma_parse_lstr_ser(key, after_key);
        assert(parse_lstr(s.drop_first()) == Some((key, after_key)));
        lemma_dec_digits_first(key.len());
        assert(after_key.len() < s.len());
        lemma_round_trip_val(v0, after_val);
        assert(parse_val(after_key) == Some((v0, after_val)));
        lemma_ser_val_shape(v0);
        assert(after_val.len() < s.len());
        lemma_round_trip_pairs(pairs.drop_first(), rest);
        assert(parse_pairs(after_val) == Some((pairs.drop_first(), rest)));
        assert(seq![(key, v0)] + pairs.drop_first() =~= pairs);
    }
}

pub(crate) fn is_digit_x(c: char) -> (r: bool)
    ensures
        r == is_digit(c),
{
    match c {
        '0' | '1' | '2' | '3' | '4' | '5' | '6' | '7' | '8' | '9' => true,
        _ => false,
    }
}

pub(crate) fn digit_val_x(c: char) -> (r: u64)
    requires
        is_digit(c),
    ensures
        r as int == digit_val(c),
        r < 10,
{
    match c {
        '0' => 0,
        '1' => 1,
        '2' => 2,
        '3' => 3,
        '4' => 4,
        '5' => 5,
        '6' => 6,
        '7' => 7,
        '8' => 8,
        _ => 9,
    }
}

pub(crate) fn digit_char_x(d: u64) -> (r: char)
    requires
        d < 10,
    ensures
        r == digit_char(d as int),
{
    match d {
        0 => '0',
        1 => '1',
        2 => '2',
        3 => '3',
        4 => '4',
        5 => '5',
        6 => '6',
        7 => '7',
        8 => '8',
        _ => '9',
    }
}

pub(crate) fn push_digits(n: u64, out: &mut Vec<char>)
    ensures
        final (out)@ == old(out)@ + dec_digits(n as nat),
    decreases n,
{
    if n >= 10 {
        push_digits(n / 10, out);
    }
    out.push(digit_char_x(n % 10));
    if n < 10 {
        assert(final (out)@ =~= old(out)@ + dec_digits(n as nat));
    } else {
        assert(final (out)@ =~= old(out)@ + dec_digits(n as nat));
    }
}

/// Appends the encoding of `v` to `out`; every value an exec tree can hold
/// is bounded.
pub fn ser_val_x(v: &Value, out: &mut Vec<char>)
    ensures
        final (out)@ == old(out)@ + ser_val(model_of(*v)),
        bounded(model_of(*v)),
    decreases *v, 0int, 0int,
{
    match v {
        Value::Str(st) => {
            out.push('s');
            let len = st.as_str().unicode_len();
            push_digits(len as u64, out);
            out.push(':');
            let mut cs = chars_of(st.as_str());
            out.append(&mut cs);
            assert(final (out)@ =~= old(out)@ + ser_val(model_of(*v)));
        },
        Value::Int(i) => {
            let i = *i;
            out.push('i');
            if i < 0 {
                out.push('-');
                let a: u64 = ((-(i + 1)) as u64) + 1;
                assert(a as int == -(i as int));
                push_digits(a, out);
            } else {
                push_digits(i as u64, out);
            }
            out.push(';');
            assert(final (out)@ =~= old(out)@ + ser_val(model_of(*v)));
        },
        Value::Bool(b) => {
            out.push('b');
            if *b {
                out.push('t');
            } else {
                out.push('f');
            }
            assert(final (out)@ =~= old(out)@ + ser_val(model_of(*v)));
        },
        Value::List(items) => {
            out.push('l');
            ser_items_x(items, 0, out);
            out.push('e');
            assert(items@.skip(0) =~= items@);
            assert(final (out)@ =~= old(out)@ + ser_val(model_of(*v)));
        },
        Value::Table(pairs) => {
            out.push('t');
            ser_pairs_x(pairs, 0, out);
            out.push('e');
            assert(pairs@.skip(0) =~= pairs@);
            assert(final (out)@ =~= old(out)@ + ser_val(model_of(*v)));
        },
    }
}

fn ser_items_x(items: &Vec<Value>, i: usize, out: &mut Vec<char>)
    requires
        i <= items.len(),
    ensures
        final (out)@ == old(out)@ + ser_items(models_of(items@.skip(i as int))),
        bounded_items(models_of(items@.skip(i as int))),
    decreases items, 1int, items.len() - i,
{
    if i < items.len() {
        ser_val_x(&items[i], out);
        ser_items_x(items, i + 1, out);
        proof {
            let tail = items@.skip(i as int);
            assert(tail.len() > 0);
            assert(tail[0] == items@[i as int]);
            assert(tail.drop_first() =~= items@.skip(i + 1));
            assert(models_of(tail) == seq![model_of(tail[0])] + models_of(tail.drop_first()));
            assert(models_of(tail)[0] == model_of(tail[0]));
            assert(models_of(tail).drop_first() =~= models_of(tail.drop_first()));
            assert(ser_items(models_of(tail)) == ser_val(model_of(items@[i as int])) + ser_items(
                models_of(items@.skip(i + 1)),
            ));
            assert(bounded_items(models_of(tail)));
            assert(final (out)@ =~= old(out)@ + ser_items(models_of(tail)));
        }
    } else {
        assert(items@.skip(i as int) =~= Seq::<Value>::empty());
    }
}

pub(crate) fn ser_pairs_x(pairs: &Vec<(String, Value)>, i: usize, out: &mut Vec<char>)
    requires
        i <= pairs.len(),
    ensures
        final (out)@ == old(out)@ + ser_pairs(pair_models_of(pairs@.skip(i as int))),
        bounded_pairs(pair_models_of(pairs@.skip(i as int))),
    decreases pairs, 1int, pairs.len() - i,
{
    if i < pairs.len() {
        out.push('k');
        let len = pairs[i].0.as_str().unicode_len();
        push_digits(len as u64, out);
        out.push(':');
        let mut cs = chars_of(pairs[i].0.as_str());
        out.append(&mut cs);
        ser_val_x(&pairs[i].1, out);
        ser_pairs_x(pairs, i + 1, out);
        proof {
            let tail = pairs@.skip(i as int);
            assert(tail.len() > 0);
            assert(tail[0] == pairs@[i as int]);
            assert(tail.drop_first() =~= pairs@.skip(i + 1));
            assert(pair_models_of(tail) == seq![(tail[0].0@, model_of(tail[0].1))]
                + pair_models_of(tail.drop_first()));
            assert(pair_models_of(tail)[0] == (pairs@[i as int].0@, model_of(pairs@[i as int].1)));
            assert(pair_models_of(tail).drop_first() =~= pair_models_of(tail.drop_first()));
            assert(final (out)@ =~= old(out)@ + ser_pairs(pair_models_of(tail)));
        }
    } else {
        assert(pairs@.skip(i as int) =~= Seq::<(String, Value)>::empty());
    }
}

pub(crate) fn parse_nat_loop_x<'a>(s: &'a [char], acc: u64) -> (r: Option<(u64, &'a [char])>)
    ensures
        match r {
            Some(p) => parse_nat_loop(s@, acc as nat) == Some(((p.0 as nat), p.1@)),
            None => parse_nat_loop(s@, acc as nat) == None::<(nat, Seq<char>)>,
        },
    decreases s@.len(),
{
    if s.len() > 0 && is_digit_x(s[0]) {
        let d = digit_val_x(s[0]);
        match acc.checked_mul(10) {
            Some(t) => {
                match t.checked_add(d) {
                    Some(acc2) => {
                        let rest = slice_subrange(s, 1, s.len());
                        assert(rest@ =~= s@.drop_first());
                        parse_nat_loop_x(rest, acc2)
                    },
                    None => None,
                }
            },
            None => None,
        }
    } else {
        Some((acc, s))
    }
}

fn parse_lstr_x<'a>(s: &'a [char]) -> (r: Option<(&'a [char], &'a [char])>)
    ensures
        match r {
            Some(p) => parse_lstr(s@) == Some((p.0@, p.1@)),
            None => parse_lstr(s@) == None::<(Seq<char>, Seq<char>)>,
        },
{
    if s.len() == 0 {
        return None;
    }
    if !is_digit_x(s[0]) {
        return None;
    }
    match parse_nat_loop_x(s, 0) {
        None => None,
        Some((n, r)) => {
            if r.len() == 0 {
                return None;
            }
            if r[0] != ':' {
                return None;
            }
            let body_all = slice_subrange(r, 1, r.len());
            assert(body_all@ =~= r@.drop_first());
            if (body_all.len() as u64) < n {
                return None;
            }
            let n_us = n as usize;
            let body = slice_subrange(body_all, 0, n_us);
            let rest = slice_subrange(body_all, n_us, body_all.len());
            assert(body@ =~= body_all@.take(n as int));
            assert(rest@ =~= body_all@.skip(n as int));
            Some((body, rest))
        },
    }
}

/// Parses one encoded value from the front of `s`, exactly as the
/// specification parser does.
pub fn parse_val_x<'a>(s: &'a [char]) -> (r: Option<(Value, &'a [char])>)
    ensures
        match r {
            Some(p) => parse_val(s@) == Some((model_of(p.0), p.1@)),
            None => parse_val(s@) == None::<(HVal, Seq<char>)>,
        },
    decreases s@.len(), 0int,
{
    if s.len() == 0 {
        return None;
    }
    let c = s[0];
    if c == 's' {
        let t = slice_subrange(s, 1, s.len());
        assert(t@ =~= s@.drop_first());
        match parse_lstr_x(t) {
            None => None,
            Some((body, rest)) => {
                let st = string_from_chars(body);
                Some((Value::Str(st), rest))
            },
        }
    } else if c == 'i' {
        let t = slice_subrange(s, 1, s.len());
        assert(t@ =~= s@.drop_first());
        let neg = t.len() > 0 && t[0] == '-';
        let u = if neg {
            let u = slice_subrange(t, 1, t.len());
            assert(u@ =~= t@.drop_first());
            u
        } else {
            t
        };
        if u.len() == 0 || !is_digit_x(u[0]) {
            return None;
        }
        match parse_nat_loop_x(u, 0) {
            None => None,
            Some((n, r)) => {
                if r.len() == 0 {
                    return None;
                }
                if r[0] != ';' {
                    return None;
                }
                let rest = slice_subrange(r, 1, r.len());
                assert(rest@ =~= r@.drop_first());
                if neg {
                    if n > 0x8000_0000_0000_0000 {
                        None
                    } else {
                        let val: i64 = if n == 0x8000_0000_0000_0000 {
                            i64::MIN
                        } else {
                            -(n as i64)
                        };
                        assert(val as int == -(n as int));
                        Some((Value::Int(val), rest))
                    }
                } else {
                    if n > 0x7fff_ffff_ffff_ffff {
                        None
                    } else {
                        Some((Value::Int(n as i64), rest))
                    }
                }
            },
        }
    } else if c == 'b' {
        if s.len() < 2 {
            return None;
        }
        let t0 = s[1];
        assert(t0 == s@.drop_first()[0]);
        let rest = slice_subrange(s, 2, s.len());
        assert(rest@ =~= s@.drop_first().drop_first());
        if t0 == 't' {
            Some((Value::Bool(true), rest))
        } else if t0 == 'f' {
            Some((Value::Bool(false), rest))
        } else {
            None
        }
    } else if c == 'l' {
        let t = slice_subrange(s, 1, s.len());
        assert(t@ =~= s@.drop_first());
        match parse_items_x(t) {
            None => None,
            Some((items, rest)) => Some((Value::List(items), rest)),
        }
    } else if c == 't' {
        let t = slice_subrange(s, 1, s.len());
        assert(t@ =~= s@.drop_first());
        match parse_pairs_x(t) {
            None => None,
            Some((pairs, rest)) => Some((Value::Table(pairs), rest)),
        }
    } else {
        None
    }
}

fn parse_items_x<'a>(s: &'a [char]) -> (r: Option<(Vec<Value>, &'a [char])>)
    ensures
        match r {
            Some(p) => parse_items(s@) == Some((models_of(p.0@), p.1@)),
            None => parse_items(s@) == None::<(Seq<HVal>, Seq<char>)>,
        },
    decreases s@.len(), 1int,
{
    if s.len() == 0 {
        return None;
    }
    if s[0] == 'e' {
        let rest = slice_subrange(s, 1, s.len());
        assert(rest@ =~= s@.drop_first());
        let items: Vec<Value> = Vec::new();
        assert(models_of(items@) =~= Seq::<HVal>::empty());
        return Some((items, rest));
    }
    match parse_val_x(s) {
        None => None,
        Some((v, r)) => {
            if r.len() < s.len() {
                match parse_items_x(r) {
                    None => None,
                    Some((items, r2)) => {
                        let mut items = items;
                        let ghost pre = items@;
                        items.insert(0, v);
                        proof {
                            assert(items@[0] == v);
                            assert(items@.drop_first() =~= pre);
                            assert(models_of(items@) == seq![model_of(v)] + models_of(pre));
                        }
                        Some((items, r2))
                    },
                }
            } else {
                None
            }
        },
    }
}

pub(crate) fn has_key_x(pairs: &Vec<(String, Value)>, k: &String) -> (r: bool)
    ensures
        r == has_key(pair_models_of(pairs@), k@),
{
    let ghost m = pair_models_of(pairs@);
    proof {
        crate::value::lemma_pair_models_of_len(pairs@);
    }
    let mut j: usize = 0;
    assert(m.skip(0) =~= m);
    while j < pairs.len()
        invariant
            j <= pairs@.len(),
            m == pair_models_of(pairs@),
            m.len() == pairs@.len(),
            has_key(m, k@) == has_key(m.skip(j as int), k@),
        decreases pairs@.len() - j,
    {
        proof {
            crate::value::lemma_pair_models_of_index(pairs@, j as int);
            assert(m.skip(j as int)[0] == m[j as int]);
            assert(m.skip(j as int).drop_first() =~= m.skip(j + 1));
        }
        if pairs[j].0 == *k {
            assert(has_key(m.skip(j as int), k@));
            return true;
        }
        j = j + 1;
    }
    assert(m.skip(pairs@.len() as int) =~= Seq::<(Seq<char>, HVal)>::empty());
    false
}

fn parse_pairs_x<'a>(s: &'a [char]) -> (r: Option<(Vec<(String, Value)>, &'a [char])>)
    ensures
        match r {
            Some(p) => parse_pairs(s@) == Some((pair_models_of(p.0@), p.1@)),
            None => parse_pairs(s@) == None::<(Seq<(Seq<char>, HVal)>, Seq<char>)>,
        },
    decreases s@.len(), 1int,
{
    if s.len() == 0 {
        return None;
    }
    if s[0] == 'e' {
        let rest = slice_subrange(s, 1, s.len());
        assert(rest@ =~= s@.drop_first());
        let pairs: Vec<(String, Value)> = Vec::new();
        assert(pair_models_of(pairs@) =~= Seq::<(Seq<char>, HVal)>::empty());
        return Some((pairs, rest));
    }
    if s[0] != 'k' {
        return None;
    }
    let t = slice_subrange(s, 1, s.len());
    assert(t@ =~= s@.drop_first());
    match parse_lstr_x(t) {
        None => None,
        Some((key, r)) => {
            if r.len() < s.len() {
                match parse_val_x(r) {
                    None => None,
                    Some((v, r2)) => {
                        if r2.len() < s.len() {
                            match parse_pairs_x(r2) {
                                None => None,
                                Some((pairs, r3)) => {
                                    let keystr = string_from_chars(key);
                                    if has_key_x(&pairs, &keystr) {
                                        return None;
                                    }
                                    let mut pairs = pairs;
                                    let ghost pre = pairs@;
                                    pairs.insert(0, (keystr, v));
                                    proof {
                                        assert(pairs@[0].0@ == key@);
                                        assert(pairs@[0].1 == v);
                                        assert(pairs@.drop_first() =~= pre);
                                        assert(pair_models_of(pairs@) == seq![(key@, model_of(v))]
                                            + pair_models_of(pre));
                                    }
                                    Some((pairs, r3))
                                },
                            }
                        } else {
                            None
                        }
                    },
                }
            } else {
                None
            }
        },
    }
}

proof fn lemma_has_key_push(s: Seq<(Seq<char>, HVal)>, p: (Seq<char>, HVal), k: Seq<char>)
    ensures
        has_key(s.push(p), k) == (has_key(s, k) || p.0 == k),
    decreases s,
{
    if s.len() == 0 {
        assert(s.push(p)[0] == p);
        assert(s.push(p).drop_first() =~= Seq::<(Seq<char>, HVal)>::empty());
        assert(!has_key(s.push(p).drop_first(), k));
        assert(has_key(s.push(p), k) == (p.0 == k));
        assert(!has_key(s, k));
    } else {
        assert(s.push(p)[0] == s[0]);
        assert(s.push(p).drop_first() =~= s.drop_first().push(p));
        lemma_has_key_push(s.drop_first(), p, k);
        assert(has_key(s.push(p), k) == (s[0].0 == k || has_key(s.drop_first().push(p), k)));
        assert(has_key(s, k) == (s[0].0 == k || has_key(s.drop_first(), k)));
    }
}

proof fn lemma_has_key_update_same(
    s: Seq<(Seq<char>, HVal)>,
    i: int,
    p: (Seq<char>, HVal),
    k: Seq<char>,
)
    requires
        0 <= i < s.len(),
        p.0 == s[i].0,
    ensures
        has_key(s.update(i, p), k) == has_key(s, k),
    decreases s,
{
    if i == 0 {
        assert(s.update(0, p)[0] == p);
        assert(s.update(0, p).drop_first() =~= s.drop_first());
    } else {
        assert(s.update(i, p)[0] == s[0]);
        assert(s.update(i, p).drop_first() =~= s.drop_first().update(i - 1, p));
        lemma_has_key_update_same(s.drop_first(), i - 1, p, k);
    }
}

proof fn lemma_has_key_remove(s: Seq<(Seq<char>, HVal)>, i: int, k: Seq<char>)
    requires
        0 <= i < s.len(),
        has_key(s.remove(i), k),
    ensures
        has_key(s, k),
    decreases s,
{
    if i == 0 {
        assert(s.remove(0) =~= s.drop_first());
    } else {
        assert(s.remove(i)[0] == s[0]);
        assert(s.remove(i).drop_first() =~= s.drop_first().remove(i - 1));
        if s.remove(i)[0].0 != k {
            lemma_has_key_remove(s.drop_first(), i - 1, k);
        }
    }
}

/// Appending a field with a fresh key keeps the table's keys unique.
pub proof fn lemma_uniq_push(s: Seq<(Seq<char>, HVal)>, p: (Seq<char>, HVal))
    requires
        uniq_pairs(s),
        !has_key(s, p.0),
        uniq_val(p.1),
    ensures
        uniq_pairs(s.push(p)),
    decreases s,
{
    if s.len() == 0 {
        assert(s.push(p)[0] == p);
        assert(s.push(p).drop_first() =~= Seq::<(Seq<char>, HVal)>::empty());
        assert(!has_key(s.push(p).drop_first(), p.0));
        assert(uniq_pairs(s.push(p).drop_first()));
    } else {
        assert(s.push(p)[0] == s[0]);
        assert(s.push(p).drop_first() =~= s.drop_first().push(p));
        lemma_uniq_push(s.drop_first(), p);
        lemma_has_key_push(s.drop_first(), p, s[0].0);
        assert(!has_key(s.drop_first().push(p), s[0].0));
    }
}

/// Replacing a field's value, key kept, keeps the table's keys unique.
pub proof fn lemma_uniq_update_same(s: Seq<(Seq<char>, HVal)>, i: int, p: (Seq<char>, HVal))
    requires
        uniq_pairs(s),
        0 <= i < s.len(),
        p.0 == s[i].0,
        uniq_val(p.1),
    ensures
        uniq_pairs(s.update(i, p)),
    decreases s,
{
    if i == 0 {
        assert(s.update(0, p)[0] == p);
        assert(s.update(0, p).drop_first() =~= s.drop_first());
    } else {
        assert(s.update(i, p)[0] == s[0]);
        assert(s.update(i, p).drop_first() =~= s.drop_first().update(i - 1, p));
        lemma_uniq_update_same(s.drop_first(), i - 1, p);
        lemma_has_key_update_same(s.drop_first(), i - 1, p, s[0].0);
    }
}

/// Removing a field keeps the table's keys unique.
pub proof fn lemma_uniq_remove(s: Seq<(Seq<char>, HVal)>, i: int)
    requires
        uniq_pairs(s),
        0 <= i < s.len(),
    ensures
        uniq_pairs(s.remove(i)),
    decreases s,
{
    if i == 0 {
        assert(s.remove(0) =~= s.drop_first());
    } else {
        assert(s.remove(i)[0] == s[0]);
        assert(s.remove(i).drop_first() =~= s.drop_first().remove(i - 1));
        lemma_uniq_remove(s.drop_first(), i - 1);
        if has_key(s.drop_first().remove(i - 1), s[0].0) {
            lemma_has_key_remove(s.drop_first(), i - 1, s[0].0);
        }
    }
}

/// Every field value of a key-unique table is itself key-unique.
pub proof fn lemma_uniq_pairs_index(s: Seq<(Seq<char>, HVal)>, i: int)
    requires
        uniq_pairs(s),
        0 <= i < s.len(),
    ensures
        uniq_val(s[i].1),
    decreases s,
{
    if i > 0 {
        lemma_uniq_pairs_index(s.drop_first(), i - 1);
    }
}

/// Whatever the parser returns has key-unique tables at every depth: the
/// duplicate-key check inside the table parser guarantees it.
pub proof fn lemma_parse_uniq_val(s: Seq<char>)
    ensures
        match parse_val(s) {
            Some(p) => uniq_val(p.0),
            None => true,
        },
    decreases s.len(), 0int,
{
    if s.len() > 0 {
        if s[0] == 'l' {
            lemma_parse_uniq_items(s.drop_first());
        } else if s[0] == 't' {
            lemma_parse_uniq_pairs(s.drop_first());
        }
    }
}

pub proof fn lemma_parse_uniq_items(s: Seq<char>)
    ensures
        match parse_items(s) {
            Some(p) => uniq_items(p.0),
            None => true,
        },
    decreases s.len(), 1int,
{
    if s.len() > 0 && s[0] != 'e' {
        lemma_parse_uniq_val(s);
        match parse_val(s) {
            Some((v, r)) => {
                if r.len() < s.len() {
                    lemma_parse_uniq_items(r);
                    match parse_items(r) {
                        Some((items, r2)) => {
                            assert((seq![v] + items)[0] == v);
                            assert((seq![v] + items).drop_first() =~= items);
                        },
                        None => {},
                    }
                }
            },
            None => {},
        }
    }
}

pub proof fn lemma_parse_uniq_pairs(s: Seq<char>)
    ensures
        match parse_pairs(s) {
            Some(p) => uniq_pairs(p.0),
            None => true,
        },
    decreases s.len(), 1int,
{
    if s.len() > 0 && s[0] == 'k' {
        match parse_lstr(s.drop_first()) {
            Some((key, r)) => {
                if r.len() < s.len() {
                    lemma_parse_uniq_val(r);
                    match parse_val(r) {
                        Some((v, r2)) => {
                            if r2.len() < s.len() {
                                lemma_parse_uniq_pairs(r2);
                                match parse_pairs(r2) {
                                    Some((pairs, r3)) => {
                                        if !has_key(pairs, key) {
                                            assert((seq![(key, v)] + pairs)[0] == (key, v));
                                            assert((seq![(key, v)] + pairs).drop_first()
                                                =~= pairs);
                                        }
                                    },
                                    None => {},
                                }
                            }
                        },
                        None => {},
                    }
                }
            },
            None => {},
        }
    }
}

} // verus!
