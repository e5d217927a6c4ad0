//! The filter predicate language: boolean expressions over header fields,
//! compiled from query text by a recursive-descent parser and evaluated
//! totally against an entry's header.
//!
//! Grammar, with case-insensitive keywords and standard precedence
//! (`not` over `and` over `or`, parentheses override):
//!
//! ```text
//! expr      := or_expr
//! or_expr   := and_expr ("or" and_expr)*
//! and_expr  := unary ("and" unary)*
//! unary     := "not" unary | "(" expr ")" | predicate
//! predicate := field_path comparator literal | field_path
//! comparator:= "==" | "!=" | ">" | ">=" | "<" | "<="
//! literal   := string | integer | boolean
//! ```
//!
//! A bare field path tests that the field holds boolean true. During
//! evaluation an absent field, or a comparison across kinds, is false,
//! never an error.

use vstd::prelude::*;
use crate::StoreError;
use crate::SyntaxError;
use crate::codec::is_digit;
use crate::codec::is_digit_x;
use crate::codec::parse_nat_loop;
use crate::codec::parse_nat_loop_x;
use crate::entry::Entry;
use crate::entry::read_path;
use crate::entry::parse_entry;
use crate::ident::Identifier;
use crate::store::Store;
use crate::ident::norm_char;
use crate::ident::norm_char_x;
use crate::strutil::spec_split;
use crate::strutil::string_from_chars;
use crate::strutil::chars_of;
use crate::value::HVal;

verus! {

/// A comparison operator of the predicate language.
#[derive(Clone, Copy, Debug, PartialEq, Eq, Structural)]
pub enum CmpOp {
    Eq,
    Ne,
    Gt,
    Ge,
    Lt,
    Le,
}

/// A literal in a predicate.
pub enum Literal {
    S(String),
    I(i64),
    B(bool),
}

/// The model of a literal.
pub enum LitModel {
    S(Seq<char>),
    I(int),
    B(bool),
}

/// A compiled predicate: the expression tree a query compiles to.
pub enum Pred {
    Or(Box<Pred>, Box<Pred>),
    And(Box<Pred>, Box<Pred>),
    Not(Box<Pred>),
    Cmp(String, CmpOp, Literal),
    Truthy(String),
}

/// The model of a compiled predicate.
pub enum PredModel {
    Or(Box<PredModel>, Box<PredModel>),
    And(Box<PredModel>, Box<PredModel>),
    Not(Box<PredModel>),
    Cmp(Seq<char>, CmpOp, LitModel),
    Truthy(Seq<char>),
}

pub open spec fn lit_model(l: Literal) -> LitModel {
    match l {
        Literal::S(s) => LitModel::S(s@),
        Literal::I(i) => LitModel::I(i as int),
        Literal::B(b) => LitModel::B(b),
    }
}

pub open spec fn pred_model(p: Pred) -> PredModel
    decreases p,
{
    match p {
        Pred::Or(a, b) => PredModel::Or(Box::new(pred_model(*a)), Box::new(pred_model(*b))),
        Pred::And(a, b) => PredModel::And(Box::new(pred_model(*a)), Box::new(pred_model(*b))),
        Pred::Not(a) => PredModel::Not(Box::new(pred_model(*a))),
        Pred::Cmp(path, op, l) => PredModel::Cmp(path@, op, lit_model(l)),
        Pred::Truthy(path) => PredModel::Truthy(path@),
    }
}

/// One comparison, total over every header value and literal: a value of
/// another kind than the literal compares false; strings and booleans
/// order only by equality.
pub open spec fn cmp_spec(v: HVal, op: CmpOp, l: LitModel) -> bool {
    match (v, l) {
        (HVal::S(s), LitModel::S(t)) => match op {
            CmpOp::Eq => s == t,
            CmpOp::Ne => s != t,
            _ => false,
        },
        (HVal::I(a), LitModel::I(b)) => match op {
            CmpOp::Eq => a == b,
            CmpOp::Ne => a != b,
            CmpOp::Gt => a > b,
            CmpOp::Ge => a >= b,
            CmpOp::Lt => a < b,
            CmpOp::Le => a <= b,
        },
        (HVal::B(x), LitModel::B(y)) => match op {
            CmpOp::Eq => x == y,
            CmpOp::Ne => x != y,
            _ => false,
        },
        _ => false,
    }
}

/// Total evaluation of a predicate against a header tree: an absent field
/// is false, a kind mismatch is false.
pub open spec fn eval_spec(p: PredModel, h: Seq<(Seq<char>, HVal)>) -> bool
    decreases p,
{
    match p {
        PredModel::Or(a, b) => eval_spec(*a, h) || eval_spec(*b, h),
        PredModel::And(a, b) => eval_spec(*a, h) && eval_spec(*b, h),
        PredModel::Not(a) => !eval_spec(*a, h),
        PredModel::Cmp(path, op, l) => match read_path(h, spec_split(path, '.')) {
            Some(v) => cmp_spec(v, op, l),
            None => false,
        },
        PredModel::Truthy(path) => read_path(h, spec_split(path, '.')) == Some(HVal::B(true)),
    }
}

/// One token of query text.
pub enum Token {
    LP,
    RP,
    Op(CmpOp),
    AndKw,
    OrKw,
    NotKw,
    Lit(Literal),
    Path(String),
}

/// The model of a token.
pub enum TokModel {
    LP,
    RP,
    Op(CmpOp),
    AndKw,
    OrKw,
    NotKw,
    Lit(LitModel),
    Path(Seq<char>),
}

pub open spec fn tok_model(t: Token) -> TokModel {
    match t {
        Token::LP => TokModel::LP,
        Token::RP => TokModel::RP,
        Token::Op(o) => TokModel::Op(o),
        Token::AndKw => TokModel::AndKw,
        Token::OrKw => TokModel::OrKw,
        Token::NotKw => TokModel::NotKw,
        Token::Lit(l) => TokModel::Lit(lit_model(l)),
        Token::Path(p) => TokModel::Path(p@),
    }
}

pub open spec fn toks_model(ts: Seq<Token>) -> Seq<TokModel>
    decreases ts,
{
    if ts.len() == 0 {
        Seq::<TokModel>::empty()
    } else {
        seq![tok_model(ts[0])] + toks_model(ts.drop_first())
    }
}

pub open spec fn is_ws(c: char) -> bool {
    c == ' ' || c == '\t' || c == '\n' || c == '\r'
}

/// A character that may stand in a field path: letters, digits,
/// underscore, dash and the dot separator.
pub open spec fn is_ident_char(c: char) -> bool {
    !is_ws(c) && c != '(' && c != ')' && c != '=' && c != '!' && c != '<' && c != '>' && c != '"'
        && !is_digit(c) && c != '-'
}

/// The longest ident prefix of `s`, and the rest.
pub open spec fn scan_ident(s: Seq<char>) -> (Seq<char>, Seq<char>)
    decreases s.len(),
{
    if s.len() > 0 && (is_ident_char(s[0]) || is_digit(s[0])) {
        let r = scan_ident(s.drop_first());
        (seq![s[0]] + r.0, r.1)
    } else {
        (Seq::<char>::empty(), s)
    }
}

/// The chars of a quoted string up to the closing quote, and the rest
/// after it; `None` when the quote never closes.
pub open spec fn scan_str(s: Seq<char>) -> Option<(Seq<char>, Seq<char>)>
    decreases s.len(),
{
    if s.len() == 0 {
        None
    } else if s[0] == '"' {
        Some((Seq::<char>::empty(), s.drop_first()))
    } else {
        match scan_str(s.drop_first()) {
            Some((body, rest)) => Some((seq![s[0]] + body, rest)),
            None => None,
        }
    }
}

/// Case-folded text of a word, for keyword recognition.
pub open spec fn low(s: Seq<char>) -> Seq<char> {
    s.map_values(|c: char| norm_char(c))
}

/// The token sequence of query text, or `None` on a malformed query.
pub open spec fn lex(s: Seq<char>) -> Option<Seq<TokModel>>
    decreases s.len(), 0int,
{
    if s.len() == 0 {
        Some(Seq::<TokModel>::empty())
    } else if is_ws(s[0]) {
        lex(s.drop_first())
    } else if s[0] == '(' {
        lex_cons(TokModel::LP, s.drop_first())
    } else if s[0] == ')' {
        lex_cons(TokModel::RP, s.drop_first())
    } else if s[0] == '=' {
        if s.len() >= 2 && s[1] == '=' {
            lex_cons(TokModel::Op(CmpOp::Eq), s.drop_first().drop_first())
        } else {
            None
        }
    } else if s[0] == '!' {
        if s.len() >= 2 && s[1] == '=' {
            lex_cons(TokModel::Op(CmpOp::Ne), s.drop_first().drop_first())
        } else {
            None
        }
    } else if s[0] == '>' {
        if s.len() >= 2 && s[1] == '=' {
            lex_cons(TokModel::Op(CmpOp::Ge), s.drop_first().drop_first())
        } else {
            lex_cons(TokModel::Op(CmpOp::Gt), s.drop_first())
        }
    } else if s[0] == '<' {
        if s.len() >= 2 && s[1] == '=' {
            lex_cons(TokModel::Op(CmpOp::Le), s.drop_first().drop_first())
        } else {
            lex_cons(TokModel::Op(CmpOp::Lt), s.drop_first())
        }
    } else if s[0] == '"' {
        match scan_str(s.drop_first()) {
            None => None,
            Some((body, rest)) => {
                if rest.len() < s.len() {
                    lex_cons(TokModel::Lit(LitModel::S(body)), rest)
                } else {
                    None
                }
            },
        }
    } else if s[0] == '-' || is_digit(s[0]) {
        let neg = s[0] == '-';
        let u = if neg {
            s.drop_first()
        } else {
            s
        };
        if u.len() == 0 || !is_digit(u[0]) {
            None
        } else {
            match parse_nat_loop(u, 0) {
                None => None,
                Some((n, rest)) => {
                    if neg && n <= 0x8000_0000_0000_0000 && rest.len() < s.len() {
                        lex_cons(TokModel::Lit(LitModel::I(-(n as int))), rest)
                    } else if !neg && n <= i64::MAX && rest.len() < s.len() {
                        lex_cons(TokModel::Lit(LitModel::I(n as int)), rest)
                    } else {
                        None
                    }
                },
            }
        }
    } else if is_ident_char(s[0]) {
        let r = scan_ident(s);
        let word = r.0;
        let rest = r.1;
        if rest.len() < s.len() {
            let w = low(word);
            if w == "and"@ {
                lex_cons(TokModel::AndKw, rest)
            } else if w == "or"@ {
                lex_cons(TokModel::OrKw, rest)
            } else if w == "not"@ {
                lex_cons(TokModel::NotKw, rest)
            } else if w == "true"@ {
                lex_cons(TokModel::Lit(LitModel::B(true)), rest)
            } else if w == "false"@ {
                lex_cons(TokModel::Lit(LitModel::B(false)), rest)
            } else {
                lex_cons(TokModel::Path(word), rest)
            }
        } else {
            None
        }
    } else {
        None
    }
}

pub open spec fn lex_cons(t: TokModel, rest: Seq<char>) -> Option<Seq<TokModel>>
    decreases rest.len(), 1int,
{
    match lex(rest) {
        Some(ts) => Some(seq![t] + ts),
        None => None,
    }
}

/// Parses `unary := "not" unary | "(" expr ")" | predicate`.
pub open spec fn p_unary(ts: Seq<TokModel>) -> Option<(PredModel, Seq<TokModel>)>
    decreases ts.len(), 0int,
{
    if ts.len() == 0 {
        None
    } else {
        match ts[0] {
            TokModel::NotKw => match p_unary(ts.drop_first()) {
                Some((p, r)) => Some((PredModel::Not(Box::new(p)), r)),
                None => None,
            },
            TokModel::LP => match p_expr(ts.drop_first()) {
                Some((p, r)) => {
                    if r.len() > 0 && r[0] is RP {
                        Some((p, r.drop_first()))
                    } else {
                        None
                    }
                },
                None => None,
            },
            TokModel::Path(path) => {
                if ts.len() >= 3 && (ts[1] matches TokModel::Op(_)) && (ts[2] matches
                TokModel::Lit(_)) {
                    let op = ts[1]->Op_0;
                    let l = ts[2]->Lit_0;
                    Some((PredModel::Cmp(path, op, l), ts.drop_first().drop_first().drop_first()))
                } else {
                    Some((PredModel::Truthy(path), ts.drop_first()))
                }
            },
            _ => None,
        }
    }
}

/// Parses `and_expr := unary ("and" unary)*`, left-associated.
pub open spec fn p_and(ts: Seq<TokModel>) -> Option<(PredModel, Seq<TokModel>)>
    decreases ts.len(), 1int,
{
    match p_unary(ts) {
        Some((p, r)) => {
            if r.len() < ts.len() {
                p_and_rest(p, r)
            } else {
                None
            }
        },
        None => None,
    }
}

pub open spec fn p_and_rest(acc: PredModel, ts: Seq<TokModel>) -> Option<(PredModel, Seq<TokModel>)>
    decreases ts.len(), 2int,
{
    if ts.len() > 0 && ts[0] is AndKw {
        match p_unary(ts.drop_first()) {
            Some((p, r)) => {
                if r.len() < ts.len() {
                    p_and_rest(PredModel::And(Box::new(acc), Box::new(p)), r)
                } else {
                    None
                }
            },
            None => None,
        }
    } else {
        Some((acc, ts))
    }
}

/// Parses `or_expr := and_expr ("or" and_expr)*`, left-associated.
pub open spec fn p_expr(ts: Seq<TokModel>) -> Option<(PredModel, Seq<TokModel>)>
    decreases ts.len(), 3int,
{
    match p_and(ts) {
        Some((p, r)) => {
            if r.len() < ts.len() {
                p_or_rest(p, r)
            } else {
                None
            }
        },
        None => None,
    }
}

pub open spec fn p_or_rest(acc: PredModel, ts: Seq<TokModel>) -> Option<(PredModel, Seq<TokModel>)>
    decreases ts.len(), 4int,
{
    if ts.len() > 0 && ts[0] is OrKw {
        match p_and(ts.drop_first()) {
            Some((p, r)) => {
                if r.len() < ts.len() {
                    p_or_rest(PredModel::Or(Box::new(acc), Box::new(p)), r)
                } else {
                    None
                }
            },
            None => None,
        }
    } else {
        Some((acc, ts))
    }
}

proof fn lemma_toks_len(ts: Seq<Token>)
    ensures
        toks_model(ts).len() == ts.len(),
    decreases ts,
{
    if ts.len() > 0 {
        lemma_toks_len(ts.drop_first());
    }
}

proof fn lemma_toks_index(ts: Seq<Token>, i: int)
    requires
        0 <= i < ts.len(),
    ensures
        toks_model(ts).len() == ts.len(),
        toks_model(ts)[i] == tok_model(ts[i]),
    decreases ts,
{
    lemma_toks_len(ts);
    if i > 0 {
        lemma_toks_index(ts.drop_first(), i - 1);
    }
}

proof fn lemma_toks_skip(ts: Seq<Token>, n: int)
    requires
        0 <= n <= ts.len(),
    ensures
        toks_model(ts.skip(n)) == toks_model(ts).skip(n),
    decreases n,
{
    lemma_toks_len(ts);
    if n == 0 {
        assert(ts.skip(0) =~= ts);
        assert(toks_model(ts).skip(0) =~= toks_model(ts));
    } else {
        assert(ts.skip(n) =~= ts.drop_first().skip(n - 1));
        lemma_toks_skip(ts.drop_first(), n - 1);
        lemma_toks_len(ts.drop_first());
        assert(toks_model(ts).skip(n) =~= toks_model(ts.drop_first()).skip(n - 1));
    }
}

fn clone_lit(l: &Literal) -> (r: Literal)
    ensures
        lit_model(r) == lit_model(*l),
{
    match l {
        Literal::S(s) => Literal::S(s.clone()),
        Literal::I(i) => Literal::I(*i),
        Literal::B(b) => Literal::B(*b),
    }
}

fn scan_ident_x<'a>(s: &'a [char]) -> (r: (Vec<char>, &'a [char]))
    ensures
        scan_ident(s@) == (r.0@, r.1@),
    decreases s@.len(),
{
    if s.len() > 0 && (is_ident_char_x(s[0]) || is_digit_x(s[0])) {
        let c = s[0];
        let t = vstd::slice::slice_subrange(s, 1, s.len());
        assert(t@ =~= s@.drop_first());
        let (mut word, rest) = scan_ident_x(t);
        word.insert(0, c);
        proof {
            assert(word@.drop_first() =~= scan_ident(t@).0);
            assert(word@ =~= seq![s@[0]] + scan_ident(s@.drop_first()).0);
        }
        (word, rest)
    } else {
        (Vec::new(), s)
    }
}

fn scan_str_x<'a>(s: &'a [char]) -> (r: Option<(Vec<char>, &'a [char])>)
    ensures
        match r {
            Some(p) => scan_str(s@) == Some((p.0@, p.1@)),
            None => scan_str(s@) == None::<(Seq<char>, Seq<char>)>,
        },
    decreases s@.len(),
{
    if s.len() == 0 {
        None
    } else if s[0] == '"' {
        let rest = vstd::slice::slice_subrange(s, 1, s.len());
        assert(rest@ =~= s@.drop_first());
        Some((Vec::new(), rest))
    } else {
        let c = s[0];
        let t = vstd::slice::slice_subrange(s, 1, s.len());
        assert(t@ =~= s@.drop_first());
        match scan_str_x(t) {
            Some((mut body, rest)) => {
                body.insert(0, c);
                proof {
                    assert(body@.drop_first() =~= scan_str(t@).unwrap().0);
                    assert(body@ =~= seq![s@[0]] + scan_str(s@.drop_first()).unwrap().0);
                }
                Some((body, rest))
            },
            None => None,
        }
    }
}

fn is_ident_char_x(c: char) -> (r: bool)
    ensures
        r == is_ident_char(c),
{
    !(c == ' ' || c == '\t' || c == '\n' || c == '\r') && c != '(' && c != ')' && c != '='
        && c != '!' && c != '<' && c != '>' && c != '"' && !is_digit_x(c) && c != '-'
}

fn is_ws_x(c: char) -> (r: bool)
    ensures
        r == is_ws(c),
{
    c == ' ' || c == '\t' || c == '\n' || c == '\r'
}

fn low_x(v: &Vec<char>) -> (r: String)
    ensures
        r@ == low(v@),
{
    let mut out: Vec<char> = Vec::new();
    let mut i: usize = 0;
    assert(out@ =~= low(v@.take(0)));
    while i < v.len()
        invariant
            i <= v@.len(),
            out@ == low(v@.take(i as int)),
        decreases v@.len() - i,
    {
        out.push(norm_char_x(v[i]));
        assert(out@ =~= low(v@.take(i + 1)));
        i = i + 1;
    }
    assert(v@.take(v@.len() as int) =~= v@);
    string_from_chars(out.as_slice())
}

fn lex_push(t: Token, rest: &[char]) -> (r: Option<Vec<Token>>)
    ensures
        match r {
            Some(ts) => lex_cons(tok_model(t), rest@) == Some(toks_model(ts@)),
            None => lex_cons(tok_model(t), rest@) == None::<Seq<TokModel>>,
        },
    decreases rest@.len(), 1int,
{
    match lex_x(rest) {
        Some(ts) => {
            let mut ts = ts;
            let ghost pre = ts@;
            ts.insert(0, t);
            proof {
                assert(ts@[0] == t);
                assert(ts@.drop_first() =~= pre);
                assert(toks_model(ts@) == seq![tok_model(t)] + toks_model(pre));
            }
            Some(ts)
        },
        None => None,
    }
}

fn lex_x(s: &[char]) -> (r: Option<Vec<Token>>)
    ensures
        match r {
            Some(ts) => lex(s@) == Some(toks_model(ts@)),
            None => lex(s@) == None::<Seq<TokModel>>,
        },
    decreases s@.len(), 0int,
{
    if s.len() == 0 {
        let ts: Vec<Token> = Vec::new();
        assert(toks_model(ts@) =~= Seq::<TokModel>::empty());
        return Some(ts);
    }
    let c = s[0];
    let t1 = vstd::slice::slice_subrange(s, 1, s.len());
    assert(t1@ =~= s@.drop_first());
    if is_ws_x(c) {
        lex_x(t1)
    } else if c == '(' {
        lex_push(Token::LP, t1)
    } else if c == ')' {
        lex_push(Token::RP, t1)
    } else if c == '=' {
        if s.len() >= 2 && s[1] == '=' {
            let t2 = vstd::slice::slice_subrange(s, 2, s.len());
            assert(t2@ =~= s@.drop_first().drop_first());
            lex_push(Token::Op(CmpOp::Eq), t2)
        } else {
            assert(s@.len() >= 2 ==> s@[1] == s[1]);
            None
        }
    } else if c == '!' {
        if s.len() >= 2 && s[1] == '=' {
            let t2 = vstd::slice::slice_subrange(s, 2, s.len());
            assert(t2@ =~= s@.drop_first().drop_first());
            lex_push(Token::Op(CmpOp::Ne), t2)
        } else {
            None
        }
    } else if c == '>' {
        if s.len() >= 2 && s[1] == '=' {
            let t2 = vstd::slice::slice_subrange(s, 2, s.len());
            assert(t2@ =~= s@.drop_first().drop_first());
            lex_push(Token::Op(CmpOp::Ge), t2)
        } else {
            lex_push(Token::Op(CmpOp::Gt), t1)
        }
    } else if c == '<' {
        if s.len() >= 2 && s[1] == '=' {
            let t2 = vstd::slice::slice_subrange(s, 2, s.len());
            assert(t2@ =~= s@.drop_first().drop_first());
            lex_push(Token::Op(CmpOp::Le), t2)
        } else {
            lex_push(Token::Op(CmpOp::Lt), t1)
        }
    } else if c == '"' {
        match scan_str_x(t1) {
            None => None,
            Some((body, rest)) => {
                if rest.len() < s.len() {
                    let st = string_from_chars(body.as_slice());
                    lex_push(Token::Lit(Literal::S(st)), rest)
                } else {
                    None
                }
            },
        }
    } else if c == '-' || is_digit_x(c) {
        let neg = c == '-';
        let u = if neg {
            t1
        } else {
            s
        };
        if u.len() == 0 || !is_digit_x(u[0]) {
            return None;
        }
        match parse_nat_loop_x(u, 0) {
            None => None,
            Some((n, rest)) => {
                if neg && n <= 0x8000_0000_0000_0000 && rest.len() < s.len() {
                    let val: i64 = if n == 0x8000_0000_0000_0000 {
                        i64::MIN
                    } else {
                        -(n as i64)
                    };
                    assert(val as int == -(n as int));
                    lex_push(Token::Lit(Literal::I(val)), rest)
                } else if !neg && n <= 0x7fff_ffff_ffff_ffff && rest.len() < s.len() {
                    lex_push(Token::Lit(Literal::I(n as i64)), rest)
                } else {
                    None
                }
            },
        }
    } else if is_ident_char_x(c) {
        let (word, rest) = scan_ident_x(s);
        if rest.len() < s.len() {
            let w = low_x(&word);
            let kw_and = String::from_str("and");
            let kw_or = String::from_str("or");
            let kw_not = String::from_str("not");
            let kw_true = String::from_str("true");
            let kw_false = String::from_str("false");
            if w == kw_and {
                lex_push(Token::AndKw, rest)
            } else if w == kw_or {
                lex_push(Token::OrKw, rest)
            } else if w == kw_not {
                lex_push(Token::NotKw, rest)
            } else if w == kw_true {
                lex_push(Token::Lit(Literal::B(true)), rest)
            } else if w == kw_false {
                lex_push(Token::Lit(Literal::B(false)), rest)
            } else {
                let pw = string_from_chars(word.as_slice());
                lex_push(Token::Path(pw), rest)
            }
        } else {
            None
        }
    } else {
        None
    }
}

fn p_unary_x<'a>(ts: &'a [Token]) -> (r: Option<(Pred, &'a [Token])>)
    ensures
        match r {
            Some(p) => p_unary(toks_model(ts@)) == Some((pred_model(p.0), toks_model(p.1@))),
            None => p_unary(toks_model(ts@)) == None::<(PredModel, Seq<TokModel>)>,
        },
    decreases ts@.len(), 0int,
{
    let ghost m = toks_model(ts@);
    proof {
        lemma_toks_len(ts@);
    }
    if ts.len() == 0 {
        return None;
    }
    proof {
        lemma_toks_index(ts@, 0);
    }
    match &ts[0] {
        Token::NotKw => {
            let t1 = vstd::slice::slice_subrange(ts, 1, ts.len());
            proof {
                lemma_toks_skip(ts@, 1);
                assert(t1@ =~= ts@.skip(1));
                assert(toks_model(t1@) =~= m.drop_first());
            }
            match p_unary_x(t1) {
                Some((p, r)) => Some((Pred::Not(Box::new(p)), r)),
                None => None,
            }
        },
        Token::LP => {
            let t1 = vstd::slice::slice_subrange(ts, 1, ts.len());
            proof {
                lemma_toks_skip(ts@, 1);
                assert(t1@ =~= ts@.skip(1));
                assert(toks_model(t1@) =~= m.drop_first());
            }
            match p_expr_x(t1) {
                Some((p, r)) => {
                    proof {
                        lemma_toks_len(r@);
                    }
                    if r.len() > 0 {
                        proof {
                            lemma_toks_index(r@, 0);
                        }
                        let is_rp = match &r[0] {
                            Token::RP => true,
                            _ => false,
                        };
                        if is_rp {
                            let r2 = vstd::slice::slice_subrange(r, 1, r.len());
                            proof {
                                lemma_toks_skip(r@, 1);
                                assert(r2@ =~= r@.skip(1));
                                assert(toks_model(r2@) =~= toks_model(r@).drop_first());
                            }
                            Some((p, r2))
                        } else {
                            None
                        }
                    } else {
                        None
                    }
                },
                None => None,
            }
        },
        Token::Path(path) => {
            proof {
                if ts@.len() >= 3 {
                    lemma_toks_index(ts@, 1);
                    lemma_toks_index(ts@, 2);
                }
            }
            if ts.len() >= 3 {
                let op: Option<CmpOp> = match &ts[1] {
                    Token::Op(o) => Some(*o),
                    _ => None,
                };
                let islit = match &ts[2] {
                    Token::Lit(_) => true,
                    _ => false,
                };
                match op {
                    Some(o) if islit => {
                        let l = match &ts[2] {
                            Token::Lit(l) => clone_lit(l),
                            _ => Literal::B(false),
                        };
                        let r3 = vstd::slice::slice_subrange(ts, 3, ts.len());
                        proof {
                            lemma_toks_skip(ts@, 3);
                            assert(r3@ =~= ts@.skip(3));
                            assert(toks_model(r3@) =~= m.drop_first().drop_first().drop_first());
                        }
                        Some((Pred::Cmp(path.clone(), o, l), r3))
                    },
                    _ => {
                        let t1 = vstd::slice::slice_subrange(ts, 1, ts.len());
                        proof {
                            lemma_toks_skip(ts@, 1);
                            assert(t1@ =~= ts@.skip(1));
                            assert(toks_model(t1@) =~= m.drop_first());
                        }
                        Some((Pred::Truthy(path.clone()), t1))
                    },
                }
            } else {
                let t1 = vstd::slice::slice_subrange(ts, 1, ts.len());
                proof {
                    lemma_toks_skip(ts@, 1);
                    assert(t1@ =~= ts@.skip(1));
                    assert(toks_model(t1@) =~= m.drop_first());
                }
                Some((Pred::Truthy(path.clone()), t1))
            }
        },
        _ => None,
    }
}

fn p_and_x<'a>(ts: &'a [Token]) -> (r: Option<(Pred, &'a [Token])>)
    ensures
        match r {
            Some(p) => p_and(toks_model(ts@)) == Some((pred_model(p.0), toks_model(p.1@))),
            None => p_and(toks_model(ts@)) == None::<(PredModel, Seq<TokModel>)>,
        },
    decreases ts@.len(), 1int,
{
    proof {
        lemma_toks_len(ts@);
    }
    match p_unary_x(ts) {
        Some((p, r)) => {
            proof {
                lemma_toks_len(r@);
            }
            if r.len() < ts.len() {
                p_and_rest_x(p, r)
            } else {
                None
            }
        },
        None => None,
    }
}

fn p_and_rest_x<'a>(acc: Pred, ts: &'a [Token]) -> (r: Option<(Pred, &'a [Token])>)
    ensures
        match r {
            Some(p) => p_and_rest(pred_model(acc), toks_model(ts@)) == Some(
                (pred_model(p.0), toks_model(p.1@)),
            ),
            None => p_and_rest(pred_model(acc), toks_model(ts@)) == None::<
                (PredModel, Seq<TokModel>),
            >,
        },
    decreases ts@.len(), 2int,
{
    proof {
        lemma_toks_len(ts@);
    }
    let isand = ts.len() > 0 && (match &ts[0] {
        Token::AndKw => true,
        _ => false,
    });
    proof {
        if ts@.len() > 0 {
            lemma_toks_index(ts@, 0);
        }
    }
    if isand {
        let t1 = vstd::slice::slice_subrange(ts, 1, ts.len());
        proof {
            lemma_toks_skip(ts@, 1);
            assert(t1@ =~= ts@.skip(1));
            assert(toks_model(t1@) =~= toks_model(ts@).drop_first());
        }
        match p_unary_x(t1) {
            Some((p, r)) => {
                proof {
                    lemma_toks_len(r@);
                }
                if r.len() < ts.len() {
                    p_and_rest_x(Pred::And(Box::new(acc), Box::new(p)), r)
                } else {
                    None
                }
            },
            None => None,
        }
    } else {
        Some((acc, ts))
    }
}

fn p_expr_x<'a>(ts: &'a [Token]) -> (r: Option<(Pred, &'a [Token])>)
    ensures
        match r {
            Some(p) => p_expr(toks_model(ts@)) == Some((pred_model(p.0), toks_model(p.1@))),
            None => p_expr(toks_model(ts@)) == None::<(PredModel, Seq<TokModel>)>,
        },
    decreases ts@.len(), 3int,
{
    proof {
        lemma_toks_len(ts@);
    }
    match p_and_x(ts) {
        Some((p, r)) => {
            proof {
                lemma_toks_len(r@);
            }
            if r.len() < ts.len() {
                p_or_rest_x(p, r)
            } else {
                None
            }
        },
        None => None,
    }
}

fn p_or_rest_x<'a>(acc: Pred, ts: &'a [Token]) -> (r: Option<(Pred, &'a [Token])>)
    ensures
        match r {
            Some(p) => p_or_rest(pred_model(acc), toks_model(ts@)) == Some(
                (pred_model(p.0), toks_model(p.1@)),
            ),
            None => p_or_rest(pred_model(acc), toks_model(ts@)) == None::<
                (PredModel, Seq<TokModel>),
            >,
        },
    decreases ts@.len(), 4int,
{
    proof {
        lemma_toks_len(ts@);
    }
    let isor = ts.len() > 0 && (match &ts[0] {
        Token::OrKw => true,
        _ => false,
    });
    proof {
        if ts@.len() > 0 {
            lemma_toks_index(ts@, 0);
        }
    }
    if isor {
        let t1 = vstd::slice::slice_subrange(ts, 1, ts.len());
        proof {
            lemma_toks_skip(ts@, 1);
            assert(t1@ =~= ts@.skip(1));
            assert(toks_model(t1@) =~= toks_model(ts@).drop_first());
        }
        match p_and_x(t1) {
            Some((p, r)) => {
                proof {
                    lemma_toks_len(r@);
                }
                if r.len() < ts.len() {
                    p_or_rest_x(Pred::Or(Box::new(acc), Box::new(p)), r)
                } else {
                    None
                }
            },
            None => None,
        }
    } else {
        Some((acc, ts))
    }
}

/// Compilation of a whole query: token stream, one expression, no trailing
/// tokens. `None` is the syntax error.
pub open spec fn compile_spec(s: Seq<char>) -> Option<PredModel> {
    match lex(s) {
        None => None,
        Some(ts) => match p_expr(ts) {
            Some((p, r)) => {
                if r.len() == 0 {
                    Some(p)
                } else {
                    None
                }
            },
            None => None,
        },
    }
}

/// Compiles query text into a predicate; fails exactly on text outside the
/// grammar, before any entry is touched.
pub fn compile(query: &str) -> (r: Result<Pred, SyntaxError>)
    ensures
        match r {
            Ok(p) => compile_spec(query@) == Some(pred_model(p)),
            Err(e) => (e matches SyntaxError::Malformed(q) && q@ == query@ && compile_spec(query@)
                == None::<PredModel>),
        },
{
    let cs = chars_of(query);
    match lex_x(cs.as_slice()) {
        None => Err(SyntaxError::Malformed(String::from_str(query))),
        Some(ts) => {
            match p_expr_x(ts.as_slice()) {
                None => Err(SyntaxError::Malformed(String::from_str(query))),
                Some((p, rest)) => {
                    proof {
                        lemma_toks_len(rest@);
                    }
                    if rest.len() == 0 {
                        Ok(p)
                    } else {
                        Err(SyntaxError::Malformed(String::from_str(query)))
                    }
                },
            }
        },
    }
}

fn cmp_x(v: &crate::value::Value, op: CmpOp, l: &Literal) -> (r: bool)
    ensures
        r == cmp_spec(crate::value::model_of(*v), op, lit_model(*l)),
{
    match v {
        crate::value::Value::Str(s) => match l {
            Literal::S(t) => {
                let eq = *s == *t;
                match op {
                    CmpOp::Eq => eq,
                    CmpOp::Ne => !eq,
                    _ => false,
                }
            },
            _ => false,
        },
        crate::value::Value::Int(a) => match l {
            Literal::I(b) => {
                let a = *a;
                let b = *b;
                match op {
                    CmpOp::Eq => a == b,
                    CmpOp::Ne => a != b,
                    CmpOp::Gt => a > b,
                    CmpOp::Ge => a >= b,
                    CmpOp::Lt => a < b,
                    CmpOp::Le => a <= b,
                }
            },
            _ => false,
        },
        crate::value::Value::Bool(x) => match l {
            Literal::B(y) => {
                let x = *x;
                let y = *y;
                match op {
                    CmpOp::Eq => x == y,
                    CmpOp::Ne => x != y,
                    _ => false,
                }
            },
            _ => false,
        },
        _ => false,
    }
}

/// Evaluates a compiled predicate against one entry's header. Total: an
/// absent field or a comparison across kinds is false, never an error.
pub fn evaluate(p: &Pred, e: &Entry) -> (r: bool)
    ensures
        r == eval_spec(pred_model(*p), e.header_model()),
    decreases *p,
{
    match p {
        Pred::Or(a, b) => {
            let ra = evaluate(a, e);
            let rb = evaluate(b, e);
            ra || rb
        },
        Pred::And(a, b) => {
            let ra = evaluate(a, e);
            let rb = evaluate(b, e);
            ra && rb
        },
        Pred::Not(a) => !evaluate(a, e),
        Pred::Cmp(path, op, l) => {
            match e.header_read(path.as_str()) {
                Some(v) => cmp_x(v, *op, l),
                None => false,
            }
        },
        Pred::Truthy(path) => {
            match e.header_read(path.as_str()) {
                Some(v) => match v {
                    crate::value::Value::Bool(b) => *b,
                    _ => false,
                },
                None => false,
            }
        },
    }
}

/// The store's entry under `k` is selected by the predicate: it is on
/// disk, parses, and its header satisfies the predicate.
pub open spec fn accepts(st: &Store, p: PredModel, k: Seq<char>) -> bool {
    match st.on_disk(k) {
        Some(t) => match parse_entry(t) {
            Some(e) => eval_spec(p, e.0),
            None => false,
        },
        None => false,
    }
}

/// The identifier list holds `k`.
pub open spec fn id_listed(ids: Seq<Identifier>, k: Seq<char>) -> bool {
    exists|m: int| 0 <= m < ids.len() && (#[trigger] ids[m])@ == k
}

impl Store {
    /// Filtered iteration: the identifiers of exactly those on-disk
    /// entries whose headers the compiled predicate accepts, each once.
    /// The walk loads each entry in turn and releases it again; the store
    /// comes back unchanged. Fails with `Locked` only when an entry is
    /// checked out, and with `Corrupt` only when one does not parse.
    pub fn entries_where(&mut self, p: &Pred) -> (r: Result<Vec<Identifier>, StoreError>)
        requires
            old(self).wf(),
        ensures
            final (self).wf(),
            final (self).root_model() == old(self).root_model(),
            forall|k: Seq<char>| #[trigger] final (self).on_disk(k) == old(self).on_disk(k),
            forall|k: Seq<char>| #[trigger] final (self).is_locked(k) == old(self).is_locked(k),
            match r {
                Ok(ids) => {
                    &&& forall|m: int|
                        0 <= m < ids@.len() ==> (#[trigger] ids@[m]).wf() && accepts(
                            old(self),
                            pred_model(*p),
                            ids@[m]@,
                        )
                    &&& forall|k: Seq<char>|
                        #[trigger] accepts(old(self), pred_model(*p), k) ==> id_listed(ids@, k)
                    &&& forall|m1: int, m2: int|
                        0 <= m1 < m2 < ids@.len() ==> ids@[m1]@ != ids@[m2]@
                },
                Err(e) => {
                    &&& (e == StoreError::Locked || e == StoreError::Corrupt)
                    &&& (e == StoreError::Locked ==> exists|k: Seq<char>|
                        (#[trigger] old(self).on_disk(k)) is Some && old(self).is_locked(k))
                    &&& (e == StoreError::Corrupt ==> exists|k: Seq<char>|
                        match #[trigger] old(self).on_disk(k) {
                            Some(t) => parse_entry(t) is None,
                            None => false,
                        })
                },
            },
    {
        let ghost pm = pred_model(*p);
        let ids = self.entries();
        let mut out: Vec<Identifier> = Vec::new();
        let mut i: usize = 0;
        while i < ids.len()
            invariant
                i <= ids@.len(),
                self.wf(),
                pm == pred_model(*p),
                self.root_model() == old(self).root_model(),
                forall|k: Seq<char>| #[trigger] self.on_disk(k) == old(self).on_disk(k),
                forall|k: Seq<char>| #[trigger] self.is_locked(k) == old(self).is_locked(k),
                forall|j: int|
                    0 <= j < ids@.len() ==> (#[trigger] ids@[j]).wf() && old(self).on_disk(
                        ids@[j]@,
                    ) is Some,
                forall|k: Seq<char>|
                    old(self).on_disk(k) is Some ==> #[trigger] id_listed(ids@, k),
                forall|j1: int, j2: int| 0 <= j1 < j2 < ids@.len() ==> ids@[j1]@ != ids@[j2]@,
                forall|m: int|
                    0 <= m < out@.len() ==> (#[trigger] out@[m]).wf() && accepts(
                        old(self),
                        pm,
                        out@[m]@,
                    ),
                forall|m: int|
                    0 <= m < out@.len() ==> exists|j: int|
                        0 <= j < i && (#[trigger] out@[m])@ == ids@[j]@,
                forall|m1: int, m2: int| 0 <= m1 < m2 < out@.len() ==> out@[m1]@ != out@[m2]@,
                forall|j: int|
                    0 <= j < i && #[trigger] accepts(old(self), pm, ids@[j]@) ==> id_listed(
                        out@,
                        ids@[j]@,
                    ),
            decreases ids@.len() - i,
        {
            let ghost out_pre = out@;
            match self.get(&ids[i]) {
                Ok(Some(h)) => {
                    let keep = evaluate(p, h.get_entry());
                    proof {
                        assert(keep == accepts(old(self), pm, ids@[i as int]@));
                    }
                    match self.release(h) {
                        Ok(()) => {},
                        Err(_) => {
                            proof {
                                assert(false);
                            }
                        },
                    }
                    if keep {
                        let idc = ids[i].clone();
                        proof {
                            assert forall|m: int|
                                0 <= m < out@.len() implies (#[trigger] out@[m])@ != ids@[
                                i as int
                            ]@ by {
                                let j0 = choose|j: int|
                                    0 <= j < i && (#[trigger] out@[m])@ == ids@[j]@;
                                assert(ids@[j0]@ != ids@[i as int]@);
                            }
                        }
                        out.push(idc);
                        proof {
                            assert(out@[out@.len() - 1]@ == ids@[i as int]@);
                        }
                    }
                },
                Ok(None) => {
                    proof {
                        assert(old(self).on_disk(ids@[i as int]@) is Some);
                        assert(false);
                    }
                    return Err(StoreError::NotFound);
                },
                Err(e) => {
                    proof {
                        if e == StoreError::Locked {
                            assert(old(self).on_disk(ids@[i as int]@) is Some && old(
                                self,
                            ).is_locked(ids@[i as int]@));
                        } else {
                            assert(match old(self).on_disk(ids@[i as int]@) {
                                Some(t) => parse_entry(t) is None,
                                None => false,
                            });
                        }
                    }
                    return Err(e);
                },
            }
            proof {
                assert forall|j: int|
                    0 <= j < i + 1 && #[trigger] accepts(old(self), pm, ids@[j]@) implies id_listed(
                    out@,
                    ids@[j]@,
                ) by {
                    if j < i {
                        if accepts(old(self), pm, ids@[j]@) {
                            let m0 = choose|m: int|
                                0 <= m < out_pre.len() && (#[trigger] out_pre[m])@ == ids@[j]@;
                            assert(out@[m0]@ == ids@[j]@);
                        }
                    } else {
                        assert(out@[out@.len() - 1]@ == ids@[j]@);
                    }
                }
            }
            i = i + 1;
        }
        proof {
            assert forall|k: Seq<char>| #[trigger] accepts(old(self), pm, k) implies id_listed(
                out@,
                k,
            ) by {
                assert(old(self).on_disk(k) is Some);
                let j0 = choose|m: int| 0 <= m < ids@.len() && (#[trigger] ids@[m])@ == k;
                assert(accepts(old(self), pm, ids@[j0]@));
                let m0 = choose|m: int| 0 <= m < out@.len() && (#[trigger] out@[m])@ == ids@[j0]@;
                assert(out@[m0]@ == k);
            }
        }
        Ok(out)
    }
}

} // verus!
