//! The identifier model: a validated, normalized relative path naming one
//! entry beneath the store root.
//!
//! Normalization maps backslash separators to forward slashes and ASCII
//! upper-case letters to lower case; comparison of identifiers is equality
//! of normalized text. A well-formed identifier is nonempty, relative (no
//! leading separator), has no empty, `.` or `..` segments, and no trailing
//! separator.

use vstd::prelude::*;
use crate::PathError;
use crate::strutil::chars_of;
use crate::strutil::string_from_chars;

verus! {

/// Character normalization: backslash becomes the canonical separator and
/// ASCII upper-case letters fold to lower case; all else is unchanged.
pub open spec fn norm_char(c: char) -> char {
    match c {
        '\\' => '/',
        'A' => 'a',
        'B' => 'b',
        'C' => 'c',
        'D' => 'd',
        'E' => 'e',
        'F' => 'f',
        'G' => 'g',
        'H' => 'h',
        'I' => 'i',
        'J' => 'j',
        'K' => 'k',
        'L' => 'l',
        'M' => 'm',
        'N' => 'n',
        'O' => 'o',
        'P' => 'p',
        'Q' => 'q',
        'R' => 'r',
        'S' => 's',
        'T' => 't',
        'U' => 'u',
        'V' => 'v',
        'W' => 'w',
        'X' => 'x',
        'Y' => 'y',
        'Z' => 'z',
        _ => c,
    }
}

pub(crate) fn norm_char_x(c: char) -> (r: char)
    ensures
        r == norm_char(c),
{
    match c {
        '\\' => '/',
        'A' => 'a',
        'B' => 'b',
        'C' => 'c',
        'D' => 'd',
        'E' => 'e',
        'F' => 'f',
        'G' => 'g',
        'H' => 'h',
        'I' => 'i',
        'J' => 'j',
        'K' => 'k',
        'L' => 'l',
        'M' => 'm',
        'N' => 'n',
        'O' => 'o',
        'P' => 'p',
        'Q' => 'q',
        'R' => 'r',
        'S' => 's',
        'T' => 't',
        'U' => 'u',
        'V' => 'v',
        'W' => 'w',
        'X' => 'x',
        'Y' => 'y',
        'Z' => 'z',
        _ => c,
    }
}

/// Normalization of a whole raw path.
pub open spec fn normalize(s: Seq<char>) -> Seq<char> {
    s.map_values(|c: char| norm_char(c))
}

/// Position `i` starts a path segment of `s`.
pub open spec fn seg_start(s: Seq<char>, i: int) -> bool {
    0 <= i < s.len() && (i == 0 || s[i - 1] == '/')
}

/// A `.` segment stands at position `i` of `s`.
pub open spec fn dot_seg_at(s: Seq<char>, i: int) -> bool {
    seg_start(s, i) && s[i] == '.' && (i + 1 == s.len() || s[i + 1] == '/')
}

/// A `..` segment stands at position `i` of `s`.
pub open spec fn dotdot_seg_at(s: Seq<char>, i: int) -> bool {
    seg_start(s, i) && s[i] == '.' && i + 1 < s.len() && s[i + 1] == '.' && (i + 2 == s.len()
        || s[i + 2] == '/')
}

/// Well-formedness of normalized identifier text: nonempty, relative, in
/// normal form, no empty segments, and no `.` or `..` segments.
pub open spec fn id_wf(s: Seq<char>) -> bool {
    &&& s.len() > 0
    &&& s[0] != '/'
    &&& s[s.len() - 1] != '/'
    &&& forall|i: int| #![trigger s[i]] 0 <= i < s.len() ==> norm_char(s[i]) == s[i]
    &&& forall|i: int| #![trigger s[i]] 0 <= i < s.len() - 1 ==> !(s[i] == '/' && s[i + 1] == '/')
    &&& forall|i: int| #![trigger s[i]] 0 <= i < s.len() ==> !dot_seg_at(s, i) && !dotdot_seg_at(
        s,
        i,
    )
}

fn normalize_chars(cs: &Vec<char>) -> (r: Vec<char>)
    ensures
        r@ == normalize(cs@),
{
    let mut norm: Vec<char> = Vec::new();
    let mut i: usize = 0;
    assert(norm@ =~= normalize(cs@.take(0)));
    while i < cs.len()
        invariant
            i <= cs@.len(),
            norm@ == normalize(cs@.take(i as int)),
            norm@.len() == i,
        decreases cs@.len() - i,
    {
        norm.push(norm_char_x(cs[i]));
        assert(norm@ =~= normalize(cs@.take(i + 1)));
        i = i + 1;
    }
    assert(cs@.take(cs@.len() as int) =~= cs@);
    norm
}

fn check_wf(s: &Vec<char>) -> (r: bool)
    ensures
        r == id_wf(s@),
{
    let ghost sv = s@;
    if s.len() == 0 {
        return false;
    }
    if s[0] == '/' {
        assert(!id_wf(sv));
        return false;
    }
    if s[s.len() - 1] == '/' {
        assert(!id_wf(sv));
        return false;
    }
    let n = s.len();
    let mut j: usize = 0;
    while j < n
        invariant
            n == sv.len(),
            s@ == sv,
            j <= n,
            forall|k: int|
                #![trigger sv[k]]
                0 <= k < j ==> norm_char(sv[k]) == sv[k],
            forall|k: int|
                #![trigger sv[k]]
                0 <= k < j ==> !(k < sv.len() - 1 && sv[k] == '/' && sv[k + 1] == '/'),
            forall|k: int|
                #![trigger sv[k]]
                0 <= k < j ==> !dot_seg_at(sv, k) && !dotdot_seg_at(sv, k),
        decreases n - j,
    {
        if norm_char_x(s[j]) != s[j] {
            assert(!id_wf(sv));
            return false;
        }
        if s[j] == '/' && j + 1 < n && s[j + 1] == '/' {
            assert(!id_wf(sv));
            return false;
        }
        let starts = j == 0 || s[j - 1] == '/';
        if starts && s[j] == '.' {
            if j + 1 == n || s[j + 1] == '/' {
                assert(dot_seg_at(sv, j as int));
                assert(!id_wf(sv));
                return false;
            }
            if s[j + 1] == '.' && (j + 2 == n || s[j + 2] == '/') {
                assert(dotdot_seg_at(sv, j as int));
                assert(!id_wf(sv));
                return false;
            }
        }
        assert(!dot_seg_at(sv, j as int) && !dotdot_seg_at(sv, j as int));
        j = j + 1;
    }
    assert(id_wf(sv));
    true
}

/// A validated entry identifier. The view is the normalized text.
#[derive(Debug)]
pub struct Identifier {
    raw: String,
}

impl View for Identifier {
    type V = Seq<char>;

    closed spec fn view(&self) -> Seq<char> {
        self.raw@
    }
}

impl PartialEq for Identifier {
    fn eq(&self, other: &Self) -> (r: bool) {
        self.raw == other.raw
    }
}

impl vstd::std_specs::cmp::PartialEqSpecImpl for Identifier {
    open spec fn obeys_eq_spec() -> bool {
        true
    }

    open spec fn eq_spec(&self, other: &Self) -> bool {
        self@ == other@
    }
}

impl Clone for Identifier {
    fn clone(&self) -> (r: Self)
        ensures
            r@ == self@,
    {
        Identifier { raw: self.raw.clone() }
    }
}

impl Identifier {
    /// The identifier is well-formed (always established by `from_path`).
    pub open spec fn wf(&self) -> bool {
        id_wf(self@)
    }

    /// Validates and normalizes a raw path into an identifier. Empty input,
    /// absolute paths, `.` or `..` segments, and empty segments are all
    /// rejected as malformed.
    pub fn from_path(raw: &str) -> (r: Result<Identifier, PathError>)
        ensures
            match r {
                Ok(id) => id_wf(normalize(raw@)) && id@ == normalize(raw@) && id.wf(),
                Err(e) => e == PathError::Malformed && !id_wf(normalize(raw@)),
            },
    {
        let cs = chars_of(raw);
        let s = normalize_chars(&cs);
        if check_wf(&s) {
            let raw_out = string_from_chars(s.as_slice());
            Ok(Identifier { raw: raw_out })
        } else {
            Err(PathError::Malformed)
        }
    }

    /// The normalized text of the identifier.
    pub fn to_str(&self) -> (r: &str)
        ensures
            r@ == self@,
    {
        self.raw.as_str()
    }

    /// The concrete path of the identifier beneath a store root: the root,
    /// one separator, then the identifier text. Pure and total.
    pub fn to_path(&self, store_root: &str) -> (r: String)
        ensures
            r@ == store_root@ + seq!['/'] + self@,
    {
        let mut out = String::new();
        out.append(store_root);
        out.append("/");
        out.append(self.raw.as_str());
        proof {
            reveal_strlit("/");
            assert(r"/"@ =~= seq!['/']);
            assert(out@ =~= store_root@ + seq!['/'] + self@);
        }
        out
    }
}

/// Joining collection names with the separator, defined over the last name.
pub open spec fn join_names(names: Seq<Seq<char>>) -> Seq<char>
    decreases names.len(),
{
    if names.len() == 0 {
        Seq::<char>::empty()
    } else if names.len() == 1 {
        names[0]
    } else {
        join_names(names.drop_last()) + seq!['/'] + names.last()
    }
}

/// The views of a sequence of string slices.
pub open spec fn name_views(names: Seq<&str>) -> Seq<Seq<char>> {
    names.map_values(|n: &str| n@)
}

/// The identifier text lies in the collection named by `names`: the joined
/// names are a whole-segment prefix of the text.
pub open spec fn in_collection(s: Seq<char>, names: Seq<Seq<char>>) -> bool {
    let p = join_names(names);
    names.len() > 0 ==> {
        &&& p.len() <= s.len()
        &&& s.take(p.len() as int) == p
        &&& (s.len() == p.len() || s[p.len() as int] == '/')
    }
}

impl Identifier {
    /// True iff the identifier's leading segments equal `names` in order.
    /// Names are compared verbatim against the normalized identifier text.
    pub fn is_in_collection(&self, names: &[&str]) -> (r: bool)
        ensures
            r == in_collection(self@, name_views(names@)),
    {
        let ghost nv = name_views(names@);
        if names.len() == 0 {
            return true;
        }
        let mut p = String::new();
        let mut i: usize = 0;
        assert(nv.take(0) =~= Seq::<Seq<char>>::empty());
        while i < names.len()
            invariant
                i <= names@.len(),
                nv == name_views(names@),
                nv.len() == names@.len(),
                p@ == join_names(nv.take(i as int)),
            decreases names@.len() - i,
        {
            if i > 0 {
                p.append("/");
            }
            p.append(names[i]);
            proof {
                reveal_strlit("/");
                assert(r"/"@ =~= seq!['/']);
                assert(nv.take(i + 1).drop_last() =~= nv.take(i as int));
                assert(nv.take(i + 1).last() == nv[i as int]);
                if i > 0 {
                    assert(p@ =~= join_names(nv.take(i as int)) + seq!['/'] + nv[i as int]);
                } else {
                    assert(p@ =~= nv[0]);
                }
            }
            i = i + 1;
        }
        assert(nv.take(nv.len() as int) =~= nv);
        let plen = p.unicode_len();
        let slen = self.raw.as_str().unicode_len();
        if plen > slen {
            assert(join_names(nv).len() > self@.len());
            assert(!in_collection(self@, nv));
            return false;
        }
        let mut k: usize = 0;
        while k < plen
            invariant
                k <= plen,
                plen == p@.len(),
                plen <= slen,
                slen == self@.len(),
                nv == name_views(names@),
                nv.len() > 0,
                p@ == join_names(nv),
                forall|m: int| 0 <= m < k ==> p@[m] == self@[m],
            decreases plen - k,
        {
            if p.as_str().get_char(k) != self.raw.as_str().get_char(k) {
                assert(self@.take(plen as int) != p@) by {
                    assert(self@.take(plen as int)[k as int] != p@[k as int]);
                }
                assert(!in_collection(self@, nv));
                return false;
            }
            k = k + 1;
        }
        assert(self@.take(plen as int) =~= p@);
        if plen == slen {
            true
        } else {
            self.raw.as_str().get_char(plen) == '/'
        }
    }
}

/// Identifier safety, rejection side: any raw path whose normalized text
/// has a `..` segment, or begins with a separator, is refused by
/// validation (it is not well-formed).
pub proof fn lemma_identifier_safety(s: Seq<char>)
    ensures
        (exists|i: int| dotdot_seg_at(normalize(s), i)) ==> !id_wf(normalize(s)),
        normalize(s).len() > 0 && normalize(s)[0] == '/' ==> !id_wf(normalize(s)),
{
}

/// Identifier safety, idempotence side: validation of already-normalized
/// well-formed text succeeds and is the identity, so re-validating the
/// text of a validated identifier gives the same identifier.
pub proof fn lemma_from_path_idempotent(s: Seq<char>)
    requires
        id_wf(normalize(s)),
    ensures
        normalize(normalize(s)) == normalize(s),
        id_wf(normalize(normalize(s))),
{
    assert(normalize(normalize(s)) =~= normalize(s));
}

} // verus!
