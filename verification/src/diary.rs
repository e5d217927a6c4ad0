//! The diary view over the store: timed diary entries named
//! `diary/<name>/<year>/<month>/<day>/<hour>/<minute>/<second>`, the
//! granularity a diary is configured with, and queries over the diary's
//! entries.

use vstd::prelude::*;
use crate::PathError;
use crate::StoreError;
use crate::TypeError;
use crate::codec::dec_digits;
use crate::codec::is_digit_x;
use crate::codec::parse_nat;
use crate::codec::parse_nat_loop_x;
use crate::codec::push_digits;
use crate::entry::parse_entry;
use crate::entry::insert_path;
use crate::entry::ser_entry;
use crate::ident::Identifier;
use crate::ident::id_wf;
use crate::ident::normalize;
use crate::store::Handle;
use crate::store::Store;
use crate::strutil::spec_split;
use crate::strutil::split_string;
use crate::strutil::chars_of;
use crate::strutil::string_from_chars;
use crate::timetrack::DateTime;
use crate::timetrack::dt_wf;
use crate::timetrack::dt_le;
use crate::timetrack::dt_le_x;
use crate::value::HVal;
use crate::value::Value;

verus! {

/// The granularity a diary is configured to create entries at.
#[derive(Clone, Copy, Debug, PartialEq, Eq, Structural)]
pub enum Timed {
    Daily,
    Hourly,
    Minutely,
    Secondly,
}

/// Reads a granularity from its configuration text: `d`/`daily`,
/// `h`/`hourly`, `m`/`minutely` or `s`/`secondly`. Anything else is an
/// error naming the diary.
pub fn parse_timed_string(s: &str, diary_name: &str) -> (r: Result<Timed, String>)
    ensures
        match r {
            Ok(Timed::Daily) => s@ == "d"@ || s@ == "daily"@,
            Ok(Timed::Hourly) => s@ == "h"@ || s@ == "hourly"@,
            Ok(Timed::Minutely) => s@ == "m"@ || s@ == "minutely"@,
            Ok(Timed::Secondly) => s@ == "s"@ || s@ == "secondly"@,
            Err(msg) => s@ != "d"@ && s@ != "daily"@ && s@ != "h"@ && s@ != "hourly"@ && s@ != "m"@
                && s@ != "minutely"@ && s@ != "s"@ && s@ != "secondly"@ && msg@
                == "cannot parse timed configuration value '"@ + s@ + "' of diary '"@
                + diary_name@ + "'"@,
        },
{
    let sv = String::from_str(s);
    if sv == String::from_str("d") || sv == String::from_str("daily") {
        Ok(Timed::Daily)
    } else if sv == String::from_str("h") || sv == String::from_str("hourly") {
        Ok(Timed::Hourly)
    } else if sv == String::from_str("m") || sv == String::from_str("minutely") {
        Ok(Timed::Minutely)
    } else if sv == String::from_str("s") || sv == String::from_str("secondly") {
        Ok(Timed::Secondly)
    } else {
        let mut msg = String::from_str("cannot parse timed configuration value '");
        msg.append(s);
        msg.append("' of diary '");
        msg.append(diary_name);
        msg.append("'");
        assert(msg@ =~= "cannot parse timed configuration value '"@ + s@ + "' of diary '"@
            + diary_name@ + "'"@);
        Err(msg)
    }
}

/// The time a new timed entry is filed under: the current time rounded
/// down to the diary's granularity, with the minute and second optionally
/// overridden at minute or second granularity.
pub fn timed_entry_time(timed: &Timed, now: &DateTime, minute: Option<u8>, second: Option<u8>) -> (r:
    DateTime)
    requires
        dt_wf(*now),
        minute matches Some(m) ==> m < 60,
        second matches Some(sec) ==> sec < 60,
    ensures
        dt_wf(r),
        r.year == now.year && r.month == now.month && r.day == now.day,
        match timed {
            Timed::Daily => r.hour == 0 && r.minute == 0 && r.second == 0,
            Timed::Hourly => r.hour == now.hour && r.minute == 0 && r.second == 0,
            Timed::Minutely => r.hour == now.hour && r.minute == (match minute {
                Some(m) => m,
                None => now.minute,
            }) && r.second == 0,
            Timed::Secondly => r.hour == now.hour && r.minute == (match minute {
                Some(m) => m,
                None => now.minute,
            }) && r.second == (match second {
                Some(sec) => sec,
                None => now.second,
            }),
        },
{
    let mi = match minute {
        Some(m) => m,
        None => now.minute,
    };
    let sec = match second {
        Some(x) => x,
        None => now.second,
    };
    match timed {
        Timed::Daily => DateTime { hour: 0, minute: 0, second: 0, ..*now },
        Timed::Hourly => DateTime { minute: 0, second: 0, ..*now },
        Timed::Minutely => DateTime { minute: mi, second: 0, ..*now },
        Timed::Secondly => DateTime { minute: mi, second: sec, ..*now },
    }
}

/// The name of a diary and the time of one of its entries.
pub struct DiaryId {
    pub name: String,
    pub time: DateTime,
}

/// The identifier text of a diary entry: the diary collection, the diary
/// name, then one segment per time field, most significant first.
pub open spec fn diary_id_text(name: Seq<char>, t: DateTime) -> Seq<char> {
    "diary"@ + seq!['/'] + name + seq!['/'] + dec_digits(t.year as nat) + seq!['/'] + dec_digits(
        t.month as nat,
    ) + seq!['/'] + dec_digits(t.day as nat) + seq!['/'] + dec_digits(t.hour as nat) + seq!['/']
        + dec_digits(t.minute as nat) + seq!['/'] + dec_digits(t.second as nat)
}

/// A whole identifier segment read as a decimal number.
pub open spec fn seg_nat(seg: Seq<char>) -> Option<nat> {
    match parse_nat(seg) {
        Some((n, rest)) => {
            if rest.len() == 0 {
                Some(n)
            } else {
                None
            }
        },
        None => None,
    }
}

/// Reading a diary entry identifier back into name and time: eight
/// segments, the diary collection first, the six time fields in range.
pub open spec fn diary_id_model(s: Seq<char>) -> Option<(Seq<char>, DateTime)> {
    let segs = spec_split(s, '/');
    if segs.len() == 8 && segs[0] == "diary"@ {
        match (seg_nat(segs[2]), seg_nat(segs[3]), seg_nat(segs[4])) {
            (Some(y), Some(mo), Some(d)) => match (
                seg_nat(segs[5]),
                seg_nat(segs[6]),
                seg_nat(segs[7]),
            ) {
                (Some(h), Some(mi), Some(sec)) => {
                    if y <= 9999 && mo <= 12 && d <= 31 && h < 24 && mi < 60 && sec < 60 {
                        let dt = DateTime {
                            year: y as u16,
                            month: mo as u8,
                            day: d as u8,
                            hour: h as u8,
                            minute: mi as u8,
                            second: sec as u8,
                        };
                        if dt_wf(dt) {
                            Some((segs[1], dt))
                        } else {
                            None
                        }
                    } else {
                        None
                    }
                },
                _ => None,
            },
            _ => None,
        }
    } else {
        None
    }
}

impl DiaryId {
    /// Renders the identifier text of this diary entry.
    pub fn id_text(&self) -> (r: String)
        requires
            dt_wf(self.time),
        ensures
            r@ == diary_id_text(self.name@, self.time),
    {
        let mut out: Vec<char> = Vec::new();
        let mut head = chars_of("diary");
        out.append(&mut head);
        out.push('/');
        let mut name = chars_of(self.name.as_str());
        out.append(&mut name);
        out.push('/');
        push_digits(self.time.year as u64, &mut out);
        out.push('/');
        push_digits(self.time.month as u64, &mut out);
        out.push('/');
        push_digits(self.time.day as u64, &mut out);
        out.push('/');
        push_digits(self.time.hour as u64, &mut out);
        out.push('/');
        push_digits(self.time.minute as u64, &mut out);
        out.push('/');
        push_digits(self.time.second as u64, &mut out);
        assert(out@ =~= diary_id_text(self.name@, self.time));
        string_from_chars(out.as_slice())
    }

    /// Validates this diary entry's identifier text into an identifier.
    pub fn to_identifier(&self) -> (r: Result<Identifier, PathError>)
        requires
            dt_wf(self.time),
        ensures
            match r {
                Ok(id) => id@ == normalize(diary_id_text(self.name@, self.time)) && id.wf(),
                Err(e) => e == PathError::Malformed && !id_wf(
                    normalize(diary_id_text(self.name@, self.time)),
                ),
            },
    {
        let text = self.id_text();
        Identifier::from_path(text.as_str())
    }

    /// Reads a diary entry identifier back into its name and time.
    pub fn from_storeid(id: &Identifier) -> (r: Option<DiaryId>)
        ensures
            match r {
                Some(d) => diary_id_model(id@) == Some((d.name@, d.time)) && dt_wf(d.time),
                None => diary_id_model(id@) == None::<(Seq<char>, DateTime)>,
            },
    {
        let segs = split_string(id.to_str(), '/');
        proof {
            crate::strutil::lemma_split_nonempty(id@, '/');
        }
        if segs.len() != 8 {
            return None;
        }
        if !(segs[0] == String::from_str("diary")) {
            return None;
        }
        let y = match seg_nat_x(&segs[2]) {
            Some(n) => n,
            None => {
                return None;
            },
        };
        let mo = match seg_nat_x(&segs[3]) {
            Some(n) => n,
            None => {
                return None;
            },
        };
        let d = match seg_nat_x(&segs[4]) {
            Some(n) => n,
            None => {
                return None;
            },
        };
        let h = match seg_nat_x(&segs[5]) {
            Some(n) => n,
            None => {
                return None;
            },
        };
        let mi = match seg_nat_x(&segs[6]) {
            Some(n) => n,
            None => {
                return None;
            },
        };
        let sec = match seg_nat_x(&segs[7]) {
            Some(n) => n,
            None => {
                return None;
            },
        };
        if !(y <= 9999 && mo <= 12 && d <= 31 && h < 24 && mi < 60 && sec < 60) {
            return None;
        }
        let dt = DateTime {
            year: y as u16,
            month: mo as u8,
            day: d as u8,
            hour: h as u8,
            minute: mi as u8,
            second: sec as u8,
        };
        if !(1 <= dt.month && 1 <= dt.day) {
            return None;
        }
        Some(DiaryId { name: segs[1].clone(), time: dt })
    }
}

fn seg_nat_x(s: &String) -> (r: Option<u64>)
    ensures
        match r {
            Some(n) => seg_nat(s@) == Some(n as nat),
            None => seg_nat(s@) == None::<nat>,
        },
{
    let cs = chars_of(s.as_str());
    if cs.len() == 0 {
        return None;
    }
    if !is_digit_x(cs[0]) {
        return None;
    }
    match parse_nat_loop_x(cs.as_slice(), 0) {
        Some((n, rest)) => {
            if rest.len() == 0 {
                Some(n)
            } else {
                None
            }
        },
        None => None,
    }
}

/// The youngest entry of the named diary among the given identifiers: the
/// diary entry with the greatest time; `None` when the diary has none.
pub fn youngest(ids: &Vec<Identifier>, diary_name: &str) -> (r: Option<DiaryId>)
    ensures
        match r {
            Some(d) => {
                &&& d.name@ == diary_name@
                &&& exists|j: int|
                    0 <= j < ids@.len() && diary_id_model((#[trigger] ids@[j])@) == Some(
                        (diary_name@, d.time),
                    )
                &&& forall|j: int|
                    0 <= j < ids@.len() ==> match diary_id_model((#[trigger] ids@[j])@) {
                        Some(p) => p.0 != diary_name@ || dt_le(p.1, d.time),
                        None => true,
                    }
            },
            None => forall|j: int|
                0 <= j < ids@.len() ==> match diary_id_model((#[trigger] ids@[j])@) {
                    Some(p) => p.0 != diary_name@,
                    None => true,
                },
        },
{
    let dn = String::from_str(diary_name);
    let mut best: Option<DiaryId> = None;
    let mut i: usize = 0;
    while i < ids.len()
        invariant
            i <= ids@.len(),
            dn@ == diary_name@,
            match best {
                Some(d) => {
                    &&& d.name@ == diary_name@
                    &&& exists|j: int|
                        0 <= j < i && diary_id_model((#[trigger] ids@[j])@) == Some(
                            (diary_name@, d.time),
                        )
                    &&& forall|j: int|
                        0 <= j < i ==> match diary_id_model((#[trigger] ids@[j])@) {
                            Some(p) => p.0 != diary_name@ || dt_le(p.1, d.time),
                            None => true,
                        }
                },
                None => forall|j: int|
                    0 <= j < i ==> match diary_id_model((#[trigger] ids@[j])@) {
                        Some(p) => p.0 != diary_name@,
                        None => true,
                    },
            },
        decreases ids@.len() - i,
    {
        match DiaryId::from_storeid(&ids[i]) {
            Some(d) => {
                if d.name == dn {
                    let replace = match &best {
                        None => true,
                        Some(b) => dt_le_x(&b.time, &d.time),
                    };
                    if replace {
                        best = Some(d);
                    }
                }
            },
            None => {},
        }
        i = i + 1;
    }
    best
}

/// The diary name of an identifier that parses as a diary entry.
pub open spec fn diary_name_of(s: Seq<char>) -> Option<Seq<char>> {
    match diary_id_model(s) {
        Some(p) => Some(p.0),
        None => None,
    }
}

/// Some identifier of the list is a diary entry named `n`.
pub open spec fn some_id_named(ids: Seq<Identifier>, n: Seq<char>) -> bool {
    exists|j: int| 0 <= j < ids.len() && diary_name_of((#[trigger] ids[j])@) == Some(n)
}

/// The name list contains `n`.
pub open spec fn names_contain(r: Seq<String>, n: Seq<char>) -> bool {
    exists|m: int| 0 <= m < r.len() && (#[trigger] r[m])@ == n
}

/// The names of the diaries the given identifiers hold entries of, one
/// occurrence per diary entry, in order.
pub fn diary_names(ids: &Vec<Identifier>) -> (r: Vec<String>)
    ensures
        forall|m: int| 0 <= m < r@.len() ==> some_id_named(ids@, (#[trigger] r@[m])@),
        forall|j: int|
            0 <= j < ids@.len() ==> match diary_name_of((#[trigger] ids@[j])@) {
                Some(n) => names_contain(r@, n),
                None => true,
            },
{
    let mut out: Vec<String> = Vec::new();
    let mut i: usize = 0;
    while i < ids.len()
        invariant
            i <= ids@.len(),
            forall|m: int| 0 <= m < out@.len() ==> some_id_named(ids@, (#[trigger] out@[m])@),
            forall|j: int|
                0 <= j < i ==> match diary_name_of((#[trigger] ids@[j])@) {
                    Some(n) => names_contain(out@, n),
                    None => true,
                },
        decreases ids@.len() - i,
    {
        let ghost out_pre = out@;
        match DiaryId::from_storeid(&ids[i]) {
            Some(d) => {
                let ghost dname = d.name@;
                out.push(d.name);
                proof {
                    assert(out@[out@.len() - 1]@ == dname);
                    assert(diary_name_of(ids@[i as int]@) == Some(dname));
                    assert(some_id_named(ids@, dname));
                }
            },
            None => {},
        }
        proof {
            assert forall|m: int| 0 <= m < out@.len() implies some_id_named(
                ids@,
                (#[trigger] out@[m])@,
            ) by {
                if m < out_pre.len() {
                    assert(out@[m] == out_pre[m]);
                    assert(some_id_named(ids@, out_pre[m]@));
                }
            }
            assert forall|j: int|
                0 <= j < i + 1 implies match diary_name_of((#[trigger] ids@[j])@) {
                Some(n) => names_contain(out@, n),
                None => true,
            } by {
                match diary_name_of(ids@[j]@) {
                    Some(n) => {
                        if j < i {
                            let m0 = choose|m: int|
                                0 <= m < out_pre.len() && (#[trigger] out_pre[m])@ == n;
                            assert(out@[m0]@ == n);
                            assert(names_contain(out@, n));
                        } else {
                            assert(out@[out@.len() - 1]@ == n);
                            assert(names_contain(out@, n));
                        }
                    },
                    None => {},
                }
            }
        }
        i = i + 1;
    }
    out
}

/// Some entry on the store's disk is a diary entry named `n`.
pub open spec fn disk_has_diary_name(st: &Store, n: Seq<char>) -> bool {
    exists|k: Seq<char>| (#[trigger] st.on_disk(k)) is Some && diary_name_of(k) == Some(n)
}

/// An error of a diary operation: the diary name makes a malformed
/// identifier, the store refuses the access, or the loaded entry's header
/// cannot take the diary flag.
#[derive(Clone, Copy, Debug, PartialEq, Eq, Structural)]
pub enum DiaryError {
    Path(PathError),
    Store(StoreError),
    Header(TypeError),
}

/// A header tree with the diary-entry flag set.
pub open spec fn with_diary_flag(h: Seq<(Seq<char>, HVal)>) -> Option<Seq<(Seq<char>, HVal)>> {
    insert_path(h, spec_split("diary.is_diary_entry"@, '.'), HVal::B(true))
}

impl Store {
    /// Acquires (creating if absent) the diary entry of the named diary at
    /// the given time, and flags it as a diary entry in its header.
    pub fn new_entry_at(&mut self, diary_name: &str, t: &DateTime) -> (r: Result<
        Handle,
        DiaryError,
    >)
        requires
            old(self).wf(),
            dt_wf(*t),
        ensures
            final (self).wf(),
            final (self).root_model() == old(self).root_model(),
            match r {
                Ok(h) => {
                    &&& h.location() == normalize(diary_id_text(diary_name@, *t))
                    &&& !old(self).is_locked(h.location())
                    &&& final (self).is_locked(h.location())
                    &&& h.is_dirty()
                    &&& match old(self).on_disk(h.location()) {
                        Some(tx) => (parse_entry(tx) matches Some(p) && with_diary_flag(p.0)
                            == Some(h.header_model()) && h.content_model() == p.1) && !h.is_fresh(),
                        None => with_diary_flag(Seq::<(Seq<char>, HVal)>::empty()) == Some(
                            h.header_model(),
                        ) && h.content_model() == Seq::<char>::empty() && h.is_fresh(),
                    }
                    &&& forall|k: Seq<char>|
                        #[trigger] final (self).on_disk(k) == old(self).on_disk(k)
                    &&& forall|k: Seq<char>|
                        k != h.location() ==> #[trigger] final (self).is_locked(k) == old(
                            self,
                        ).is_locked(k)
                },
                Err(DiaryError::Path(_)) => {
                    &&& !id_wf(normalize(diary_id_text(diary_name@, *t)))
                    &&& forall|k: Seq<char>|
                        #[trigger] final (self).on_disk(k) == old(self).on_disk(k)
                    &&& forall|k: Seq<char>|
                        #[trigger] final (self).is_locked(k) == old(self).is_locked(k)
                },
                Err(DiaryError::Store(e)) => {
                    &&& (e == StoreError::Locked || e == StoreError::Corrupt)
                    &&& (e == StoreError::Locked <==> old(self).is_locked(
                        normalize(diary_id_text(diary_name@, *t)),
                    ))
                    &&& (e == StoreError::Corrupt ==> match old(self).on_disk(
                        normalize(diary_id_text(diary_name@, *t)),
                    ) {
                        Some(tx) => parse_entry(tx) is None,
                        None => false,
                    })
                    &&& forall|k: Seq<char>|
                        #[trigger] final (self).on_disk(k) == old(self).on_disk(k)
                    &&& forall|k: Seq<char>|
                        #[trigger] final (self).is_locked(k) == old(self).is_locked(k)
                },
                Err(DiaryError::Header(te)) => {
                    &&& te == TypeError::Mismatch
                    &&& !old(self).is_locked(normalize(diary_id_text(diary_name@, *t)))
                    &&& !final (self).is_locked(normalize(diary_id_text(diary_name@, *t)))
                    &&& match old(self).on_disk(normalize(diary_id_text(diary_name@, *t))) {
                        Some(tx) => parse_entry(tx) matches Some(p) && with_diary_flag(p.0)
                            is None && final (self).on_disk(
                            normalize(diary_id_text(diary_name@, *t)),
                        ) == Some(ser_entry(p.0, p.1)),
                        None => with_diary_flag(Seq::<(Seq<char>, HVal)>::empty()) is None
                            && final (self).on_disk(normalize(diary_id_text(diary_name@, *t)))
                            == Some(ser_entry(Seq::<(Seq<char>, HVal)>::empty(), Seq::<char>::empty())),
                    }
                    &&& forall|k: Seq<char>|
                        k != normalize(diary_id_text(diary_name@, *t))
                            ==> #[trigger] final (self).on_disk(k) == old(self).on_disk(k)
                    &&& forall|k: Seq<char>|
                        k != normalize(diary_id_text(diary_name@, *t))
                            ==> #[trigger] final (self).is_locked(k) == old(self).is_locked(k)
                },
            },
    {
        let did = DiaryId { name: String::from_str(diary_name), time: *t };
        match did.to_identifier() {
            Err(e) => Err(DiaryError::Path(e)),
            Ok(id) => {
                match self.retrieve(&id) {
                    Err(e) => Err(DiaryError::Store(e)),
                    Ok(mut h) => {
                        match h.header_insert("diary.is_diary_entry", Value::Bool(true)) {
                            Ok(()) => Ok(h),
                            Err(te) => {
                                match self.release(h) {
                                    Ok(()) => Err(DiaryError::Header(te)),
                                    Err(_) => {
                                        proof {
                                            assert(false);
                                        }
                                        Err(DiaryError::Header(te))
                                    },
                                }
                            },
                        }
                    },
                }
            },
        }
    }


    /// The identifier of the youngest entry of the named diary on disk.
    pub fn get_youngest_entry_id(&self, diary_name: &str) -> (r: Option<DiaryId>)
        requires
            self.wf(),
        ensures
            match r {
                Some(d) => {
                    &&& d.name@ == diary_name@
                    &&& exists|k: Seq<char>|
                        (#[trigger] self.on_disk(k)) is Some && diary_id_model(k) == Some(
                            (diary_name@, d.time),
                        )
                    &&& forall|k: Seq<char>|
                        (#[trigger] self.on_disk(k)) is Some ==> match diary_id_model(k) {
                            Some(p) => p.0 != diary_name@ || dt_le(p.1, d.time),
                            None => true,
                        }
                },
                None => forall|k: Seq<char>|
                    (#[trigger] self.on_disk(k)) is Some ==> match diary_id_model(k) {
                        Some(p) => p.0 != diary_name@,
                        None => true,
                    },
            },
    {
        let ids = self.entries();
        let r = youngest(&ids, diary_name);
        proof {
            match &r {
                Some(d) => {
                    let j0 = choose|j: int|
                        0 <= j < ids@.len() && diary_id_model((#[trigger] ids@[j])@) == Some(
                            (diary_name@, d.time),
                        );
                    assert(self.on_disk(ids@[j0]@) is Some);
                    assert forall|k: Seq<char>| (#[trigger] self.on_disk(k)) is Some implies match
                        diary_id_model(k) {
                        Some(p) => p.0 != diary_name@ || dt_le(p.1, d.time),
                        None => true,
                    } by {
                        let j1 = choose|j: int|
                            0 <= j < ids@.len() && (#[trigger] ids@[j])@ == k;
                        assert(match diary_id_model(ids@[j1]@) {
                            Some(p) => p.0 != diary_name@ || dt_le(p.1, d.time),
                            None => true,
                        });
                    }
                },
                None => {
                    assert forall|k: Seq<char>| (#[trigger] self.on_disk(k)) is Some implies match
                        diary_id_model(k) {
                        Some(p) => p.0 != diary_name@,
                        None => true,
                    } by {
                        let j1 = choose|j: int|
                            0 <= j < ids@.len() && (#[trigger] ids@[j])@ == k;
                        assert(match diary_id_model(ids@[j1]@) {
                            Some(p) => p.0 != diary_name@,
                            None => true,
                        });
                    }
                },
            }
        }
        r
    }

    /// The names of the diaries with entries on disk, one occurrence per
    /// diary entry.
    pub fn diary_names(&self) -> (r: Vec<String>)
        requires
            self.wf(),
        ensures
            forall|m: int|
                0 <= m < r@.len() ==> disk_has_diary_name(self, (#[trigger] r@[m])@),
            forall|k: Seq<char>|
                (#[trigger] self.on_disk(k)) is Some ==> match diary_name_of(k) {
                    Some(n) => names_contain(r@, n),
                    None => true,
                },
    {
        let ids = self.entries();
        let r = diary_names(&ids);
        proof {
            assert forall|m: int| 0 <= m < r@.len() implies disk_has_diary_name(
                self,
                (#[trigger] r@[m])@,
            ) by {
                assert(some_id_named(ids@, r@[m]@));
                let j0 = choose|j: int|
                    0 <= j < ids@.len() && diary_name_of((#[trigger] ids@[j])@) == Some(r@[m]@);
                assert(self.on_disk(ids@[j0]@) is Some);
            }
            assert forall|k: Seq<char>| (#[trigger] self.on_disk(k)) is Some implies match
                diary_name_of(k) {
                Some(n) => names_contain(r@, n),
                None => true,
            } by {
                let j1 = choose|j: int| 0 <= j < ids@.len() && (#[trigger] ids@[j])@ == k;
                assert(match diary_name_of(ids@[j1]@) {
                    Some(n) => names_contain(r@, n),
                    None => true,
                });
            }
        }
        r
    }
}

} // verus!
