//! The time-tracking view over a checked-out entry: a tag and a start and
//! an end time in the header, each stored as fixed-width text of the form
//! `YYYY-MM-DDThh:mm:ss`, with a round trip between the time value and its
//! text proved below.

use vstd::prelude::*;
use crate::FieldError;
use crate::TypeError;
use crate::codec::digit_char;
use crate::codec::digit_val;
use crate::codec::is_digit;
use crate::codec::digit_char_x;
use crate::codec::is_digit_x;
use crate::codec::digit_val_x;
use crate::entry::insert_path;
use crate::entry::delete_path;
use crate::entry::read_path;
use crate::codec::uniq_pairs;
use crate::store::Handle;
use crate::strutil::spec_split;
use crate::strutil::chars_of;
use crate::strutil::string_from_chars;
use crate::value::HVal;
use crate::value::Value;

verus! {

/// A wall-clock time as plain values, second precision.
#[derive(Clone, Copy, Debug, PartialEq, Eq, Structural)]
pub struct DateTime {
    pub year: u16,
    pub month: u8,
    pub day: u8,
    pub hour: u8,
    pub minute: u8,
    pub second: u8,
}

/// Field ranges of a representable time. Day validity is by range alone;
/// calendar arithmetic is not this library's business.
pub open spec fn dt_wf(dt: DateTime) -> bool {
    &&& dt.year <= 9999
    &&& 1 <= dt.month <= 12
    &&& 1 <= dt.day <= 31
    &&& dt.hour < 24
    &&& dt.minute < 60
    &&& dt.second < 60
}

pub fn dt_wf_x(dt: &DateTime) -> (r: bool)
    ensures
        r == dt_wf(*dt),
{
    dt.year <= 9999 && 1 <= dt.month && dt.month <= 12 && 1 <= dt.day && dt.day <= 31 && dt.hour
        < 24 && dt.minute < 60 && dt.second < 60
}

/// Chronological order of two times, fields compared most significant
/// first.
pub open spec fn dt_le(a: DateTime, b: DateTime) -> bool {
    if a.year != b.year {
        a.year < b.year
    } else if a.month != b.month {
        a.month < b.month
    } else if a.day != b.day {
        a.day < b.day
    } else if a.hour != b.hour {
        a.hour < b.hour
    } else if a.minute != b.minute {
        a.minute < b.minute
    } else {
        a.second <= b.second
    }
}

pub fn dt_le_x(a: &DateTime, b: &DateTime) -> (r: bool)
    ensures
        r == dt_le(*a, *b),
{
    if a.year != b.year {
        a.year < b.year
    } else if a.month != b.month {
        a.month < b.month
    } else if a.day != b.day {
        a.day < b.day
    } else if a.hour != b.hour {
        a.hour < b.hour
    } else if a.minute != b.minute {
        a.minute < b.minute
    } else {
        a.second <= b.second
    }
}

/// The header text of a time: `YYYY-MM-DDThh:mm:ss`.
pub open spec fn fmt_dt(dt: DateTime) -> Seq<char> {
    seq![
        digit_char(dt.year as int / 1000),
        digit_char(dt.year as int / 100 % 10),
        digit_char(dt.year as int / 10 % 10),
        digit_char(dt.year as int % 10),
        '-',
        digit_char(dt.month as int / 10),
        digit_char(dt.month as int % 10),
        '-',
        digit_char(dt.day as int / 10),
        digit_char(dt.day as int % 10),
        'T',
        digit_char(dt.hour as int / 10),
        digit_char(dt.hour as int % 10),
        ':',
        digit_char(dt.minute as int / 10),
        digit_char(dt.minute as int % 10),
        ':',
        digit_char(dt.second as int / 10),
        digit_char(dt.second as int % 10),
    ]
}

/// Reads a time back from header text: exactly nineteen characters, digits
/// and separators in place, fields in range.
pub open spec fn parse_dt(s: Seq<char>) -> Option<DateTime> {
    if s.len() == 19 && is_digit(s[0]) && is_digit(s[1]) && is_digit(s[2]) && is_digit(s[3]) && s[4]
        == '-' && is_digit(s[5]) && is_digit(s[6]) && s[7] == '-' && is_digit(s[8]) && is_digit(
        s[9],
    ) && s[10] == 'T' && is_digit(s[11]) && is_digit(s[12]) && s[13] == ':' && is_digit(s[14])
        && is_digit(s[15]) && s[16] == ':' && is_digit(s[17]) && is_digit(s[18]) {
        let dt = DateTime {
            year: (digit_val(s[0]) * 1000 + digit_val(s[1]) * 100 + digit_val(s[2]) * 10
                + digit_val(s[3])) as u16,
            month: (digit_val(s[5]) * 10 + digit_val(s[6])) as u8,
            day: (digit_val(s[8]) * 10 + digit_val(s[9])) as u8,
            hour: (digit_val(s[11]) * 10 + digit_val(s[12])) as u8,
            minute: (digit_val(s[14]) * 10 + digit_val(s[15])) as u8,
            second: (digit_val(s[17]) * 10 + digit_val(s[18])) as u8,
        };
        if dt_wf(dt) {
            Some(dt)
        } else {
            None
        }
    } else {
        None
    }
}

/// Round trip: the header text of a representable time reads back as
/// exactly that time.
#[verifier::rlimit(100)]
#[verifier::spinoff_prover]
pub proof fn lemma_dt_round_trip(dt: DateTime)
    requires
        dt_wf(dt),
    ensures
        parse_dt(fmt_dt(dt)) == Some(dt),
{
    let s = fmt_dt(dt);
    let y = dt.year as int;
    lemma_digit_round(y / 1000);
    lemma_digit_round(y / 100 % 10);
    lemma_digit_round(y / 10 % 10);
    lemma_digit_round(y % 10);
    assert((y / 1000) * 1000 + (y / 100 % 10) * 100 + (y / 10 % 10) * 10 + y % 10 == y);
    lemma_two_digit_round(dt.month as int);
    lemma_two_digit_round(dt.day as int);
    lemma_two_digit_round(dt.hour as int);
    lemma_two_digit_round(dt.minute as int);
    lemma_two_digit_round(dt.second as int);
}

proof fn lemma_digit_round(d: int)
    requires
        0 <= d <= 9,
    ensures
        is_digit(digit_char(d)),
        digit_val(digit_char(d)) == d,
{
}

proof fn lemma_two_digit_round(n: int)
    requires
        0 <= n <= 99,
    ensures
        is_digit(digit_char(n / 10)),
        is_digit(digit_char(n % 10)),
        digit_val(digit_char(n / 10)) * 10 + digit_val(digit_char(n % 10)) == n,
{
    lemma_digit_round(n / 10);
    lemma_digit_round(n % 10);
}

/// Renders a representable time as header text.
#[verifier::rlimit(100)]
#[verifier::spinoff_prover]
pub fn fmt_dt_x(dt: &DateTime) -> (r: String)
    requires
        dt_wf(*dt),
    ensures
        r@ == fmt_dt(*dt),
{
    let mut out: Vec<char> = Vec::new();
    let y = dt.year as u64;
    out.push(digit_char_x(y / 1000));
    out.push(digit_char_x(y / 100 % 10));
    out.push(digit_char_x(y / 10 % 10));
    out.push(digit_char_x(y % 10));
    out.push('-');
    out.push(digit_char_x(dt.month as u64 / 10));
    out.push(digit_char_x(dt.month as u64 % 10));
    out.push('-');
    out.push(digit_char_x(dt.day as u64 / 10));
    out.push(digit_char_x(dt.day as u64 % 10));
    out.push('T');
    out.push(digit_char_x(dt.hour as u64 / 10));
    out.push(digit_char_x(dt.hour as u64 % 10));
    out.push(':');
    out.push(digit_char_x(dt.minute as u64 / 10));
    out.push(digit_char_x(dt.minute as u64 % 10));
    out.push(':');
    out.push(digit_char_x(dt.second as u64 / 10));
    out.push(digit_char_x(dt.second as u64 % 10));
    assert(out@ =~= fmt_dt(*dt));
    string_from_chars(out.as_slice())
}

/// Reads a time back from header text.
pub fn parse_dt_x(s: &str) -> (r: Option<DateTime>)
    ensures
        r == parse_dt(s@),
{
    let cs = chars_of(s);
    if cs.len() != 19 {
        return None;
    }
    let ok = is_digit_x(cs[0]) && is_digit_x(cs[1]) && is_digit_x(cs[2]) && is_digit_x(cs[3])
        && cs[4] == '-' && is_digit_x(cs[5]) && is_digit_x(cs[6]) && cs[7] == '-' && is_digit_x(
        cs[8],
    ) && is_digit_x(cs[9]) && cs[10] == 'T' && is_digit_x(cs[11]) && is_digit_x(cs[12]) && cs[13]
        == ':' && is_digit_x(cs[14]) && is_digit_x(cs[15]) && cs[16] == ':' && is_digit_x(cs[17])
        && is_digit_x(cs[18]);
    if !ok {
        return None;
    }
    let dt = DateTime {
        year: (digit_val_x(cs[0]) * 1000 + digit_val_x(cs[1]) * 100 + digit_val_x(cs[2]) * 10
            + digit_val_x(cs[3])) as u16,
        month: (digit_val_x(cs[5]) * 10 + digit_val_x(cs[6])) as u8,
        day: (digit_val_x(cs[8]) * 10 + digit_val_x(cs[9])) as u8,
        hour: (digit_val_x(cs[11]) * 10 + digit_val_x(cs[12])) as u8,
        minute: (digit_val_x(cs[14]) * 10 + digit_val_x(cs[15])) as u8,
        second: (digit_val_x(cs[17]) * 10 + digit_val_x(cs[18])) as u8,
    };
    if dt_wf_x(&dt) {
        Some(dt)
    } else {
        None
    }
}

/// Parsing the optional text of a time field, as read from a header.
pub fn header_value_to_dt(val: Option<String>) -> (r: Result<Option<DateTime>, FieldError>)
    ensures
        match r {
            Ok(Some(dt)) => val matches Some(s) && parse_dt(s@) == Some(dt),
            Ok(None) => val is None,
            Err(e) => (e matches FieldError::Invalid(m) && (val matches Some(s) && parse_dt(s@)
                == None::<DateTime> && m@ == "cannot parse time text '"@ + s@
                + "' as YYYY-MM-DDThh:mm:ss"@)),
        },
{
    match val {
        Some(s) => match parse_dt_x(s.as_str()) {
            Some(dt) => Ok(Some(dt)),
            None => {
                let mut msg = String::from_str("cannot parse time text '");
                msg.append(s.as_str());
                msg.append("' as YYYY-MM-DDThh:mm:ss");
                assert(msg@ =~= "cannot parse time text '"@ + s@
                    + "' as YYYY-MM-DDThh:mm:ss"@);
                Err(FieldError::Invalid(msg))
            },
        },
        None => Ok(None),
    }
}

/// Chronological order on optional times, an absent time first: the order
/// the validity check of a tracked span uses.
pub open spec fn opt_dt_le(a: Option<DateTime>, b: Option<DateTime>) -> bool {
    match (a, b) {
        (None, _) => true,
        (Some(_), None) => false,
        (Some(x), Some(y)) => dt_le(x, y),
    }
}

/// The time stored at a header path, if the field holds parseable time
/// text.
pub open spec fn dt_field(h: Seq<(Seq<char>, HVal)>, path: Seq<char>) -> Option<DateTime> {
    match read_path(h, spec_split(path, '.')) {
        Some(v) => match v {
            HVal::S(s) => parse_dt(s),
            _ => None,
        },
        None => None,
    }
}

/// The field at a header path is readable as an optional time: absent, or
/// a string of parseable time text.
pub open spec fn dt_field_ok(h: Seq<(Seq<char>, HVal)>, path: Seq<char>) -> bool {
    match read_path(h, spec_split(path, '.')) {
        Some(v) => match v {
            HVal::S(s) => parse_dt(s) is Some,
            _ => false,
        },
        None => true,
    }
}

impl Handle {
    /// The tracked tag of this entry: the `timetrack.tag` header field.
    pub fn get_timetrack_tag(&self) -> (r: Result<String, FieldError>)
        ensures
            match r {
                Ok(s) => read_path(self.header_model(), spec_split("timetrack.tag"@, '.')) == Some(
                    HVal::S(s@),
                ),
                Err(FieldError::Missing) => read_path(
                    self.header_model(),
                    spec_split("timetrack.tag"@, '.'),
                ) == None::<HVal>,
                Err(FieldError::Mismatch) => match read_path(
                    self.header_model(),
                    spec_split("timetrack.tag"@, '.'),
                ) {
                    Some(v) => !(v is S),
                    None => false,
                },
                Err(FieldError::Invalid(_)) => false,
            },
    {
        match self.get_entry().read_string("timetrack.tag") {
            Ok(Some(s)) => Ok(s),
            Ok(None) => Err(FieldError::Missing),
            Err(_) => Err(FieldError::Mismatch),
        }
    }

    /// Sets the start time, stored as its header text; marks the handle
    /// dirty.
    pub fn set_start_datetime(&mut self, dt: DateTime) -> (r: Result<(), TypeError>)
        requires
            dt_wf(dt),
        ensures
            match r {
                Ok(()) => insert_path(
                    old(self).header_model(),
                    spec_split("timetrack.start"@, '.'),
                    HVal::S(fmt_dt(dt)),
                ) == Some(final (self).header_model()),
                Err(e) => e == TypeError::Mismatch && insert_path(
                    old(self).header_model(),
                    spec_split("timetrack.start"@, '.'),
                    HVal::S(fmt_dt(dt)),
                ) == None::<Seq<(Seq<char>, HVal)>> && final (self).header_model() == old(
                    self,
                ).header_model(),
            },
            final (self).content_model() == old(self).content_model(),
            final (self).is_dirty(),
            final (self).location() == old(self).location(),
    {
        let s = fmt_dt_x(&dt);
        self.header_insert("timetrack.start", Value::Str(s))
    }

    /// The start time, if one is stored.
    pub fn get_start_datetime(&self) -> (r: Result<Option<DateTime>, FieldError>)
        ensures
            match r {
                Ok(Some(dt)) => match read_path(
                    self.header_model(),
                    spec_split("timetrack.start"@, '.'),
                ) {
                    Some(v) => v matches HVal::S(s) && parse_dt(s) == Some(dt),
                    None => false,
                },
                Ok(None) => read_path(self.header_model(), spec_split("timetrack.start"@, '.'))
                    == None::<HVal>,
                Err(FieldError::Missing) => false,
                Err(FieldError::Mismatch) => match read_path(
                    self.header_model(),
                    spec_split("timetrack.start"@, '.'),
                ) {
                    Some(v) => !(v is S),
                    None => false,
                },
                Err(FieldError::Invalid(_)) => match read_path(
                    self.header_model(),
                    spec_split("timetrack.start"@, '.'),
                ) {
                    Some(v) => v matches HVal::S(s) && parse_dt(s) == None::<DateTime>,
                    None => false,
                },
            },
    {
        match self.get_entry().read_string("timetrack.start") {
            Ok(opt) => header_value_to_dt(opt),
            Err(_) => Err(FieldError::Mismatch),
        }
    }

    /// Removes the start time; marks the handle dirty.
    pub fn delete_start_datetime(&mut self) -> (r: Result<bool, TypeError>)
        ensures
            match r {
                Ok(b) => delete_path(old(self).header_model(), spec_split("timetrack.start"@, '.'))
                    == Some((final (self).header_model(), b)),
                Err(e) => e == TypeError::Mismatch && delete_path(
                    old(self).header_model(),
                    spec_split("timetrack.start"@, '.'),
                ) == None::<(Seq<(Seq<char>, HVal)>, bool)> && final (self).header_model() == old(
                    self,
                ).header_model(),
            },
            final (self).content_model() == old(self).content_model(),
            final (self).is_dirty(),
            final (self).location() == old(self).location(),
            uniq_pairs(old(self).header_model()) && r is Ok ==> read_path(
                final (self).header_model(),
                spec_split("timetrack.start"@, '.'),
            ) == None::<HVal>,
    {
        proof {
            if uniq_pairs(self.header_model()) {
                crate::strutil::lemma_split_nonempty("timetrack.start"@, '.');
                crate::entry::lemma_delete_then_read(
                    self.header_model(),
                    spec_split("timetrack.start"@, '.'),
                );
            }
        }
        self.header_delete("timetrack.start")
    }

    /// Sets the end time, stored as its header text; marks the handle
    /// dirty.
    pub fn set_end_datetime(&mut self, dt: DateTime) -> (r: Result<(), TypeError>)
        requires
            dt_wf(dt),
        ensures
            match r {
                Ok(()) => insert_path(
                    old(self).header_model(),
                    spec_split("timetrack.end"@, '.'),
                    HVal::S(fmt_dt(dt)),
                ) == Some(final (self).header_model()),
                Err(e) => e == TypeError::Mismatch && insert_path(
                    old(self).header_model(),
                    spec_split("timetrack.end"@, '.'),
                    HVal::S(fmt_dt(dt)),
                ) == None::<Seq<(Seq<char>, HVal)>> && final (self).header_model() == old(
                    self,
                ).header_model(),
            },
            final (self).content_model() == old(self).content_model(),
            final (self).is_dirty(),
            final (self).location() == old(self).location(),
    {
        let s = fmt_dt_x(&dt);
        self.header_insert("timetrack.end", Value::Str(s))
    }

    /// The end time, if one is stored.
    pub fn get_end_datetime(&self) -> (r: Result<Option<DateTime>, FieldError>)
        ensures
            match r {
                Ok(Some(dt)) => match read_path(
                    self.header_model(),
                    spec_split("timetrack.end"@, '.'),
                ) {
                    Some(v) => v matches HVal::S(s) && parse_dt(s) == Some(dt),
                    None => false,
                },
                Ok(None) => read_path(self.header_model(), spec_split("timetrack.end"@, '.'))
                    == None::<HVal>,
                Err(FieldError::Missing) => false,
                Err(FieldError::Mismatch) => match read_path(
                    self.header_model(),
                    spec_split("timetrack.end"@, '.'),
                ) {
                    Some(v) => !(v is S),
                    None => false,
                },
                Err(FieldError::Invalid(_)) => match read_path(
                    self.header_model(),
                    spec_split("timetrack.end"@, '.'),
                ) {
                    Some(v) => v matches HVal::S(s) && parse_dt(s) == None::<DateTime>,
                    None => false,
                },
            },
    {
        match self.get_entry().read_string("timetrack.end") {
            Ok(opt) => header_value_to_dt(opt),
            Err(_) => Err(FieldError::Mismatch),
        }
    }

    /// Removes the end time; marks the handle dirty.
    pub fn delete_end_datetime(&mut self) -> (r: Result<bool, TypeError>)
        ensures
            match r {
                Ok(b) => delete_path(old(self).header_model(), spec_split("timetrack.end"@, '.'))
                    == Some((final (self).header_model(), b)),
                Err(e) => e == TypeError::Mismatch && delete_path(
                    old(self).header_model(),
                    spec_split("timetrack.end"@, '.'),
                ) == None::<(Seq<(Seq<char>, HVal)>, bool)> && final (self).header_model() == old(
                    self,
                ).header_model(),
            },
            final (self).content_model() == old(self).content_model(),
            final (self).is_dirty(),
            final (self).location() == old(self).location(),
            uniq_pairs(old(self).header_model()) && r is Ok ==> read_path(
                final (self).header_model(),
                spec_split("timetrack.end"@, '.'),
            ) == None::<HVal>,
    {
        proof {
            if uniq_pairs(self.header_model()) {
                crate::strutil::lemma_split_nonempty("timetrack.end"@, '.');
                crate::entry::lemma_delete_then_read(
                    self.header_model(),
                    spec_split("timetrack.end"@, '.'),
                );
            }
        }
        self.header_delete("timetrack.end")
    }

    /// The tracked span is valid: the end time does not precede the start
    /// time, an absent time counting as earliest. Fails when either field
    /// holds something other than parseable time text.
    pub fn valid(&self) -> (r: Result<bool, FieldError>)
        ensures
            r is Ok <==> dt_field_ok(self.header_model(), "timetrack.start"@) && dt_field_ok(
                self.header_model(),
                "timetrack.end"@,
            ),
            r matches Ok(b) ==> b == opt_dt_le(
                dt_field(self.header_model(), "timetrack.start"@),
                dt_field(self.header_model(), "timetrack.end"@),
            ),
    {
        let st = match self.get_start_datetime() {
            Ok(v) => v,
            Err(e) => {
                return Err(e);
            },
        };
        let et = match self.get_end_datetime() {
            Ok(v) => v,
            Err(e) => {
                return Err(e);
            },
        };
        let b = match (&st, &et) {
            (None, _) => true,
            (Some(_), None) => false,
            (Some(x), Some(y)) => dt_le_x(x, y),
        };
        proof {
            assert(st == dt_field(self.header_model(), "timetrack.start"@));
            assert(et == dt_field(self.header_model(), "timetrack.end"@));
            assert(opt_dt_le(st, et) == b);
        }
        Ok(b)
    }
}

} // verus!
