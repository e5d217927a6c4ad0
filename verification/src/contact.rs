//! The plain-value form of one address-book card: every property the card
//! layer reads, held as owned strings, with one accessor per property.
//! The surrounding program converts a parsed card into this type; nothing
//! here touches the card format itself.

use vstd::prelude::*;

verus! {

/// One electronic-mail property: the address text and its parameters.
pub struct Email {
    pub address: String,
    pub properties: Vec<(String, String)>,
}

/// A card reduced to plain values, one field per property.
pub struct DeserVcard {
    pub adr: Vec<String>,
    pub anniversary: Option<String>,
    pub bday: Option<String>,
    pub categories: Vec<String>,
    pub clientpidmap: Option<String>,
    pub email: Vec<Email>,
    pub fullname: Vec<String>,
    pub gender: Option<String>,
    pub geo: Vec<String>,
    pub impp: Vec<String>,
    pub key: Vec<String>,
    pub lang: Vec<String>,
    pub logo: Vec<String>,
    pub member: Vec<String>,
    pub name: Option<String>,
    pub nickname: Vec<String>,
    pub note: Vec<String>,
    pub org: Vec<String>,
    pub photo: Vec<String>,
    pub proid: Option<String>,
    pub related: Vec<String>,
    pub rev: Option<String>,
    pub role: Vec<String>,
    pub sound: Vec<String>,
    pub tel: Vec<String>,
    pub title: Vec<String>,
    pub tz: Vec<String>,
    pub uid: Option<String>,
    pub url: Vec<String>,
    pub version: Option<String>,
}

impl DeserVcard {
    pub fn adr(&self) -> (r: &Vec<String>)
        ensures
            r == &self.adr,
    {
        &self.adr
    }

    pub fn anniversary(&self) -> (r: Option<&String>)
        ensures
            match r {
                Some(s) => self.anniversary matches Some(t) && t == s,
                None => self.anniversary is None,
            },
    {
        self.anniversary.as_ref()
    }

    pub fn bday(&self) -> (r: Option<&String>)
        ensures
            match r {
                Some(s) => self.bday matches Some(t) && t == s,
                None => self.bday is None,
            },
    {
        self.bday.as_ref()
    }

    pub fn categories(&self) -> (r: &Vec<String>)
        ensures
            r == &self.categories,
    {
        &self.categories
    }

    pub fn clientpidmap(&self) -> (r: Option<&String>)
        ensures
            match r {
                Some(s) => self.clientpidmap matches Some(t) && t == s,
                None => self.clientpidmap is None,
            },
    {
        self.clientpidmap.as_ref()
    }

    pub fn email(&self) -> (r: &Vec<Email>)
        ensures
            r == &self.email,
    {
        &self.email
    }

    pub fn fullname(&self) -> (r: &Vec<String>)
        ensures
            r == &self.fullname,
    {
        &self.fullname
    }

    pub fn gender(&self) -> (r: Option<&String>)
        ensures
            match r {
                Some(s) => self.gender matches Some(t) && t == s,
                None => self.gender is None,
            },
    {
        self.gender.as_ref()
    }

    pub fn geo(&self) -> (r: &Vec<String>)
        ensures
            r == &self.geo,
    {
        &self.geo
    }

    pub fn impp(&self) -> (r: &Vec<String>)
        ensures
            r == &self.impp,
    {
        &self.impp
    }

    pub fn key(&self) -> (r: &Vec<String>)
        ensures
            r == &self.key,
    {
        &self.key
    }

    pub fn lang(&self) -> (r: &Vec<String>)
        ensures
            r == &self.lang,
    {
        &self.lang
    }

    pub fn logo(&self) -> (r: &Vec<String>)
        ensures
            r == &self.logo,
    {
        &self.logo
    }

    pub fn member(&self) -> (r: &Vec<String>)
        ensures
            r == &self.member,
    {
        &self.member
    }

    pub fn name(&self) -> (r: Option<&String>)
        ensures
            match r {
                Some(s) => self.name matches Some(t) && t == s,
                None => self.name is None,
            },
    {
        self.name.as_ref()
    }

    pub fn nickname(&self) -> (r: &Vec<String>)
        ensures
            r == &self.nickname,
    {
        &self.nickname
    }

    pub fn note(&self) -> (r: &Vec<String>)
        ensures
            r == &self.note,
    {
        &self.note
    }

    pub fn org(&self) -> (r: &Vec<String>)
        ensures
            r == &self.org,
    {
        &self.org
    }

    pub fn photo(&self) -> (r: &Vec<String>)
        ensures
            r == &self.photo,
    {
        &self.photo
    }

    pub fn proid(&self) -> (r: Option<&String>)
        ensures
            match r {
                Some(s) => self.proid matches Some(t) && t == s,
                None => self.proid is None,
            },
    {
        self.proid.as_ref()
    }

    pub fn related(&self) -> (r: &Vec<String>)
        ensures
            r == &self.related,
    {
        &self.related
    }

    pub fn rev(&self) -> (r: Option<&String>)
        ensures
            match r {
                Some(s) => self.rev matches Some(t) && t == s,
                None => self.rev is None,
            },
    {
        self.rev.as_ref()
    }

    pub fn role(&self) -> (r: &Vec<String>)
        ensures
            r == &self.role,
    {
        &self.role
    }

    pub fn sound(&self) -> (r: &Vec<String>)
        ensures
            r == &self.sound,
    {
        &self.sound
    }

    pub fn tel(&self) -> (r: &Vec<String>)
        ensures
            r == &self.tel,
    {
        &self.tel
    }

    pub fn title(&self) -> (r: &Vec<String>)
        ensures
            r == &self.title,
    {
        &self.title
    }

    pub fn tz(&self) -> (r: &Vec<String>)
        ensures
            r == &self.tz,
    {
        &self.tz
    }

    pub fn uid(&self) -> (r: Option<&String>)
        ensures
            match r {
                Some(s) => self.uid matches Some(t) && t == s,
                None => self.uid is None,
            },
    {
        self.uid.as_ref()
    }

    pub fn url(&self) -> (r: &Vec<String>)
        ensures
            r == &self.url,
    {
        &self.url
    }

    pub fn version(&self) -> (r: Option<&String>)
        ensures
            match r {
                Some(s) => self.version matches Some(t) && t == s,
                None => self.version is None,
            },
    {
        self.version.as_ref()
    }
}

} // verus!
