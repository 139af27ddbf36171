//! The banner of an HTTP scan result, and the keywords that fingerprint rules
//! may name.
use vstd::prelude::*;

use crate::text::{ascii_lower, is_ascii_text};

verus! {

/// The keywords a fingerprint rule may name, in lower case.
pub open spec fn valid_keywords() -> Seq<Seq<char>> {
    seq![
        "title"@,
        "header"@,
        "body"@,
        "response"@,
        "protocol"@,
        "cert"@,
        "port"@,
        "hash"@,
        "icon"@,
    ]
}

/// The keywords a fingerprint rule may name, in lower case.
pub fn valid_keywords_lower() -> (v: Vec<String>)
    ensures
        v.deep_view() == valid_keywords(),
{
    let v = vec![
        "title".to_owned(),
        "header".to_owned(),
        "body".to_owned(),
        "response".to_owned(),
        "protocol".to_owned(),
        "cert".to_owned(),
        "port".to_owned(),
        "hash".to_owned(),
        "icon".to_owned(),
    ];
    assert(v.deep_view() =~= valid_keywords());
    v
}

/// Whether `k` is one of `valid_keywords()`.
pub fn is_valid_keyword(k: &String) -> (b: bool)
    ensures
        b == valid_keywords().contains(k@),
{
    let v = valid_keywords_lower();
    let mut i: usize = 0;
    while i < v.len()
        invariant
            i <= v.len(),
            v.deep_view() == valid_keywords(),
            forall|j: int| 0 <= j < i ==> valid_keywords()[j] != k@,
        decreases v.len() - i,
    {
        if v[i] == *k {
            assert(v.deep_view()[i as int] == v@[i as int]@);
            assert(valid_keywords()[i as int] == k@);
            return true;
        }
        assert(v.deep_view()[i as int] == v@[i as int]@);
        i += 1;
    }
    false
}

/// The view of an optional text field.
pub open spec fn opt_view(o: Option<String>) -> Option<Seq<char>> {
    match o {
        Some(s) => Some(s@),
        None => None,
    }
}

/// The view of an optional borrowed text.
pub open spec fn opt_str_view(o: Option<&str>) -> Option<Seq<char>> {
    match o {
        Some(s) => Some(s@),
        None => None,
    }
}

/// What an HTTP scan found about a service.
#[derive(Debug, Clone)]
pub struct Banner {
    pub title: Option<String>,
    pub header: Option<String>,
    pub body: Option<String>,
    pub response: Option<String>,
    pub protocol: Option<String>,
    pub cert: Option<String>,
    pub port: Option<String>,
    pub hash: Option<String>,
    pub icon: Option<String>,
}

impl Default for Banner {
    fn default() -> (b: Self)
        ensures
            b.title is None && b.header is None && b.body is None && b.response is None
                && b.protocol is None && b.cert is None && b.port is None && b.hash is None
                && b.icon is None,
    {
        Banner {
            title: None,
            header: None,
            body: None,
            response: None,
            protocol: None,
            cert: None,
            port: None,
            hash: None,
            icon: None,
        }
    }
}

fn field_str(o: &Option<String>) -> (r: Option<&str>)
    ensures
        opt_str_view(r) == opt_view(*o),
{
    match o {
        Some(s) => Some(s.as_str()),
        None => None,
    }
}

fn str_eq(a: &str, b: &str) -> (r: bool)
    ensures
        r == (a@ == b@),
{
    a.to_owned() == b.to_owned()
}

impl Banner {
    /// A banner with no field set.
    pub fn new() -> (b: Self)
        ensures
            b.title is None && b.header is None && b.body is None && b.response is None
                && b.protocol is None && b.cert is None && b.port is None && b.hash is None
                && b.icon is None,
    {
        Self::default()
    }

    /// The field called `name` (capitalised, as in `"Title"`); `None` for a
    /// field that is not set and for any other name.
    pub open spec fn field(&self, name: Seq<char>) -> Option<Seq<char>> {
        if name == "Title"@ {
            opt_view(self.title)
        } else if name == "Header"@ {
            opt_view(self.header)
        } else if name == "Body"@ {
            opt_view(self.body)
        } else if name == "Response"@ {
            opt_view(self.response)
        } else if name == "Protocol"@ {
            opt_view(self.protocol)
        } else if name == "Cert"@ {
            opt_view(self.cert)
        } else if name == "Port"@ {
            opt_view(self.port)
        } else if name == "Hash"@ {
            opt_view(self.hash)
        } else if name == "Icon"@ {
            opt_view(self.icon)
        } else {
            None
        }
    }

    pub fn get_field(&self, field_name: &str) -> (r: Option<&str>)
        ensures
            opt_str_view(r) == self.field(field_name@),
    {
        if str_eq(field_name, "Title") {
            field_str(&self.title)
        } else if str_eq(field_name, "Header") {
            field_str(&self.header)
        } else if str_eq(field_name, "Body") {
            field_str(&self.body)
        } else if str_eq(field_name, "Response") {
            field_str(&self.response)
        } else if str_eq(field_name, "Protocol") {
            field_str(&self.protocol)
        } else if str_eq(field_name, "Cert") {
            field_str(&self.cert)
        } else if str_eq(field_name, "Port") {
            field_str(&self.port)
        } else if str_eq(field_name, "Hash") {
            field_str(&self.hash)
        } else if str_eq(field_name, "Icon") {
            field_str(&self.icon)
        } else {
            None
        }
    }
}

/// `s` with each ASCII capital letter lowered.
pub open spec fn ascii_lowercase(s: Seq<char>) -> Seq<char> {
    s.map_values(|c: char| ascii_lower(c))
}

proof fn reveal_field_names()
    ensures
        "Title"@ =~= seq!['T', 'i', 't', 'l', 'e'],
        "Header"@ =~= seq!['H', 'e', 'a', 'd', 'e', 'r'],
        "Body"@ =~= seq!['B', 'o', 'd', 'y'],
        "Response"@ =~= seq!['R', 'e', 's', 'p', 'o', 'n', 's', 'e'],
        "Protocol"@ =~= seq!['P', 'r', 'o', 't', 'o', 'c', 'o', 'l'],
        "Cert"@ =~= seq!['C', 'e', 'r', 't'],
        "Port"@ =~= seq!['P', 'o', 'r', 't'],
        "Hash"@ =~= seq!['H', 'a', 's', 'h'],
        "Icon"@ =~= seq!['I', 'c', 'o', 'n'],
        "title"@ =~= seq!['t', 'i', 't', 'l', 'e'],
        "header"@ =~= seq!['h', 'e', 'a', 'd', 'e', 'r'],
        "body"@ =~= seq!['b', 'o', 'd', 'y'],
        "response"@ =~= seq!['r', 'e', 's', 'p', 'o', 'n', 's', 'e'],
        "protocol"@ =~= seq!['p', 'r', 'o', 't', 'o', 'c', 'o', 'l'],
        "cert"@ =~= seq!['c', 'e', 'r', 't'],
        "port"@ =~= seq!['p', 'o', 'r', 't'],
        "hash"@ =~= seq!['h', 'a', 's', 'h'],
        "icon"@ =~= seq!['i', 'c', 'o', 'n'],
{
    reveal_strlit("Title");
    reveal_strlit("Header");
    reveal_strlit("Body");
    reveal_strlit("Response");
    reveal_strlit("Protocol");
    reveal_strlit("Cert");
    reveal_strlit("Port");
    reveal_strlit("Hash");
    reveal_strlit("Icon");
    reveal_strlit("title");
    reveal_strlit("header");
    reveal_strlit("body");
    reveal_strlit("response");
    reveal_strlit("protocol");
    reveal_strlit("cert");
    reveal_strlit("port");
    reveal_strlit("hash");
    reveal_strlit("icon");
}

/// Every name under which a banner field can be read is ASCII, and in lower
/// case it is one of the keywords that a rule may name.
pub proof fn law_field_names_are_keywords(b: Banner, k: Seq<char>)
    requires
        b.field(k) is Some,
    ensures
        is_ascii_text(k),
        valid_keywords().contains(ascii_lowercase(k)),
{
    reveal_field_names();
    let kw = valid_keywords();
    if k == "Title"@ {
        assert(ascii_lowercase(k) =~= kw[0]);
    } else if k == "Header"@ {
        assert(ascii_lowercase(k) =~= kw[1]);
    } else if k == "Body"@ {
        assert(ascii_lowercase(k) =~= kw[2]);
    } else if k == "Response"@ {
        assert(ascii_lowercase(k) =~= kw[3]);
    } else if k == "Protocol"@ {
        assert(ascii_lowercase(k) =~= kw[4]);
    } else if k == "Cert"@ {
        assert(ascii_lowercase(k) =~= kw[5]);
    } else if k == "Port"@ {
        assert(ascii_lowercase(k) =~= kw[6]);
    } else if k == "Hash"@ {
        assert(ascii_lowercase(k) =~= kw[7]);
    } else {
        assert(k == "Icon"@);
        assert(ascii_lowercase(k) =~= kw[8]);
    }
}

/// Every keyword that a rule may name reads a banner field: it is the lower
/// case of a name under which a banner with all its fields set has a value.
pub proof fn law_keywords_are_field_names(b: Banner, i: int)
    requires
        0 <= i < valid_keywords().len(),
        b.title is Some && b.header is Some && b.body is Some && b.response is Some
            && b.protocol is Some && b.cert is Some && b.port is Some && b.hash is Some
            && b.icon is Some,
    ensures
        exists|k: Seq<char>| #[trigger] ascii_lowercase(k) == valid_keywords()[i] && b.field(k) is Some,
{
    reveal_field_names();
    let kw = valid_keywords();
    let k = if i == 0 {
        "Title"@
    } else if i == 1 {
        "Header"@
    } else if i == 2 {
        "Body"@
    } else if i == 3 {
        "Response"@
    } else if i == 4 {
        "Protocol"@
    } else if i == 5 {
        "Cert"@
    } else if i == 6 {
        "Port"@
    } else if i == 7 {
        "Hash"@
    } else {
        "Icon"@
    };
    assert(ascii_lowercase(k) =~= kw[i]);
    assert(b.field(k) is Some);
}

} // verus!
