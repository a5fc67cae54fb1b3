use vstd::prelude::*;
use vstd::string::*;
use std::str::FromStr;

verus! {

/// `url::Url`, carried through opaquely.
#[verifier::external_type_specification]
#[verifier::external_body]
pub struct ExUrl(url::Url);

/// `url::ParseError`, handed back to the caller as it is.
#[verifier::external_type_specification]
#[verifier::external_body]
pub struct ExParseError(url::ParseError);

/// Whether `url` accepts `s` as an absolute URL.
pub uninterp spec fn url_accepts(s: Seq<char>) -> bool;

/// What `str::to_lowercase` gives for `s`.
pub uninterp spec fn lower_of(s: Seq<char>) -> Seq<char>;

/// Relies on `url::Url::parse`: it succeeds or fails depending on the text
/// alone, and never panics.
#[verifier::external_body]
fn parse_url(s: &str) -> (r: Result<url::Url, url::ParseError>)
    ensures
        r is Ok <==> url_accepts(s@),
{
    url::Url::parse(s)
}

/// Relies on `str::to_lowercase`: the result depends on the characters alone.
#[verifier::external_body]
fn lowercase(s: &str) -> (r: String)
    ensures
        r@ == lower_of(s@),
{
    s.to_lowercase()
}

/// Index of the first `c` in `s`, if any.
pub open spec fn first_index(s: Seq<char>, c: char) -> Option<int> {
    if exists|i: int| 0 <= i < s.len() && s[i] == c {
        Some(choose|i: int| 0 <= i < s.len() && s[i] == c && forall|k: int| 0 <= k < i ==> s[k] != c)
    } else {
        None
    }
}

/// Finds the first `c` in `s`.
pub fn find_char(s: &str, c: char) -> (r: Option<usize>)
    ensures
        r is None <==> first_index(s@, c) is None,
        r is Some ==> first_index(s@, c) == Some(r->0 as int),
        r is Some ==> r->0 < s@.len() && s@[r->0 as int] == c && forall|k: int| 0 <= k < r->0 ==> s@[k] != c,
{
    let n = s.unicode_len();
    let mut i: usize = 0;
    while i < n
        invariant
            n == s@.len(),
            i <= n,
            forall|k: int| 0 <= k < i ==> s@[k] != c,
        decreases n - i,
    {
        if s.get_char(i) == c {
            let ghost j = choose|j: int| 0 <= j < s@.len() && s@[j] == c && forall|k: int| 0 <= k < j ==> s@[k] != c;
            assert(j == i) by {
                if j < i { assert(s@[j] != c); }
                if j > i { assert(s@[i as int] != c); }
            }
            return Some(i);
        }
        i += 1;
    }
    None
}

/// A header given on the command line as `name:value`; the name is kept in
/// lower case.
pub struct Header(pub String, pub String);

impl Header {
    /// Splits `s` at its first `:`; the name before it is lower-cased and the
    /// value after it kept as it is.
    pub fn parse(s: &str) -> (r: Result<Header, String>)
        ensures
            r is Err <==> first_index(s@, ':') is None,
            r is Err ==> r->Err_0@ == "invalid header format"@,
            r is Ok ==> {
                let c = first_index(s@, ':')->0;
                &&& r->Ok_0.0@ == lower_of(s@.subrange(0, c))
                &&& r->Ok_0.1@ == s@.subrange(c + 1, s@.len() as int)
            },
    {
        let n = s.unicode_len();
        match find_char(s, ':') {
            None => Err("invalid header format".to_owned()),
            Some(c) => {
                let name = s.substring_char(0, c);
                let value = s.substring_char(c + 1, n);
                Ok(Header(lowercase(name), value.to_owned()))
            },
        }
    }

    /// The name and the value.
    pub fn into_pair(self) -> (r: (String, String))
        ensures
            r.0 == self.0,
            r.1 == self.1,
    {
        (self.0, self.1)
    }
}

impl From<Header> for (String, String) {
    fn from(val: Header) -> (String, String) {
        (val.0, val.1)
    }
}

impl vstd::std_specs::convert::FromSpecImpl<Header> for (String, String) {
    open spec fn obeys_from_spec() -> bool {
        true
    }

    open spec fn from_spec(v: Header) -> (String, String) {
        (v.0, v.1)
    }
}

impl FromStr for Header {
    type Err = String;

    fn from_str(s: &str) -> (r: Result<Header, String>)
        ensures
            r is Err <==> first_index(s@, ':') is None,
            r is Err ==> r->Err_0@ == "invalid header format"@,
            r is Ok ==> {
                let c = first_index(s@, ':')->0;
                &&& r->Ok_0.0@ == lower_of(s@.subrange(0, c))
                &&& r->Ok_0.1@ == s@.subrange(c + 1, s@.len() as int)
            },
    {
        Header::parse(s)
    }
}

/// `s` with a `/` appended unless it already ends with one.
pub open spec fn with_trailing_slash(s: Seq<char>) -> Seq<char> {
    if s.len() > 0 && s.last() == '/' {
        s
    } else {
        s.push('/')
    }
}

/// A base URL whose text ended with `/` before parsing.
pub struct UrlWithTrailingSlash(pub url::Url);

impl UrlWithTrailingSlash {
    /// Appends a missing trailing `/` and parses the result.
    pub fn parse(s: &str) -> (r: Result<UrlWithTrailingSlash, url::ParseError>)
        ensures
            r is Ok <==> url_accepts(with_trailing_slash(s@)),
    {
        let n = s.unicode_len();
        if n > 0 && s.get_char(n - 1) == '/' {
            match parse_url(s) {
                Ok(u) => Ok(UrlWithTrailingSlash(u)),
                Err(e) => Err(e),
            }
        } else {
            let t = s.to_owned().concat("/");
            proof {
                reveal_strlit("/");
                assert(t@ =~= s@.push('/'));
            }
            match parse_url(t.as_str()) {
                Ok(u) => Ok(UrlWithTrailingSlash(u)),
                Err(e) => Err(e),
            }
        }
    }

    /// The parsed URL.
    pub fn into_url(self) -> (r: url::Url)
        ensures
            r == self.0,
    {
        self.0
    }
}

impl From<UrlWithTrailingSlash> for url::Url {
    fn from(val: UrlWithTrailingSlash) -> url::Url {
        val.0
    }
}

impl vstd::std_specs::convert::FromSpecImpl<UrlWithTrailingSlash> for url::Url {
    open spec fn obeys_from_spec() -> bool {
        true
    }

    open spec fn from_spec(v: UrlWithTrailingSlash) -> url::Url {
        v.0
    }
}

impl FromStr for UrlWithTrailingSlash {
    type Err = url::ParseError;

    fn from_str(s: &str) -> (r: Result<UrlWithTrailingSlash, url::ParseError>)
        ensures
            r is Ok <==> url_accepts(with_trailing_slash(s@)),
    {
        UrlWithTrailingSlash::parse(s)
    }
}

} // verus!
