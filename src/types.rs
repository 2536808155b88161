use crate::errors::{HttpMethodError, HttpVersionError};
use crate::text::{chars_of, no_char};
use vstd::prelude::*;

verus! {

/// Whether two character sequences are equal.
pub fn chars_eq(a: &[char], b: &[char]) -> (r: bool)
    ensures
        r == (a@ == b@),
{
    if a.len() != b.len() {
        return false;
    }
    let mut i: usize = 0;
    while i < a.len()
        invariant
            a@.len() == b@.len(),
            i <= a@.len(),
            forall|j: int| 0 <= j < i ==> a@[j] == b@[j],
        decreases a@.len() - i,
    {
        if a[i] != b[i] {
            return false;
        }
        i = i + 1;
    }
    assert(a@ =~= b@);
    true
}

/// `a` spells the word given in lower case by `lower` and in upper case by
/// `upper`, each letter in either case.
pub open spec fn eq_either_case(a: Seq<char>, lower: Seq<char>, upper: Seq<char>) -> bool {
    &&& a.len() == lower.len()
    &&& a.len() == upper.len()
    &&& forall|i: int| 0 <= i < a.len() ==> a[i] == lower[i] || a[i] == upper[i]
}

/// Whether `a` spells the word of `lower` and `upper` in any mix of cases.
pub fn chars_eq_either_case(a: &[char], lower: &[char], upper: &[char]) -> (r: bool)
    ensures
        r == eq_either_case(a@, lower@, upper@),
{
    if a.len() != lower.len() || a.len() != upper.len() {
        return false;
    }
    let mut i: usize = 0;
    while i < a.len()
        invariant
            a@.len() == lower@.len(),
            a@.len() == upper@.len(),
            i <= a@.len(),
            forall|j: int| 0 <= j < i ==> a@[j] == lower@[j] || a@[j] == upper@[j],
        decreases a@.len() - i,
    {
        if a[i] != lower[i] && a[i] != upper[i] {
            return false;
        }
        i = i + 1;
    }
    true
}

/// The protocol versions that a message may name.
#[derive(Debug, Clone, Copy, PartialEq, Eq)]
pub enum HttpVersion {
    Http1_1,
    Http2,
    Http3,
}

/// The wire token of each version.
pub open spec fn version_token(v: HttpVersion) -> Seq<char> {
    match v {
        HttpVersion::Http1_1 => seq!['H', 'T', 'T', 'P', '/', '1', '.', '1'],
        HttpVersion::Http2 => seq!['H', 'T', 'T', 'P', '/', '2'],
        HttpVersion::Http3 => seq!['H', 'T', 'T', 'P', '/', '3'],
    }
}

/// The version whose wire token is exactly `t`, if any.
pub open spec fn version_of(t: Seq<char>) -> Option<HttpVersion> {
    if t == version_token(HttpVersion::Http1_1) {
        Some(HttpVersion::Http1_1)
    } else if t == version_token(HttpVersion::Http2) {
        Some(HttpVersion::Http2)
    } else if t == version_token(HttpVersion::Http3) {
        Some(HttpVersion::Http3)
    } else {
        None
    }
}

/// Each version's token reads back as that version, and holds no space or
/// line feed.
pub proof fn lemma_version_token(v: HttpVersion)
    ensures
        version_of(version_token(v)) == Some(v),
        no_char(version_token(v), ' '),
        no_char(version_token(v), '\n'),
{
    let t1 = version_token(HttpVersion::Http1_1);
    let t2 = version_token(HttpVersion::Http2);
    let t3 = version_token(HttpVersion::Http3);
    assert(t2[5] != t3[5]);
    assert(t1.len() != t2.len());
    assert(t1.len() != t3.len());
}

/// The result of reading `t` as a version token.
pub open spec fn version_result(t: Seq<char>) -> Result<HttpVersion, HttpVersionError> {
    match version_of(t) {
        Some(v) => Ok(v),
        None => Err(HttpVersionError),
    }
}

impl HttpVersion {
    /// The version named by the token `t`; the match is case-sensitive.
    pub fn from_chars(t: &[char]) -> (r: Result<HttpVersion, HttpVersionError>)
        ensures
            r == version_result(t@),
    {
        if chars_eq(t, &['H', 'T', 'T', 'P', '/', '1', '.', '1']) {
            Ok(HttpVersion::Http1_1)
        } else if chars_eq(t, &['H', 'T', 'T', 'P', '/', '2']) {
            Ok(HttpVersion::Http2)
        } else if chars_eq(t, &['H', 'T', 'T', 'P', '/', '3']) {
            Ok(HttpVersion::Http3)
        } else {
            Err(HttpVersionError)
        }
    }

    /// The version named by the text `s`; the match is case-sensitive.
    pub fn from_token(s: &str) -> (r: Result<HttpVersion, HttpVersionError>)
        ensures
            r == version_result(s@),
    {
        let t = chars_of(s);
        HttpVersion::from_chars(t.as_slice())
    }

    /// The wire token of this version, such as `HTTP/1.1`.
    pub fn as_str(&self) -> (r: &'static str)
        ensures
            r@ == version_token(*self),
    {
        proof {
            reveal_strlit("HTTP/1.1");
            reveal_strlit("HTTP/2");
            reveal_strlit("HTTP/3");
        }
        match self {
            HttpVersion::Http1_1 => "HTTP/1.1",
            HttpVersion::Http2 => "HTTP/2",
            HttpVersion::Http3 => "HTTP/3",
        }
    }
}

impl<'a> TryFrom<&'a str> for HttpVersion {
    type Error = HttpVersionError;

    fn try_from(value: &'a str) -> (r: Result<HttpVersion, HttpVersionError>) {
        HttpVersion::from_token(value)
    }
}

impl<'a> vstd::std_specs::convert::TryFromSpecImpl<&'a str> for HttpVersion {
    open spec fn obeys_try_from_spec() -> bool {
        true
    }

    open spec fn try_from_spec(v: &'a str) -> Result<HttpVersion, HttpVersionError> {
        version_result(v@)
    }
}

/// The request methods that a message may name.
#[derive(Debug, Clone, Copy, PartialEq, Eq)]
pub enum HttpMethod {
    Get,
    Post,
    Put,
    Patch,
    Delete,
    Options,
    Head,
}

/// The canonical wire token of each method, in upper case.
pub open spec fn method_upper(m: HttpMethod) -> Seq<char> {
    match m {
        HttpMethod::Get => seq!['G', 'E', 'T'],
        HttpMethod::Post => seq!['P', 'O', 'S', 'T'],
        HttpMethod::Put => seq!['P', 'U', 'T'],
        HttpMethod::Patch => seq!['P', 'A', 'T', 'C', 'H'],
        HttpMethod::Delete => seq!['D', 'E', 'L', 'E', 'T', 'E'],
        HttpMethod::Options => seq!['O', 'P', 'T', 'I', 'O', 'N', 'S'],
        HttpMethod::Head => seq!['H', 'E', 'A', 'D'],
    }
}

/// The token of each method in lower case.
pub open spec fn method_lower(m: HttpMethod) -> Seq<char> {
    match m {
        HttpMethod::Get => seq!['g', 'e', 't'],
        HttpMethod::Post => seq!['p', 'o', 's', 't'],
        HttpMethod::Put => seq!['p', 'u', 't'],
        HttpMethod::Patch => seq!['p', 'a', 't', 'c', 'h'],
        HttpMethod::Delete => seq!['d', 'e', 'l', 'e', 't', 'e'],
        HttpMethod::Options => seq!['o', 'p', 't', 'i', 'o', 'n', 's'],
        HttpMethod::Head => seq!['h', 'e', 'a', 'd'],
    }
}

/// `t` is the token of `m` in any mix of cases.
pub open spec fn names_method(t: Seq<char>, m: HttpMethod) -> bool {
    eq_either_case(t, method_lower(m), method_upper(m))
}

/// The method that `t` names, ignoring the case of its letters, if any.
pub open spec fn method_of(t: Seq<char>) -> Option<HttpMethod> {
    if names_method(t, HttpMethod::Get) {
        Some(HttpMethod::Get)
    } else if names_method(t, HttpMethod::Post) {
        Some(HttpMethod::Post)
    } else if names_method(t, HttpMethod::Put) {
        Some(HttpMethod::Put)
    } else if names_method(t, HttpMethod::Patch) {
        Some(HttpMethod::Patch)
    } else if names_method(t, HttpMethod::Delete) {
        Some(HttpMethod::Delete)
    } else if names_method(t, HttpMethod::Options) {
        Some(HttpMethod::Options)
    } else if names_method(t, HttpMethod::Head) {
        Some(HttpMethod::Head)
    } else {
        None
    }
}

/// The result of reading `t` as a method token.
pub open spec fn method_result(t: Seq<char>) -> Result<HttpMethod, HttpMethodError> {
    match method_of(t) {
        Some(m) => Ok(m),
        None => Err(HttpMethodError),
    }
}

impl HttpMethod {
    /// The method named by the token `t`, in any mix of cases.
    pub fn from_chars(t: &[char]) -> (r: Result<HttpMethod, HttpMethodError>)
        ensures
            r == method_result(t@),
    {
        if chars_eq_either_case(t, &['g', 'e', 't'], &['G', 'E', 'T']) {
            Ok(HttpMethod::Get)
        } else if chars_eq_either_case(t, &['p', 'o', 's', 't'], &['P', 'O', 'S', 'T']) {
            Ok(HttpMethod::Post)
        } else if chars_eq_either_case(t, &['p', 'u', 't'], &['P', 'U', 'T']) {
            Ok(HttpMethod::Put)
        } else if chars_eq_either_case(t, &['p', 'a', 't', 'c', 'h'], &['P', 'A', 'T', 'C', 'H']) {
            Ok(HttpMethod::Patch)
        } else if chars_eq_either_case(
            t,
            &['d', 'e', 'l', 'e', 't', 'e'],
            &['D', 'E', 'L', 'E', 'T', 'E'],
        ) {
            Ok(HttpMethod::Delete)
        } else if chars_eq_either_case(
            t,
            &['o', 'p', 't', 'i', 'o', 'n', 's'],
            &['O', 'P', 'T', 'I', 'O', 'N', 'S'],
        ) {
            Ok(HttpMethod::Options)
        } else if chars_eq_either_case(t, &['h', 'e', 'a', 'd'], &['H', 'E', 'A', 'D']) {
            Ok(HttpMethod::Head)
        } else {
            Err(HttpMethodError)
        }
    }

    /// The method named by the text `s`, in any mix of cases.
    pub fn from_token(s: &str) -> (r: Result<HttpMethod, HttpMethodError>)
        ensures
            r == method_result(s@),
    {
        let t = chars_of(s);
        HttpMethod::from_chars(t.as_slice())
    }

    /// The canonical upper-case token of this method, such as `GET`.
    pub fn as_str(&self) -> (r: &'static str)
        ensures
            r@ == method_upper(*self),
    {
        proof {
            reveal_strlit("GET");
            reveal_strlit("POST");
            reveal_strlit("PUT");
            reveal_strlit("PATCH");
            reveal_strlit("DELETE");
            reveal_strlit("OPTIONS");
            reveal_strlit("HEAD");
        }
        match self {
            HttpMethod::Get => "GET",
            HttpMethod::Post => "POST",
            HttpMethod::Put => "PUT",
            HttpMethod::Patch => "PATCH",
            HttpMethod::Delete => "DELETE",
            HttpMethod::Options => "OPTIONS",
            HttpMethod::Head => "HEAD",
        }
    }
}

impl<'a> TryFrom<&'a str> for HttpMethod {
    type Error = HttpMethodError;

    fn try_from(value: &'a str) -> (r: Result<HttpMethod, HttpMethodError>) {
        HttpMethod::from_token(value)
    }
}

impl<'a> vstd::std_specs::convert::TryFromSpecImpl<&'a str> for HttpMethod {
    open spec fn obeys_try_from_spec() -> bool {
        true
    }

    open spec fn try_from_spec(v: &'a str) -> Result<HttpMethod, HttpMethodError> {
        method_result(v@)
    }
}

/// Header entries as texts: name and value, in the order the names were
/// first inserted.
pub type HeaderView = Seq<(Seq<char>, Seq<char>)>;

/// No name occurs twice.
pub open spec fn keys_unique(s: HeaderView) -> bool {
    forall|i: int, j: int| 0 <= i < j < s.len() ==> s[i].0 != s[j].0
}

/// Some entry is named `k`.
pub open spec fn has_key(s: HeaderView, k: Seq<char>) -> bool {
    exists|i: int| 0 <= i < s.len() && s[i].0 == k
}

/// The entries after setting `k` to `v`: an entry with that name takes the
/// new value in its place, otherwise the entry goes at the end.
pub open spec fn inserted(s: HeaderView, k: Seq<char>, v: Seq<char>) -> HeaderView {
    if has_key(s, k) {
        s.update(choose|i: int| 0 <= i < s.len() && s[i].0 == k, (k, v))
    } else {
        s.push((k, v))
    }
}

/// The value stored under `k`, if any.
pub open spec fn lookup(s: HeaderView, k: Seq<char>) -> Option<Seq<char>> {
    if has_key(s, k) {
        Some(s[choose|i: int| 0 <= i < s.len() && s[i].0 == k].1)
    } else {
        None
    }
}

/// The two entry lists hold the same name-value pairs.
pub open spec fn same_entries(a: HeaderView, b: HeaderView) -> bool {
    &&& contained_in(a, b)
    &&& contained_in(b, a)
}

/// Every entry of `a` is an entry of `b`.
pub open spec fn contained_in(a: HeaderView, b: HeaderView) -> bool {
    forall|i: int| 0 <= i < a.len() ==> b.contains(#[trigger] a[i])
}

/// A mapping from header names to values. Names are kept exactly as given,
/// and setting a name again replaces its value.
#[derive(Debug, Clone)]
pub struct Header {
    entries: Vec<(String, String)>,
}

impl View for Header {
    type V = HeaderView;

    closed spec fn view(&self) -> HeaderView {
        self.entries@.map_values(|p: (String, String)| (p.0@, p.1@))
    }
}

impl Header {
    /// Well-formed: no name occurs twice.
    pub open spec fn wf(&self) -> bool {
        keys_unique(self@)
    }

    /// A header with no entries.
    pub fn new() -> (r: Header)
        ensures
            r@ == Seq::<(Seq<char>, Seq<char>)>::empty(),
            r.wf(),
    {
        let r = Header { entries: Vec::new() };
        assert(r@ =~= Seq::<(Seq<char>, Seq<char>)>::empty());
        r
    }

    /// The number of entries.
    pub fn len(&self) -> (r: usize)
        ensures
            r == self@.len(),
    {
        self.entries.len()
    }

    /// The name and value of the entry at `i`.
    pub fn entry(&self, i: usize) -> (r: (&String, &String))
        requires
            i < self@.len(),
        ensures
            r.0@ == self@[i as int].0,
            r.1@ == self@[i as int].1,
    {
        let e = &self.entries[i];
        (&e.0, &e.1)
    }

    /// The position of the entry named `k`, if any.
    fn position(&self, k: &String) -> (r: Option<usize>)
        ensures
            r matches Some(i) ==> i < self@.len() && self@[i as int].0 == k@,
            r is None ==> !has_key(self@, k@),
    {
        let mut i: usize = 0;
        while i < self.entries.len()
            invariant
                i <= self@.len(),
                self@.len() == self.entries@.len(),
                forall|j: int| 0 <= j < i ==> self@[j].0 != k@,
            decreases self@.len() - i,
        {
            if self.entries[i].0 == *k {
                return Some(i);
            }
            i = i + 1;
        }
        None
    }

    /// Sets `k` to `v`, replacing the value of an entry named `k`.
    pub fn insert(&mut self, k: String, v: String)
        requires
            old(self).wf(),
        ensures
            final(self)@ == inserted(old(self)@, k@, v@),
            final(self).wf(),
    {
        let ghost s = self@;
        match self.position(&k) {
            Some(i) => {
                let ghost kv = k@;
                proof {
                    let c = choose|j: int| 0 <= j < s.len() && s[j].0 == kv;
                    assert(c == i);
                }
                self.entries.set(i, (k, v));
                assert(self@ =~= inserted(s, kv, v@));
            },
            None => {
                let ghost kv = (k@, v@);
                self.entries.push((k, v));
                assert(self@ =~= s.push(kv));
            },
        }
    }

    /// The value stored under `k`, if any.
    pub fn get(&self, k: &String) -> (r: Option<&String>)
        requires
            self.wf(),
        ensures
            r matches Some(v) ==> lookup(self@, k@) == Some(v@),
            r is None ==> lookup(self@, k@) is None,
    {
        match self.position(k) {
            Some(i) => {
                proof {
                    let c = choose|j: int| 0 <= j < self@.len() && self@[j].0 == k@;
                    assert(c == i);
                }
                Some(&self.entries[i].1)
            },
            None => None,
        }
    }
}

impl Header {
    /// Whether every entry of `self` is an entry of `o`.
    fn contained_in(&self, o: &Header) -> (r: bool)
        ensures
            r == contained_in(self@, o@),
    {
        let mut i: usize = 0;
        while i < self.entries.len()
            invariant
                i <= self@.len(),
                self@.len() == self.entries@.len(),
                o@.len() == o.entries@.len(),
                forall|j: int| 0 <= j < i ==> o@.contains(#[trigger] self@[j]),
            decreases self@.len() - i,
        {
            let mut j: usize = 0;
            let mut found = false;
            while j < o.entries.len() && !found
                invariant
                    j <= o@.len(),
                    i < self@.len(),
                    o@.len() == o.entries@.len(),
                    self@.len() == self.entries@.len(),
                    found ==> o@.contains(self@[i as int]),
                    !found ==> forall|l: int| 0 <= l < j ==> o@[l] != self@[i as int],
                decreases o@.len() - j,
            {
                if self.entries[i].0 == o.entries[j].0 && self.entries[i].1 == o.entries[j].1 {
                    found = true;
                    assert(o@[j as int] == self@[i as int]);
                }
                j = j + 1;
            }
            if !found {
                assert(!o@.contains(self@[i as int]));
                return false;
            }
            i = i + 1;
        }
        true
    }
}

impl PartialEq for Header {
    /// Two headers are equal when each entry of one is an entry of the
    /// other, in whatever order.
    fn eq(&self, o: &Header) -> (r: bool)
        ensures
            r == same_entries(self@, o@),
    {
        self.contained_in(o) && o.contained_in(self)
    }
}

impl vstd::std_specs::cmp::PartialEqSpecImpl for Header {
    open spec fn obeys_eq_spec() -> bool {
        true
    }

    open spec fn eq_spec(&self, o: &Header) -> bool {
        same_entries(self@, o@)
    }
}

impl Eq for Header {

}

} // verus!
