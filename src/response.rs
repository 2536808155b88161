use crate::errors::StatusCodeError;
use crate::text::{
    lemma_split_concat, lemma_split_no_sep, lemma_split_nonempty, lemma_split_prefix, no_char,
    push_char, split_on, strip_cr,
};
use crate::types::{
    keys_unique, lemma_version_token, version_of, version_token, Header, HeaderView, HttpVersion,
};
use vstd::prelude::*;
use vstd::string::StringExecFns;

verus! {

/// A response as values.
pub struct ResponseView {
    pub version: HttpVersion,
    pub status_code: u16,
    pub status_reason: Seq<char>,
    pub header: HeaderView,
    pub body: Seq<char>,
}

/// The decimal digit character of `d`.
pub open spec fn digit_char(d: nat) -> char {
    if d == 0 {
        '0'
    } else if d == 1 {
        '1'
    } else if d == 2 {
        '2'
    } else if d == 3 {
        '3'
    } else if d == 4 {
        '4'
    } else if d == 5 {
        '5'
    } else if d == 6 {
        '6'
    } else if d == 7 {
        '7'
    } else if d == 8 {
        '8'
    } else {
        '9'
    }
}

/// The decimal digits of `n`, without leading zeros.
pub open spec fn decimal(n: nat) -> Seq<char>
    decreases n,
{
    if n < 10 {
        seq![digit_char(n)]
    } else {
        decimal(n / 10).push(digit_char(n % 10))
    }
}

/// The value of a decimal digit character.
pub open spec fn digit_value(c: char) -> nat {
    if c == '1' {
        1
    } else if c == '2' {
        2
    } else if c == '3' {
        3
    } else if c == '4' {
        4
    } else if c == '5' {
        5
    } else if c == '6' {
        6
    } else if c == '7' {
        7
    } else if c == '8' {
        8
    } else if c == '9' {
        9
    } else {
        0
    }
}

/// The number that a sequence of decimal digits spells.
pub open spec fn digits_value(s: Seq<char>) -> nat
    decreases s.len(),
{
    if s.len() == 0 {
        0
    } else {
        digits_value(s.drop_last()) * 10 + digit_value(s.last())
    }
}

/// The decimal digits of `n` spell `n`, and hold no space or line feed.
pub proof fn lemma_decimal(n: nat)
    ensures
        digits_value(decimal(n)) == n,
        no_char(decimal(n), ' '),
        no_char(decimal(n), '\n'),
    decreases n,
{
    if n >= 10 {
        lemma_decimal(n / 10);
        let d = decimal(n);
        assert(d.drop_last() == decimal(n / 10));
        assert(d.last() == digit_char(n % 10));
        assert(digit_value(digit_char(n % 10)) == n % 10);
        assert(digits_value(d) == digits_value(d.drop_last()) * 10 + digit_value(d.last()));
        assert(n == (n / 10) * 10 + n % 10);
    } else {
        let d = decimal(n);
        assert(d.drop_last() =~= Seq::<char>::empty());
        assert(digit_value(digit_char(n)) == n);
        assert(digits_value(d) == digits_value(d.drop_last()) * 10 + digit_value(d.last()));
    }
}

/// The header line of one entry, without its line feed.
pub open spec fn entry_line(e: (Seq<char>, Seq<char>)) -> Seq<char> {
    e.0 + seq![':', ' '] + e.1
}

/// One line per entry, in order, each ended by a line feed.
pub open spec fn header_block(h: HeaderView) -> Seq<char>
    decreases h.len(),
{
    if h.len() == 0 {
        Seq::<char>::empty()
    } else {
        header_block(h.drop_last()) + entry_line(h.last()).push('\n')
    }
}

/// The status line without its line feed: version, code and reason.
pub open spec fn status_line(r: ResponseView) -> Seq<char> {
    version_token(r.version).push(' ') + decimal(r.status_code as nat).push(' ') + r.status_reason
}

/// The wire text of a response: the status line, the header lines, a blank
/// line, then the body.
pub open spec fn response_text(r: ResponseView) -> Seq<char> {
    status_line(r).push('\n') + header_block(r.header).push('\n') + r.body
}

/// A serialized response read back: the first line of its text, split at
/// spaces, starts with the token of the response's version and the decimal
/// digits of its status code, which spell that code.
pub proof fn lemma_status_line_round_trip(r: Response)
    ensures
        ({
            let ls = split_on(response_text(r@), '\n');
            let toks = split_on(strip_cr(ls[0]), ' ');
            &&& toks.len() >= 3
            &&& version_of(toks[0]) == Some(r@.version)
            &&& toks[1] == decimal(r@.status_code as nat)
            &&& digits_value(toks[1]) == r@.status_code
        }),
{
    let v = r@;
    let vt = version_token(v.version);
    let dec = decimal(v.status_code as nat);
    lemma_version_token(v.version);
    lemma_decimal(v.status_code as nat);
    let p = vt.push(' ') + dec.push(' ');
    let rest = v.status_reason.push('\n') + header_block(v.header).push('\n') + v.body;
    assert(response_text(v) =~= p + rest);
    assert(no_char(p, '\n'));
    lemma_split_prefix(p, rest, '\n');
    lemma_split_nonempty(rest, '\n');
    let q = split_on(rest, '\n')[0];
    let ls = split_on(response_text(v), '\n');
    assert(ls[0] == p + q);
    let q2 = strip_cr(q);
    assert(strip_cr(p + q) =~= p + q2);
    assert(p + q2 =~= vt.push(' ') + (dec.push(' ') + q2));
    lemma_split_concat(vt, dec.push(' ') + q2, ' ');
    lemma_split_concat(dec, q2, ' ');
    lemma_split_no_sep(vt, ' ');
    lemma_split_no_sep(dec, ' ');
    lemma_split_nonempty(q2, ' ');
    let toks = split_on(strip_cr(ls[0]), ' ');
    assert(toks == seq![vt] + (seq![dec] + split_on(q2, ' ')));
    assert(toks[0] == vt);
    assert(toks[1] == dec);
}

/// The lines of a header block, without their line feeds.
pub open spec fn entry_lines(h: HeaderView) -> Seq<Seq<char>> {
    h.map_values(|e: (Seq<char>, Seq<char>)| entry_line(e))
}

/// No name or value holds a line feed.
pub open spec fn single_line_entries(h: HeaderView) -> bool {
    forall|i: int| 0 <= i < h.len() ==> no_char(h[i].0, '\n') && no_char(h[i].1, '\n')
}

proof fn lemma_split_header_block(h: HeaderView, tail: Seq<char>)
    requires
        single_line_entries(h),
    ensures
        split_on(header_block(h) + tail, '\n') == entry_lines(h) + split_on(tail, '\n'),
    decreases h.len(),
{
    if h.len() == 0 {
        assert(header_block(h) + tail =~= tail);
        assert(entry_lines(h) + split_on(tail, '\n') =~= split_on(tail, '\n'));
    } else {
        let h2 = h.drop_last();
        let e = h.last();
        let l = entry_line(e);
        assert(no_char(e.0, '\n') && no_char(e.1, '\n'));
        assert(no_char(l, '\n')) by {
            assert forall|i: int| 0 <= i < l.len() implies l[i] != '\n' by {
                if i < e.0.len() {
                    assert(l[i] == e.0[i]);
                } else if i >= e.0.len() + 2 {
                    assert(l[i] == e.1[i - e.0.len() - 2]);
                }
            }
        }
        assert(header_block(h) + tail =~= header_block(h2) + (l.push('\n') + tail));
        lemma_split_header_block(h2, l.push('\n') + tail);
        lemma_split_concat(l, tail, '\n');
        lemma_split_no_sep(l, '\n');
        assert(entry_lines(h) =~= entry_lines(h2).push(l));
        assert(entry_lines(h2) + (seq![l] + split_on(tail, '\n')) =~= entry_lines(h2).push(l)
            + split_on(tail, '\n'));
    }
}

/// Serializing a response whose header has unique names gives, after the
/// status line, exactly one line `{name}: {value}` per entry, in order, and
/// then a blank line; this holds where no reason, name or value spans lines.
pub proof fn lemma_header_lines(r: Response)
    requires
        keys_unique(r@.header),
        single_line_entries(r@.header),
        no_char(r@.status_reason, '\n'),
    ensures
        ({
            let h = r@.header;
            let ls = split_on(response_text(r@), '\n');
            &&& ls.len() >= h.len() + 2
            &&& forall|i: int| 0 <= i < h.len() ==> ls[i + 1] == entry_line(h[i])
            &&& ls[h.len() + 1int] == Seq::<char>::empty()
        }),
{
    let v = r@;
    let h = v.header;
    let sl = status_line(v);
    lemma_version_token(v.version);
    lemma_decimal(v.status_code as nat);
    assert(no_char(sl, '\n')) by {
        let vt = version_token(v.version);
        let dec = decimal(v.status_code as nat);
        assert forall|i: int| 0 <= i < sl.len() implies sl[i] != '\n' by {
            if i < vt.len() {
                assert(sl[i] == vt[i]);
            } else if i > vt.len() && i < vt.len() + 1 + dec.len() {
                assert(sl[i] == dec[i - vt.len() - 1]);
            } else if i > vt.len() + dec.len() + 1 {
                assert(sl[i] == v.status_reason[i - vt.len() - dec.len() - 2]);
            }
        }
    }
    let tail = seq!['\n'] + v.body;
    assert(response_text(v) =~= sl.push('\n') + (header_block(h) + tail));
    lemma_split_concat(sl, header_block(h) + tail, '\n');
    lemma_split_no_sep(sl, '\n');
    lemma_split_header_block(h, tail);
    assert(tail =~= Seq::<char>::empty().push('\n') + v.body);
    lemma_split_concat(Seq::<char>::empty(), v.body, '\n');
    lemma_split_nonempty(v.body, '\n');
    let ls = split_on(response_text(v), '\n');
    assert(ls =~= seq![sl] + (entry_lines(h) + (seq![Seq::<char>::empty()] + split_on(
        v.body,
        '\n',
    ))));
}

/// The registered reason phrase of a status code, if it has one.
pub uninterp spec fn canonical_reason_of(code: u16) -> Option<Seq<char>>;

/// The text of an optional `String`.
pub open spec fn opt_view(p: Option<String>) -> Option<Seq<char>> {
    match p {
        Some(s) => Some(s@),
        None => None,
    }
}

/// The reason a status line carries for a registered phrase: the phrase, or
/// nothing.
pub open spec fn reason_text(p: Option<Seq<char>>) -> Seq<char> {
    match p {
        Some(s) => s,
        None => Seq::<char>::empty(),
    }
}

/// The error that the `http` crate reports for a code out of range.
#[verifier::external_type_specification]
#[verifier::external_body]
pub struct ExInvalidStatusCode(http::status::InvalidStatusCode);

/// Relies on http::StatusCode::from_u16, which accepts exactly the codes 100
/// to 999, and on StatusCode::canonical_reason, the registered reason phrase
/// of the accepted code, if any.
#[verifier::external_body]
fn registered_status(code: u16) -> (r: Result<Option<String>, http::status::InvalidStatusCode>)
    ensures
        r is Ok <==> 100 <= code <= 999,
        r matches Ok(p) ==> opt_view(p) == canonical_reason_of(code),
{
    match http::StatusCode::from_u16(code) {
        Ok(s) => Ok(s.canonical_reason().map(|p| p.to_string())),
        Err(e) => Err(e),
    }
}

/// An HTTP response.
#[derive(Debug, Clone, PartialEq, Eq)]
pub struct Response {
    version: HttpVersion,
    status_code: u16,
    status_reason: String,
    header: Header,
    body: String,
}

impl View for Response {
    type V = ResponseView;

    closed spec fn view(&self) -> ResponseView {
        ResponseView {
            version: self.version,
            status_code: self.status_code,
            status_reason: self.status_reason@,
            header: self.header@,
            body: self.body@,
        }
    }
}

/// The decimal digit character of `d`.
fn digit(d: u16) -> (c: char)
    requires
        d < 10,
    ensures
        c == digit_char(d as nat),
{
    if d == 0 {
        '0'
    } else if d == 1 {
        '1'
    } else if d == 2 {
        '2'
    } else if d == 3 {
        '3'
    } else if d == 4 {
        '4'
    } else if d == 5 {
        '5'
    } else if d == 6 {
        '6'
    } else if d == 7 {
        '7'
    } else if d == 8 {
        '8'
    } else {
        '9'
    }
}

/// Appends the decimal digits of `n`.
fn push_decimal(s: &mut String, n: u16)
    ensures
        final(s)@ == old(s)@ + decimal(n as nat),
    decreases n,
{
    if n >= 10 {
        push_decimal(s, n / 10);
    }
    push_char(s, digit(n % 10));
    proof {
        if n < 10 {
            assert(decimal(n as nat) == seq![digit_char(n as nat)]);
        }
    }
    assert(final(s)@ =~= old(s)@ + decimal(n as nat));
}

/// Appends a text held in a `String`.
fn push_string(s: &mut String, t: &String)
    ensures
        final(s)@ == old(s)@ + t@,
{
    s.append(t.as_str());
}

impl Response {
    /// A response made of the given parts, as they are.
    pub fn new(
        version: HttpVersion,
        status_code: u16,
        status_reason: String,
        header: Header,
        body: String,
    ) -> (r: Response)
        ensures
            r@.version == version,
            r@.status_code == status_code,
            r@.status_reason == status_reason@,
            r@.header == header@,
            r@.body == body@,
    {
        Response { version, status_code, status_reason, header, body }
    }

    /// The entries of the header.
    pub fn header(&self) -> (r: &Header)
        ensures
            r@ == self@.header,
    {
        &self.header
    }

    /// The wire text of the response: `{version} {code} {reason}`, one line
    /// `{name}: {value}` per header entry, a blank line, and the body.
    pub fn to_string(&self) -> (r: String)
        ensures
            r@ == response_text(self@),
    {
        let mut s = String::new();
        s.append(self.version.as_str());
        push_char(&mut s, ' ');
        push_decimal(&mut s, self.status_code);
        push_char(&mut s, ' ');
        push_string(&mut s, &self.status_reason);
        push_char(&mut s, '\n');
        assert(s@ =~= status_line(self@).push('\n'));
        let ghost head = s@;
        let mut i: usize = 0;
        while i < self.header.len()
            invariant
                i <= self@.header.len(),
                s@ == head + header_block(self@.header.subrange(0, i as int)),
            decreases self@.header.len() - i,
        {
            let (k, v) = self.header.entry(i);
            let ghost pre = s@;
            push_string(&mut s, k);
            push_char(&mut s, ':');
            push_char(&mut s, ' ');
            push_string(&mut s, v);
            push_char(&mut s, '\n');
            let ghost sub = self@.header.subrange(0, i + 1);
            assert(sub.drop_last() == self@.header.subrange(0, i as int));
            assert(sub.last() == self@.header[i as int]);
            assert(s@ =~= pre + entry_line(sub.last()).push('\n'));
            i = i + 1;
        }
        assert(self@.header.subrange(0, self@.header.len() as int) == self@.header);
        push_char(&mut s, '\n');
        push_string(&mut s, &self.body);
        assert(s@ =~= response_text(self@));
        s
    }
}

/// Builds a response one part at a time.
#[derive(Debug, Clone, PartialEq, Eq)]
pub struct ResponseBuilder {
    response: Response,
}

impl View for ResponseBuilder {
    type V = ResponseView;

    closed spec fn view(&self) -> ResponseView {
        self.response@
    }
}

impl ResponseBuilder {
    /// A builder for an HTTP/1.1 response with code 0, no reason, no header
    /// entries and an empty body.
    pub fn new() -> (r: ResponseBuilder)
        ensures
            r@.version == HttpVersion::Http1_1,
            r@.status_code == 0,
            r@.status_reason == Seq::<char>::empty(),
            r@.header == Seq::<(Seq<char>, Seq<char>)>::empty(),
            r@.body == Seq::<char>::empty(),
    {
        ResponseBuilder {
            response: Response {
                version: HttpVersion::Http1_1,
                status_code: 0,
                status_reason: String::new(),
                header: Header::new(),
                body: String::new(),
            },
        }
    }

    /// Sets the protocol version.
    pub fn version(self, version: HttpVersion) -> (r: ResponseBuilder)
        ensures
            r@ == (ResponseView { version, ..self@ }),
    {
        let mut b = self;
        b.response.version = version;
        b
    }

    /// Sets the status code and the reason given for it: the registered
    /// phrase `phrase`, or an empty reason without one.
    pub fn with_status_phrase(self, code: u16, phrase: Option<String>) -> (r: ResponseBuilder)
        ensures
            r@ == (ResponseView {
                status_code: code,
                status_reason: reason_text(opt_view(phrase)),
                ..self@
            }),
    {
        let mut b = self;
        b.response.status_code = code;
        b.response.status_reason = match phrase {
            Some(p) => p,
            None => String::new(),
        };
        b
    }

    /// Sets the status code, with its registered reason phrase (or an empty
    /// reason where none is registered). Codes outside 100 to 999 are refused.
    pub fn status(self, code: u16) -> (r: Result<ResponseBuilder, StatusCodeError>)
        ensures
            r is Ok <==> 100 <= code <= 999,
            r matches Ok(b) ==> b@ == (ResponseView {
                status_code: code,
                status_reason: reason_text(canonical_reason_of(code)),
                ..self@
            }),
            r matches Err(e) ==> e.code == code,
    {
        match registered_status(code) {
            Ok(phrase) => Ok(self.with_status_phrase(code, phrase)),
            Err(_) => Err(StatusCodeError { code }),
        }
    }

    /// Replaces the whole header.
    pub fn header(self, header: Header) -> (r: ResponseBuilder)
        ensures
            r@ == (ResponseView { header: header@, ..self@ }),
    {
        let mut b = self;
        b.response.header = header;
        b
    }

    /// Replaces the body.
    pub fn body(self, body: String) -> (r: ResponseBuilder)
        ensures
            r@ == (ResponseView { body: body@, ..self@ }),
    {
        let mut b = self;
        b.response.body = body;
        b
    }

    /// The response built so far.
    pub fn build(self) -> (r: Response)
        ensures
            r@ == self@,
    {
        self.response
    }
}

} // verus!
