use crate::errors::ParseError;
use crate::text::{
    chars_of, join_with, lemma_join_split, lemma_split_concat, lemma_split_nonempty, no_char, split_chars, split_on, string_of, strip_cr,
    strip_cr_chars, views,
};
use crate::types::{
    inserted, method_of, version_of, Header, HeaderView, HttpMethod, HttpVersion,
};
use vstd::prelude::*;
use vstd::utf8::{decode_utf8, encode_utf8, valid_utf8};

verus! {

/// A request as values: the texts of its fields and the bytes of its body.
pub struct RequestView {
    pub url: Seq<char>,
    pub version: HttpVersion,
    pub method: HttpMethod,
    pub header: HeaderView,
    pub contents: Seq<u8>,
}

/// `l` is a blank line: nothing but an optional carriage return.
pub open spec fn is_blank(l: Seq<char>) -> bool {
    strip_cr(l).len() == 0
}

/// The index of the first blank line among `ls[i..]`, or `ls.len()`.
pub open spec fn blank_from(ls: Seq<Seq<char>>, i: int) -> int
    decreases ls.len() - i,
{
    if i < 0 || i >= ls.len() {
        ls.len() as int
    } else if is_blank(ls[i]) {
        i
    } else {
        blank_from(ls, i + 1)
    }
}

/// `c` is a white space character: one with the Unicode White_Space
/// property.
pub open spec fn is_ws(c: char) -> bool {
    let u = c as u32;
    ||| 0x9 <= u <= 0xd
    ||| u == 0x20
    ||| u == 0x85
    ||| u == 0xa0
    ||| u == 0x1680
    ||| 0x2000 <= u <= 0x200a
    ||| u == 0x2028
    ||| u == 0x2029
    ||| u == 0x202f
    ||| u == 0x205f
    ||| u == 0x3000
}

/// Whether `c` is a white space character.
fn is_ws_char(c: char) -> (r: bool)
    ensures
        r == is_ws(c),
{
    let u = c as u32;
    (0x9 <= u && u <= 0xd) || u == 0x20 || u == 0x85 || u == 0xa0 || u == 0x1680 || (0x2000 <= u
        && u <= 0x200a) || u == 0x2028 || u == 0x2029 || u == 0x202f || u == 0x205f || u == 0x3000
}

/// Leading white space removed.
pub open spec fn trim_ws(s: Seq<char>) -> Seq<char>
    decreases s.len(),
{
    if s.len() > 0 && is_ws(s[0]) {
        trim_ws(s.drop_first())
    } else {
        s
    }
}

/// `i` is the position of the first `:` in `l`.
pub open spec fn first_colon(l: Seq<char>, i: int) -> bool {
    &&& 0 <= i < l.len()
    &&& l[i] == ':'
    &&& forall|j: int| 0 <= j < i ==> l[j] != ':'
}

/// The name and value of a header line: the text before its first `:`, and
/// the text after it without leading whitespace. None without a `:`.
pub open spec fn header_line(l: Seq<char>) -> Option<(Seq<char>, Seq<char>)> {
    if exists|i: int| first_colon(l, i) {
        let i = choose|i: int| first_colon(l, i);
        Some((l.subrange(0, i), trim_ws(l.subrange(i + 1, l.len() as int))))
    } else {
        None
    }
}

/// The header that the lines give when inserted in order, or the index of
/// the first of them that is not a header line.
pub open spec fn headers_of(lines: Seq<Seq<char>>) -> Result<HeaderView, int>
    decreases lines.len(),
{
    if lines.len() == 0 {
        Ok(Seq::<(Seq<char>, Seq<char>)>::empty())
    } else {
        match headers_of(lines.drop_last()) {
            Err(j) => Err(j),
            Ok(h) => match header_line(strip_cr(lines.last())) {
                None => Err(lines.len() - 1),
                Some(kv) => Ok(inserted(h, kv.0, kv.1)),
            },
        }
    }
}

/// What parsing the request text `t` gives. Lines end at line feeds, with a
/// carriage return before the line feed dropped. The first line holds the
/// method, url and version, separated by single spaces. Header lines follow
/// up to the first blank line; the body is the text after that blank line,
/// exactly as it stands, and empty without a blank line. Unknown method and
/// version tokens give GET and HTTP/1.1, unless `strict`.
pub open spec fn parse_spec(t: Seq<char>, strict: bool) -> Result<RequestView, ParseError> {
    let ls = split_on(t, '\n');
    let toks = split_on(strip_cr(ls[0]), ' ');
    if toks.len() < 3 {
        Err(ParseError::MalformedRequestLine)
    } else if strict && method_of(toks[0]) is None {
        Err(ParseError::InvalidMethod)
    } else if strict && version_of(toks[2]) is None {
        Err(ParseError::InvalidVersion)
    } else {
        let k = blank_from(ls, 1);
        match headers_of(ls.subrange(1, k)) {
            Err(j) => Err(ParseError::MalformedHeaderLine { line: (j + 1) as usize }),
            Ok(h) => Ok(
                RequestView {
                    url: toks[1],
                    version: match version_of(toks[2]) {
                        Some(v) => v,
                        None => HttpVersion::Http1_1,
                    },
                    method: match method_of(toks[0]) {
                        Some(m) => m,
                        None => HttpMethod::Get,
                    },
                    header: h,
                    contents: if k < ls.len() {
                        encode_utf8(join_with(ls.subrange(k + 1, ls.len() as int), '\n'))
                    } else {
                        Seq::<u8>::empty()
                    },
                },
            ),
        }
    }
}

pub proof fn lemma_blank_from_bounds(ls: Seq<Seq<char>>, i: int)
    requires
        0 <= i,
    ensures
        i <= ls.len() ==> i <= blank_from(ls, i) <= ls.len(),
    decreases ls.len() - i,
{
    if i < ls.len() && !is_blank(ls[i]) {
        lemma_blank_from_bounds(ls, i + 1);
    }
}

proof fn lemma_blank_at(ls: Seq<Seq<char>>, i: int, m: int)
    requires
        0 <= i <= m < ls.len(),
        is_blank(ls[m]),
        forall|j: int| i <= j < m ==> !is_blank(ls[j]),
    ensures
        blank_from(ls, i) == m,
    decreases m - i,
{
    if i < m {
        lemma_blank_at(ls, i + 1, m);
    }
}

proof fn lemma_no_blank(ls: Seq<Seq<char>>, i: int)
    requires
        0 <= i,
        forall|j: int| i <= j < ls.len() ==> !is_blank(ls[j]),
    ensures
        blank_from(ls, i) == ls.len(),
    decreases ls.len() - i,
{
    if i < ls.len() {
        lemma_no_blank(ls, i + 1);
    }
}

/// Parsing a request that has no blank line gives an empty body, and
/// succeeds when its request line is sound and each header line holds a `:`.
pub proof fn lemma_no_blank_line_empty_body(t: Seq<char>, strict: bool)
    requires
        forall|j: int|
            1 <= j < split_on(t, '\n').len() ==> !is_blank(#[trigger] split_on(t, '\n')[j]),
    ensures
        parse_spec(t, strict) matches Ok(r) ==> r.contents == Seq::<u8>::empty(),
        request_line_sound(t, strict) && header_lines_sound(t) ==> parse_spec(t, strict) is Ok,
{
    lemma_no_blank(split_on(t, '\n'), 1);
    if request_line_sound(t, strict) && header_lines_sound(t) {
        lemma_parse_succeeds(t, strict);
    }
}

/// Parsing a request whose header part is followed by a blank line and the
/// text `body` gives exactly the UTF-8 bytes of `body` as its body, and
/// succeeds when its request line is sound and each header line holds a `:`.
pub proof fn lemma_body_after_blank_line(head: Seq<char>, body: Seq<char>, strict: bool)
    requires
        forall|j: int|
            1 <= j < split_on(head, '\n').len() ==> !is_blank(#[trigger] split_on(head, '\n')[j]),
    ensures
        parse_spec(head + seq!['\n', '\n'] + body, strict) matches Ok(r) ==> r.contents
            == encode_utf8(body),
        ({
            let hl = split_on(head, '\n');
            request_line_sound(head + seq!['\n', '\n'] + body, strict) && (forall|j: int|
                1 <= j < hl.len() ==> !no_char(strip_cr(#[trigger] hl[j]), ':'))
        }) ==> parse_spec(head + seq!['\n', '\n'] + body, strict) is Ok,
{
    let t = head + seq!['\n', '\n'] + body;
    let e = Seq::<char>::empty();
    assert(t =~= head.push('\n') + (e.push('\n') + body));
    lemma_split_concat(head, e.push('\n') + body, '\n');
    lemma_split_concat(e, body, '\n');
    lemma_split_nonempty(head, '\n');
    let hl = split_on(head, '\n');
    let bl = split_on(body, '\n');
    let ls = split_on(t, '\n');
    assert(ls =~= hl + (seq![e] + bl));
    assert(is_blank(ls[hl.len() as int]));
    assert forall|j: int| 1 <= j < hl.len() implies !is_blank(ls[j]) by {
        assert(ls[j] == hl[j]);
    }
    lemma_blank_at(ls, 1, hl.len() as int);
    assert(ls.subrange(hl.len() + 1int, ls.len() as int) =~= bl);
    lemma_join_split(body, '\n');
    if request_line_sound(t, strict) && (forall|j: int|
        1 <= j < hl.len() ==> !no_char(strip_cr(#[trigger] hl[j]), ':')) {
        assert forall|j: int| 1 <= j < blank_from(ls, 1) implies !no_char(
            strip_cr(#[trigger] ls[j]),
            ':',
        ) by {
            assert(ls[j] == hl[j]);
        }
        assert(header_lines_sound(t));
        lemma_parse_succeeds(t, strict);
    }
}

/// An unknown method token parses as GET when lenient, and is refused as an
/// invalid method when strict.
pub proof fn lemma_unknown_method(t: Seq<char>)
    requires
        method_of(split_on(strip_cr(split_on(t, '\n')[0]), ' ')[0]) is None,
        split_on(strip_cr(split_on(t, '\n')[0]), ' ').len() >= 3,
    ensures
        parse_spec(t, false) matches Ok(r) ==> r.method == HttpMethod::Get,
        parse_spec(t, true) == Err::<RequestView, ParseError>(ParseError::InvalidMethod),
{
}

/// Strict parsing of a request whose request line is sound refuses a header
/// line without `:` as malformed: the line it reports is that one or an
/// earlier malformed one.
pub proof fn lemma_header_without_colon(t: Seq<char>, j: int)
    requires
        ({
            let ls = split_on(t, '\n');
            let toks = split_on(strip_cr(ls[0]), ' ');
            &&& toks.len() >= 3
            &&& method_of(toks[0]) is Some
            &&& version_of(toks[2]) is Some
            &&& 1 <= j < blank_from(ls, 1)
            &&& j <= usize::MAX
            &&& no_char(strip_cr(ls[j]), ':')
        }),
    ensures
        parse_spec(t, true) matches Err(ParseError::MalformedHeaderLine { line }) && 1 <= line
            <= j,
{
    let ls = split_on(t, '\n');
    let k = blank_from(ls, 1);
    lemma_blank_from_bounds(ls, 1);
    let sub = ls.subrange(1, j + 1);
    assert(sub.drop_last() == ls.subrange(1, j));
    assert(sub.last() == ls[j]);
    assert(!exists|c: int| first_colon(strip_cr(ls[j]), c));
    lemma_headers_err_bound(ls.subrange(1, j));
    if headers_of(ls.subrange(1, j)) is Err {
        let e = headers_of(ls.subrange(1, j))->Err_0;
        assert(ls.subrange(1, j) == ls.subrange(1, (j - 1) + 1));
        lemma_headers_fail_extend(ls, 1, j - 1, k, e);
    } else {
        assert(headers_of(sub) == Err::<HeaderView, int>(j - 1));
        lemma_headers_fail_extend(ls, 1, j, k, j - 1);
    }
}

/// A malformed line among the header lines makes the parse fail.
proof fn lemma_headers_fail_extend(ls: Seq<Seq<char>>, lo: int, i: int, k: int, e: int)
    requires
        1 <= lo <= i < k <= ls.len(),
        headers_of(ls.subrange(lo, i + 1)) == Err::<HeaderView, int>(e),
    ensures
        headers_of(ls.subrange(lo, k)) == Err::<HeaderView, int>(e),
    decreases k - i,
{
    if k > i + 1 {
        lemma_headers_fail_extend(ls, lo, i, k - 1, e);
        assert(ls.subrange(lo, k).drop_last() == ls.subrange(lo, k - 1));
    }
}

/// The failing line's index lies among the lines.
proof fn lemma_headers_err_bound(lines: Seq<Seq<char>>)
    ensures
        headers_of(lines) matches Err(j) ==> 0 <= j < lines.len(),
    decreases lines.len(),
{
    if lines.len() > 0 {
        lemma_headers_err_bound(lines.drop_last());
    }
}

/// A line holding a `:` has a first one.
proof fn lemma_first_colon(l: Seq<char>, i: int)
    requires
        0 <= i < l.len(),
        l[i] == ':',
    ensures
        exists|c: int| first_colon(l, c),
    decreases i,
{
    if exists|j: int| 0 <= j < i && l[j] == ':' {
        let j = choose|j: int| 0 <= j < i && l[j] == ':';
        lemma_first_colon(l, j);
    } else {
        assert(first_colon(l, i));
    }
}

/// Lines that each hold a `:` give a header.
proof fn lemma_headers_succeed(lines: Seq<Seq<char>>)
    requires
        forall|j: int| 0 <= j < lines.len() ==> !no_char(strip_cr(#[trigger] lines[j]), ':'),
    ensures
        headers_of(lines) is Ok,
    decreases lines.len(),
{
    if lines.len() > 0 {
        let init = lines.drop_last();
        assert forall|j: int| 0 <= j < init.len() implies !no_char(strip_cr(#[trigger] init[j]), ':') by {
            assert(init[j] == lines[j]);
        }
        lemma_headers_succeed(init);
        let l = strip_cr(lines.last());
        assert(!no_char(strip_cr(lines[lines.len() - 1]), ':'));
        let i = choose|i: int| 0 <= i < l.len() && l[i] == ':';
        lemma_first_colon(l, i);
    }
}

/// The request line of `t` holds at least three tokens, and, when `strict`,
/// a known method and a known version.
pub open spec fn request_line_sound(t: Seq<char>, strict: bool) -> bool {
    let toks = split_on(strip_cr(split_on(t, '\n')[0]), ' ');
    &&& toks.len() >= 3
    &&& strict ==> method_of(toks[0]) is Some
    &&& strict ==> version_of(toks[2]) is Some
}

/// Each header line of `t`, up to the first blank line, holds a `:`.
pub open spec fn header_lines_sound(t: Seq<char>) -> bool {
    let ls = split_on(t, '\n');
    forall|j: int| 1 <= j < blank_from(ls, 1) ==> !no_char(strip_cr(#[trigger] ls[j]), ':')
}

/// Parsing succeeds on a sound request line followed by header lines that
/// each hold a `:`.
pub proof fn lemma_parse_succeeds(t: Seq<char>, strict: bool)
    requires
        request_line_sound(t, strict),
        header_lines_sound(t),
    ensures
        parse_spec(t, strict) is Ok,
{
    let ls = split_on(t, '\n');
    lemma_split_nonempty(t, '\n');
    let k = blank_from(ls, 1);
    lemma_blank_from_bounds(ls, 1);
    let sub = ls.subrange(1, k);
    assert forall|j: int| 0 <= j < sub.len() implies !no_char(strip_cr(#[trigger] sub[j]), ':') by {
        assert(sub[j] == ls[j + 1]);
    }
    lemma_headers_succeed(sub);
}

/// The text after leading white space.
fn trim_ws_chars(s: &[char]) -> (r: Vec<char>)
    ensures
        r@ == trim_ws(s@),
{
    let mut j: usize = 0;
    assert(s@.subrange(0, s@.len() as int) == s@);
    while j < s.len() && is_ws_char(s[j])
        invariant
            j <= s@.len(),
            trim_ws(s@.subrange(j as int, s@.len() as int)) == trim_ws(s@),
        decreases s@.len() - j,
    {
        assert(s@.subrange(j as int, s@.len() as int).drop_first() == s@.subrange(
            j + 1,
            s@.len() as int,
        ));
        j = j + 1;
    }
    let mut r: Vec<char> = Vec::new();
    let mut i: usize = j;
    while i < s.len()
        invariant
            j <= i <= s@.len(),
            r@ == s@.subrange(j as int, i as int),
        decreases s@.len() - i,
    {
        r.push(s[i]);
        assert(s@.subrange(j as int, i + 1) == s@.subrange(j as int, i as int).push(s@[i as int]));
        i = i + 1;
    }
    assert(trim_ws(s@.subrange(j as int, s@.len() as int)) == s@.subrange(j as int, s@.len() as int));
    r
}

/// The name and value of a header line.
fn split_header(l: &Vec<char>) -> (r: Option<(String, String)>)
    ensures
        r matches Some(kv) ==> header_line(l@) == Some((kv.0@, kv.1@)),
        r is None ==> header_line(l@) is None,
{
    let mut i: usize = 0;
    while i < l.len() && l[i] != ':'
        invariant
            i <= l@.len(),
            forall|j: int| 0 <= j < i ==> l@[j] != ':',
        decreases l@.len() - i,
    {
        i = i + 1;
    }
    if i == l.len() {
        assert(!exists|c: int| first_colon(l@, c));
        return None;
    }
    proof {
        assert(first_colon(l@, i as int));
        let c = choose|c: int| first_colon(l@, c);
        assert(c == i);
    }
    let key = string_of(&l.as_slice()[0..i]);
    let rest = trim_ws_chars(&l.as_slice()[i + 1..l.len()]);
    let value = string_of(rest.as_slice());
    Some((key, value))
}

/// The lines `ls[start..]` joined with line feeds.
fn join_lines_from(ls: &Vec<Vec<char>>, start: usize) -> (r: Vec<char>)
    requires
        start <= ls@.len(),
    ensures
        r@ == join_with(views(ls@).subrange(start as int, ls@.len() as int), '\n'),
{
    let ghost vs = views(ls@);
    let mut r: Vec<char> = Vec::new();
    let mut j: usize = start;
    assert(vs.subrange(start as int, start as int) =~= Seq::<Seq<char>>::empty());
    while j < ls.len()
        invariant
            start <= j <= ls@.len(),
            vs == views(ls@),
            r@ == join_with(vs.subrange(start as int, j as int), '\n'),
        decreases ls@.len() - j,
    {
        let ghost pre = r@;
        let ghost part = vs.subrange(start as int, j + 1);
        assert(part.drop_last() == vs.subrange(start as int, j as int));
        if j > start {
            r.push('\n');
        }
        let line = &ls[j];
        let mut i: usize = 0;
        while i < line.len()
            invariant
                i <= line@.len(),
                j > start ==> r@ == pre.push('\n') + line@.subrange(0, i as int),
                j == start ==> r@ == pre + line@.subrange(0, i as int),
            decreases line@.len() - i,
        {
            r.push(line[i]);
            assert(line@.subrange(0, i + 1) == line@.subrange(0, i as int).push(line@[i as int]));
            i = i + 1;
        }
        assert(line@.subrange(0, line@.len() as int) == line@);
        if j == start {
            assert(pre == Seq::<char>::empty());
            assert(r@ == Seq::<char>::empty() + line@);
            assert(part =~= seq![line@]);
        }
        j = j + 1;
    }
    r
}

/// A parsed HTTP request.
#[derive(Debug, Clone, PartialEq, Eq)]
pub struct HttpRequest {
    pub url: String,
    pub version: HttpVersion,
    pub method: HttpMethod,
    pub header: Header,
    pub contents: Vec<u8>,
}

impl View for HttpRequest {
    type V = RequestView;

    open spec fn view(&self) -> RequestView {
        RequestView {
            url: self.url@,
            version: self.version,
            method: self.method,
            header: self.header@,
            contents: self.contents@,
        }
    }
}

/// The error that std reports for bytes that are not UTF-8.
#[verifier::external_type_specification]
#[verifier::external_body]
pub struct ExUtf8Error(std::str::Utf8Error);

/// Relies on std::str::from_utf8: it accepts exactly the valid UTF-8 byte
/// sequences and yields the text they encode.
#[verifier::external_body]
fn utf8_text(b: &[u8]) -> (r: Result<String, std::str::Utf8Error>)
    ensures
        r is Ok <==> valid_utf8(b@),
        r matches Ok(s) ==> s@ == decode_utf8(b@),
{
    std::str::from_utf8(b).map(|s| s.to_string())
}

impl HttpRequest {
    /// An empty GET request for HTTP/1.1.
    pub fn new() -> (r: HttpRequest)
        ensures
            r@.url == Seq::<char>::empty(),
            r@.version == HttpVersion::Http1_1,
            r@.method == HttpMethod::Get,
            r@.header == Seq::<(Seq<char>, Seq<char>)>::empty(),
            r@.contents == Seq::<u8>::empty(),
            r.header.wf(),
    {
        HttpRequest {
            url: String::new(),
            version: HttpVersion::Http1_1,
            method: HttpMethod::Get,
            header: Header::new(),
            contents: Vec::new(),
        }
    }

    /// Parses request text; unknown method and version tokens give GET and
    /// HTTP/1.1 when `strict` is false, and an error when it is true.
    pub fn parse(data: &str, strict: bool) -> (r: Result<HttpRequest, ParseError>)
        ensures
            r matches Ok(req) ==> parse_spec(data@, strict) == Ok::<RequestView, ParseError>(
                req@,
            ) && req.header.wf(),
            r matches Err(e) ==> parse_spec(data@, strict) == Err::<RequestView, ParseError>(e),
    {
        let chars = chars_of(data);
        let lines = split_chars(&chars, '\n');
        let ghost ls = split_on(data@, '\n');
        proof {
            lemma_split_nonempty(data@, '\n');
        }
        let first = strip_cr_chars(&lines[0]);
        let toks = split_chars(&first, ' ');
        if toks.len() < 3 {
            return Err(ParseError::MalformedRequestLine);
        }
        let method = match HttpMethod::from_chars(toks[0].as_slice()) {
            Ok(m) => m,
            Err(_) => {
                if strict {
                    return Err(ParseError::InvalidMethod);
                }
                HttpMethod::Get
            },
        };
        let version = match HttpVersion::from_chars(toks[2].as_slice()) {
            Ok(v) => v,
            Err(_) => {
                if strict {
                    return Err(ParseError::InvalidVersion);
                }
                HttpVersion::Http1_1
            },
        };
        let url = string_of(toks[1].as_slice());
        let mut header = Header::new();
        let mut i: usize = 1;
        let mut at_blank = false;
        assert(ls.subrange(1, 1) =~= Seq::<Seq<char>>::empty());
        while i < lines.len() && !at_blank
            invariant
                ls == views(lines@),
                ls == split_on(data@, '\n'),
                split_on(strip_cr(ls[0]), ' ').len() >= 3,
                !(strict && method_of(split_on(strip_cr(ls[0]), ' ')[0]) is None),
                !(strict && version_of(split_on(strip_cr(ls[0]), ' ')[2]) is None),
                1 <= i <= lines@.len(),
                header.wf(),
                at_blank ==> i < lines@.len() && is_blank(ls[i as int]),
                blank_from(ls, 1) == blank_from(ls, i as int),
                headers_of(ls.subrange(1, i as int)) == Ok::<HeaderView, int>(header@),
            decreases lines@.len() - i, if at_blank { 0int } else { 1int },
        {
            let line = strip_cr_chars(&lines[i]);
            if line.len() == 0 {
                at_blank = true;
            } else {
                match split_header(&line) {
                    None => {
                        assert(ls.subrange(1, i + 1).drop_last() == ls.subrange(1, i as int));
                        proof {
                            let sub = ls.subrange(1, i + 1);
                            assert(sub.last() == ls[i as int]);
                            assert(header_line(strip_cr(sub.last())) is None);
                            assert(headers_of(sub) == Err::<HeaderView, int>(i - 1));
                            lemma_blank_from_bounds(ls, i + 1);
                            lemma_headers_fail_extend(ls, 1, i as int, blank_from(ls, 1), i - 1);
                        }
                        return Err(ParseError::MalformedHeaderLine { line: i });
                    },
                    Some(kv) => {
                        let (k, v) = kv;
                        header.insert(k, v);
                        assert(ls.subrange(1, i + 1).drop_last() == ls.subrange(1, i as int));
                        i = i + 1;
                    },
                }
            }
        }
        let mut contents: Vec<u8> = Vec::new();
        if i < lines.len() {
            let body_chars = join_lines_from(&lines, i + 1);
            let body = string_of(body_chars.as_slice());
            contents = vstd::slice::slice_to_vec(body.as_str().as_bytes());
        }
        Ok(HttpRequest { url, version, method, header, contents })
    }

    /// Parses request text, taking unknown method and version tokens as GET
    /// and HTTP/1.1.
    pub fn from_request(data: String) -> (r: Result<HttpRequest, ParseError>)
        ensures
            r matches Ok(req) ==> parse_spec(data@, false) == Ok::<RequestView, ParseError>(req@)
                && req.header.wf(),
            r matches Err(e) ==> parse_spec(data@, false) == Err::<RequestView, ParseError>(e),
    {
        HttpRequest::parse(data.as_str(), false)
    }

    /// Parses request text, refusing unknown method and version tokens.
    pub fn from_request_strict(data: String) -> (r: Result<HttpRequest, ParseError>)
        ensures
            r matches Ok(req) ==> parse_spec(data@, true) == Ok::<RequestView, ParseError>(req@)
                && req.header.wf(),
            r matches Err(e) ==> parse_spec(data@, true) == Err::<RequestView, ParseError>(e),
    {
        HttpRequest::parse(data.as_str(), true)
    }

    /// The body as text, or the error of its bytes when they are not UTF-8.
    pub fn body(&self) -> (r: Result<String, std::str::Utf8Error>)
        ensures
            r is Ok <==> valid_utf8(self.contents@),
            r matches Ok(s) ==> s@ == decode_utf8(self.contents@),
    {
        utf8_text(self.contents.as_slice())
    }
}

} // verus!
