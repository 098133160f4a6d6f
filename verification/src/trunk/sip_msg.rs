//! SIP messages as a trunk host exchanges them: parsing, building and header access.

use vstd::prelude::*;
use vstd::slice::slice_subrange;
use vstd::utf8;

use crate::text;

verus! {

/// A header field: its name and its value.
pub type Field = (Seq<char>, Seq<char>);

/// What a SIP message says.
#[verifier::ext_equal]
pub struct SipView {
    /// Request method, empty for a response.
    pub method: Seq<char>,
    /// Request-URI, empty for a response.
    pub request_uri: Seq<char>,
    /// Status code, zero for a request.
    pub status_code: u16,
    /// Reason phrase, empty for a request.
    pub reason: Seq<char>,
    /// Header fields in order.
    pub headers: Seq<Field>,
    /// Message body.
    pub body: Seq<u8>,
}

/// A SIP message, request or response.
#[derive(Debug, Clone)]
pub struct SipMessage {
    /// Request method (INVITE, BYE, ...). Empty for responses.
    pub method: String,
    /// Request-URI. Empty for responses.
    pub request_uri: String,
    /// Status code. Zero for requests.
    pub status_code: u16,
    /// Reason phrase. Empty for requests.
    pub reason: String,
    /// Header fields in order.
    pub headers: Vec<(String, String)>,
    /// Message body (SDP and the like).
    pub body: Vec<u8>,
}

/// Why bytes are not a SIP message.
#[derive(Debug, Clone, Copy, PartialEq, Eq, Structural)]
pub enum ParseError {
    Empty,
    InvalidUtf8,
    MalformedStartLine,
    InvalidStatusCode,
}

// ── Header fields ──

/// The text of a list of header fields.
pub open spec fn fields_view(fields: Seq<(String, String)>) -> Seq<Field> {
    Seq::new(fields.len(), |i: int| (fields[i].0@, fields[i].1@))
}

/// Whether some field has this name, in any case.
pub open spec fn has_field(fields: Seq<Field>, name: Seq<char>) -> bool {
    exists|i: int| 0 <= i < fields.len() && text::eq_ignore_case(#[trigger] fields[i].0, name)
}

/// The value of the first field of this name, in any case; empty if there is none.
pub open spec fn field_value(fields: Seq<Field>, name: Seq<char>) -> Seq<char>
    decreases fields.len(),
{
    if fields.len() == 0 {
        Seq::empty()
    } else if text::eq_ignore_case(fields[0].0, name) {
        fields[0].1
    } else {
        field_value(fields.drop_first(), name)
    }
}

/// The values of all fields of this name, in any case, in order.
pub open spec fn field_values(fields: Seq<Field>, name: Seq<char>) -> Seq<Seq<char>>
    decreases fields.len(),
{
    if fields.len() == 0 {
        Seq::empty()
    } else if text::eq_ignore_case(fields.last().0, name) {
        field_values(fields.drop_last(), name).push(fields.last().1)
    } else {
        field_values(fields.drop_last(), name)
    }
}

/// The fields with the first one of this name given `value` and the later ones of
/// this name dropped.
pub open spec fn replace_field(fields: Seq<Field>, name: Seq<char>, value: Seq<char>) -> Seq<Field>
    decreases fields.len(),
{
    if fields.len() == 0 {
        Seq::empty()
    } else {
        let earlier = replace_field(fields.drop_last(), name, value);
        let last = fields.last();
        if !text::eq_ignore_case(last.0, name) {
            earlier.push(last)
        } else if has_field(fields.drop_last(), name) {
            earlier
        } else {
            earlier.push((last.0, value))
        }
    }
}

/// The fields with `name` set to `value`: in place of the fields of that name, or at
/// the end if there is none.
pub open spec fn set_field(fields: Seq<Field>, name: Seq<char>, value: Seq<char>) -> Seq<Field> {
    if has_field(fields, name) {
        replace_field(fields, name, value)
    } else {
        fields.push((name, value))
    }
}

/// The fields without those of this name.
pub open spec fn drop_field(fields: Seq<Field>, name: Seq<char>) -> Seq<Field>
    decreases fields.len(),
{
    if fields.len() == 0 {
        Seq::empty()
    } else if text::eq_ignore_case(fields.last().0, name) {
        drop_field(fields.drop_last(), name)
    } else {
        drop_field(fields.drop_last(), name).push(fields.last())
    }
}

// ── Parameters and URIs inside a header value ──

/// The characters that end a parameter's value.
pub open spec fn param_ends() -> Seq<char> {
    seq![',', ' ', '\t', '>']
}

/// The value that a piece of a header gives to a parameter, if it is that parameter:
/// what follows `name=` up to a comma, a blank or a closing bracket.
pub open spec fn piece_param(piece: Seq<char>, param: Seq<char>) -> Option<Seq<char>> {
    let text = text::trim(piece);
    let n = (param.len() + 1) as int;
    if text.len() >= n && text::eq_ignore_case(text::before(text, n), param.push('=')) {
        let value = text::after(text, n);
        Some(
            match text::find_any(value, param_ends()) {
                Some(end) => text::before(value, end),
                None => value,
            },
        )
    } else {
        None
    }
}

/// The value of the first of the pieces that gives this parameter; empty if none does.
pub open spec fn pieces_param(pieces: Seq<Seq<char>>, param: Seq<char>) -> Seq<char>
    decreases pieces.len(),
{
    if pieces.len() == 0 {
        Seq::empty()
    } else {
        match piece_param(pieces[0], param) {
            Some(value) => value,
            None => pieces_param(pieces.drop_first(), param),
        }
    }
}

/// The value of a parameter of a header value, whose pieces stand between semicolons.
pub open spec fn param_of(value: Seq<char>, param: Seq<char>) -> Seq<char> {
    pieces_param(text::split(value, seq![';']), param)
}

/// Where the part after the scheme of the first SIP URI in `s` begins.
pub open spec fn uri_start(s: Seq<char>) -> Option<int> {
    match text::find(s, "sip:"@) {
        Some(i) => Some(i + 4),
        None => match text::find(s, "sips:"@) {
            Some(i) => Some(i + 5),
            None => None,
        },
    }
}

/// The user part of the first SIP URI in `s`; empty if there is no URI or no user.
pub open spec fn uri_user(s: Seq<char>) -> Seq<char> {
    match uri_start(s) {
        Some(i) => {
            let rest = text::after(s, i);
            match text::find_char(rest, '@') {
                Some(at) => text::before(rest, at),
                None => Seq::empty(),
            }
        },
        None => Seq::empty(),
    }
}

/// The sequence number and the method of a CSeq value; zero and empty if malformed.
pub open spec fn cseq_of(value: Seq<char>) -> (nat, Seq<char>) {
    let text = text::trim(value);
    match text::find_char(text, ' ') {
        Some(space) => match text::parse_decimal(text::before(text, space), u32::MAX as nat) {
            Some(n) => (n, text::after(text, space + 1)),
            None => (0, Seq::empty()),
        },
        None => (0, Seq::empty()),
    }
}

// ── Wire form ──

pub open spec fn crlf() -> Seq<char> {
    "\r\n"@
}

/// The bytes that end the head of a message.
pub open spec fn blank_line() -> Seq<u8> {
    seq![13u8, 10u8, 13u8, 10u8]
}

/// The version that a start line names.
pub open spec fn sip_version() -> Seq<char> {
    "SIP/2.0"@
}

/// The name of the header that gives the length of the body.
pub open spec fn content_length() -> Seq<char> {
    "Content-Length"@
}

/// The first line of a message.
pub open spec fn start_line(m: SipView) -> Seq<char> {
    if m.status_code > 0 {
        "SIP/2.0 "@ + text::decimal(m.status_code as nat) + " "@ + m.reason
    } else {
        m.method + " "@ + m.request_uri + " "@ + sip_version()
    }
}

/// The line of a header field.
pub open spec fn field_line(field: Field) -> Seq<char> {
    field.0 + ": "@ + field.1
}

/// The lines of header fields, each ended by CRLF.
pub open spec fn field_lines(fields: Seq<Field>) -> Seq<char>
    decreases fields.len(),
{
    if fields.len() == 0 {
        Seq::empty()
    } else {
        field_lines(fields.drop_last()) + field_line(fields.last()) + crlf()
    }
}

/// The fields that go on the wire: all but any Content-Length, then the length of
/// the body.
pub open spec fn wire_fields(m: SipView) -> Seq<Field> {
    drop_field(m.headers, content_length()).push((content_length(), text::decimal(m.body.len())))
}

/// The head of a message, with the blank line that ends it.
pub open spec fn wire_head(m: SipView) -> Seq<char> {
    start_line(m) + crlf() + field_lines(wire_fields(m)) + crlf()
}

/// The wire form of a message.
pub open spec fn wire(m: SipView) -> Seq<u8> {
    utf8::encode_utf8(wire_head(m)) + m.body
}

// ── Parsing ──

/// The head of a message: the bytes before the first blank line, or all of them.
pub open spec fn head_of(data: Seq<u8>) -> Seq<u8> {
    match text::find(data, blank_line()) {
        Some(i) => text::before(data, i),
        None => data,
    }
}

/// What follows the blank line.
pub open spec fn tail_of(data: Seq<u8>) -> Seq<u8> {
    match text::find(data, blank_line()) {
        Some(i) => text::after(data, i + 4),
        None => Seq::empty(),
    }
}

/// The message that a start line begins, with no headers and no body.
pub open spec fn parse_start_line(line: Seq<char>) -> Result<SipView, ParseError> {
    if line.len() == 0 {
        Err(ParseError::MalformedStartLine)
    } else if text::starts_with(line, "SIP/2.0 "@) {
        let rest = text::after(line, 8);
        match text::find_char(rest, ' ') {
            Some(i) => match text::parse_decimal(text::before(rest, i), u16::MAX as nat) {
                Some(n) => Ok(
                    SipView {
                        method: Seq::empty(),
                        request_uri: Seq::empty(),
                        status_code: n as u16,
                        reason: text::after(rest, i + 1),
                        headers: Seq::empty(),
                        body: Seq::empty(),
                    },
                ),
                None => Err(ParseError::InvalidStatusCode),
            },
            None => Err(ParseError::MalformedStartLine),
        }
    } else {
        match text::find_char(line, ' ') {
            Some(i) => {
                let rest = text::after(line, i + 1);
                match text::find_char(rest, ' ') {
                    Some(j) => if text::after(rest, j + 1) == sip_version() {
                        Ok(
                            SipView {
                                method: text::before(line, i),
                                request_uri: text::before(rest, j),
                                status_code: 0,
                                reason: Seq::empty(),
                                headers: Seq::empty(),
                                body: Seq::empty(),
                            },
                        )
                    } else {
                        Err(ParseError::MalformedStartLine)
                    },
                    None => Err(ParseError::MalformedStartLine),
                }
            },
            None => Err(ParseError::MalformedStartLine),
        }
    }
}

/// The field that a header line holds: what stands before the first colon, and the
/// trimmed text after it. A line without a colon holds none.
pub open spec fn parse_field(line: Seq<char>) -> Option<Field> {
    match text::find_char(line, ':') {
        Some(i) => Some((text::before(line, i), text::trim(text::after(line, i + 1)))),
        None => None,
    }
}

/// The fields that header lines hold, in order.
pub open spec fn parse_fields(lines: Seq<Seq<char>>) -> Seq<Field>
    decreases lines.len(),
{
    if lines.len() == 0 {
        Seq::empty()
    } else {
        match parse_field(lines.last()) {
            Some(field) => parse_fields(lines.drop_last()).push(field),
            None => parse_fields(lines.drop_last()),
        }
    }
}

/// The body: as much of what follows the head as Content-Length says, and all of it
/// where that header is missing, is no number or asks for more.
pub open spec fn body_of(fields: Seq<Field>, tail: Seq<u8>) -> Seq<u8> {
    match text::parse_decimal(field_value(fields, content_length()), usize::MAX as nat) {
        Some(n) => if n <= tail.len() {
            text::before(tail, n as int)
        } else {
            tail
        },
        None => tail,
    }
}

/// The message that the bytes hold, or why they hold none.
pub open spec fn parse_spec(data: Seq<u8>) -> Result<SipView, ParseError> {
    if data.len() == 0 {
        Err(ParseError::Empty)
    } else if !utf8::valid_utf8(head_of(data)) {
        Err(ParseError::InvalidUtf8)
    } else {
        let lines = text::split(utf8::decode_utf8(head_of(data)), crlf());
        match parse_start_line(lines[0]) {
            Ok(m) => {
                let fields = parse_fields(lines.drop_first());
                Ok(SipView { headers: fields, body: body_of(fields, tail_of(data)), ..m })
            },
            Err(e) => Err(e),
        }
    }
}

// ── Messages ──

impl View for SipMessage {
    type V = SipView;

    open spec fn view(&self) -> SipView {
        SipView {
            method: self.method@,
            request_uri: self.request_uri@,
            status_code: self.status_code,
            reason: self.reason@,
            headers: self.fields(),
            body: self.body@,
        }
    }
}

impl ParseError {
    /// A description of the error.
    pub fn message(&self) -> (res: &'static str)
        ensures
            res@ == match *self {
                ParseError::Empty => "empty SIP message"@,
                ParseError::InvalidUtf8 => "invalid UTF-8 in SIP headers"@,
                ParseError::MalformedStartLine => "malformed SIP start line"@,
                ParseError::InvalidStatusCode => "invalid SIP status code"@,
            },
    {
        match self {
            ParseError::Empty => "empty SIP message",
            ParseError::InvalidUtf8 => "invalid UTF-8 in SIP headers",
            ParseError::MalformedStartLine => "malformed SIP start line",
            ParseError::InvalidStatusCode => "invalid SIP status code",
        }
    }
}

impl SipMessage {
    /// The header fields, in order.
    pub open spec fn fields(&self) -> Seq<Field> {
        fields_view(self.headers@)
    }

    /// A request with no headers and no body.
    pub fn new_request(method: &str, request_uri: &str) -> (m: Self)
        ensures
            m@ == (SipView {
                method: method@,
                request_uri: request_uri@,
                status_code: 0,
                reason: Seq::empty(),
                headers: Seq::empty(),
                body: Seq::empty(),
            }),
    {
        let m = SipMessage {
            method: method.to_owned(),
            request_uri: request_uri.to_owned(),
            status_code: 0,
            reason: String::new(),
            headers: Vec::new(),
            body: Vec::new(),
        };
        assert(m@.reason =~= Seq::empty());
        assert(m.fields() =~= Seq::empty());
        m
    }

    /// A response with no headers and no body.
    pub fn new_response(status_code: u16, reason: &str) -> (m: Self)
        ensures
            m@ == (SipView {
                method: Seq::empty(),
                request_uri: Seq::empty(),
                status_code,
                reason: reason@,
                headers: Seq::empty(),
                body: Seq::empty(),
            }),
    {
        let m = SipMessage {
            method: String::new(),
            request_uri: String::new(),
            status_code,
            reason: reason.to_owned(),
            headers: Vec::new(),
            body: Vec::new(),
        };
        assert(m@.method =~= Seq::empty());
        assert(m@.request_uri =~= Seq::empty());
        assert(m.fields() =~= Seq::empty());
        m
    }

    /// Whether the message is a response.
    pub fn is_response(&self) -> (res: bool)
        ensures
            res == (self@.status_code > 0),
    {
        self.status_code > 0
    }

    /// The first value of a header, its name in any case. Empty if it is missing.
    pub fn header(&self, name: &str) -> (res: &str)
        ensures
            res@ == field_value(self@.headers, name@),
    {
        let mut i: usize = 0;
        assert(self.fields().skip(0) =~= self.fields());
        while i < self.headers.len()
            invariant
                i <= self.headers@.len(),
                field_value(self.fields(), name@) == field_value(
                    self.fields().skip(i as int),
                    name@,
                ),
            decreases self.headers@.len() - i,
        {
            let ghost rest = self.fields().skip(i as int);
            assert(rest[0] == self.fields()[i as int]);
            assert(rest.drop_first() =~= self.fields().skip(i + 1));
            if text::same_any_case(self.headers[i].0.as_str(), name) {
                return self.headers[i].1.as_str();
            }
            i += 1;
        }
        let none: &str = "";
        proof {
            reveal_strlit("");
            assert(none@ =~= Seq::empty());
        }
        none
    }

    /// All values of a header, its name in any case, in order.
    pub fn header_values(&self, name: &str) -> (res: Vec<&str>)
        ensures
            res@.len() == field_values(self@.headers, name@).len(),
            forall|i: int|
                0 <= i < res@.len() ==> (#[trigger] res@[i])@ == field_values(
                    self@.headers,
                    name@,
                )[i],
    {
        let mut res: Vec<&str> = Vec::new();
        let mut i: usize = 0;
        while i < self.headers.len()
            invariant
                i <= self.headers@.len(),
                res@.len() == field_values(self.fields().take(i as int), name@).len(),
                forall|j: int|
                    0 <= j < res@.len() ==> (#[trigger] res@[j])@ == field_values(
                        self.fields().take(i as int),
                        name@,
                    )[j],
            decreases self.headers@.len() - i,
        {
            proof {
                let next = self.fields().take(i + 1);
                assert(next.drop_last() =~= self.fields().take(i as int));
                assert(next.last() == self.fields()[i as int]);
            }
            if text::same_any_case(self.headers[i].0.as_str(), name) {
                res.push(self.headers[i].1.as_str());
            }
            i += 1;
        }
        assert(self.fields().take(i as int) =~= self.fields());
        res
    }

    /// Sets a header, in place of any fields of that name.
    pub fn set_header(&mut self, name: &str, value: &str)
        ensures
            final(self)@ == (SipView {
                headers: set_field(old(self)@.headers, name@, value@),
                ..old(self)@
            }),
    {
        let mut found: bool = false;
        let mut kept: Vec<(String, String)> = Vec::new();
        let mut i: usize = 0;
        let ghost fields = self.fields();
        while i < self.headers.len()
            invariant
                *self == *old(self),
                fields == self.fields(),
                i <= self.headers@.len(),
                found == has_field(fields.take(i as int), name@),
                fields_view(kept@) == replace_field(fields.take(i as int), name@, value@),
            decreases self.headers@.len() - i,
        {
            let ghost next = fields.take(i + 1);
            proof {
                assert(next.drop_last() =~= fields.take(i as int));
                assert(next.last() == fields[i as int]);
                lemma_has_field_step(next, name@);
            }
            let ghost earlier = kept@;
            if !text::same_any_case(self.headers[i].0.as_str(), name) {
                kept.push((self.headers[i].0.clone(), self.headers[i].1.clone()));
                assert(fields_view(kept@) =~= fields_view(earlier).push(next.last()));
            } else if !found {
                kept.push((self.headers[i].0.clone(), value.to_owned()));
                found = true;
                assert(fields_view(kept@) =~= fields_view(earlier).push((next.last().0, value@)));
            }
            i += 1;
        }
        assert(fields.take(i as int) =~= fields);
        if found {
            self.headers = kept;
        } else {
            let ghost earlier = self.headers@;
            self.headers.push((name.to_owned(), value.to_owned()));
            assert(fields_view(self.headers@) =~= fields_view(earlier).push((name@, value@)));
        }
    }

    /// Appends a header field and keeps those of the same name.
    pub fn add_header(&mut self, name: &str, value: &str)
        ensures
            final(self)@ == (SipView {
                headers: old(self)@.headers.push((name@, value@)),
                ..old(self)@
            }),
    {
        self.headers.push((name.to_owned(), value.to_owned()));
        assert(self.fields() =~= old(self).fields().push((name@, value@)));
    }

    /// The branch parameter of the top Via header.
    pub fn via_branch(&self) -> (res: &str)
        ensures
            res@ == param_of(field_value(self@.headers, "Via"@), "branch"@),
    {
        param_value(self.header("Via"), "branch")
    }

    /// The sequence number and the method of the CSeq header.
    pub fn cseq(&self) -> (res: (u32, &str))
        ensures
            (res.0 as nat, res.1@) == cseq_of(field_value(self@.headers, "CSeq"@)),
    {
        parse_cseq(self.header("CSeq"))
    }

    /// The Call-ID header.
    pub fn call_id(&self) -> (res: &str)
        ensures
            res@ == field_value(self@.headers, "Call-ID"@),
    {
        self.header("Call-ID")
    }

    /// The tag parameter of the From header.
    pub fn from_tag(&self) -> (res: &str)
        ensures
            res@ == param_of(field_value(self@.headers, "From"@), "tag"@),
    {
        param_value(self.header("From"), "tag")
    }

    /// The tag parameter of the To header.
    pub fn to_tag(&self) -> (res: &str)
        ensures
            res@ == param_of(field_value(self@.headers, "To"@), "tag"@),
    {
        param_value(self.header("To"), "tag")
    }

    /// The user part of the URI in the From header: `1001` in
    /// `<sip:1001@pbx.local>;tag=abc`.
    pub fn from_user(&self) -> (res: &str)
        ensures
            res@ == uri_user(field_value(self@.headers, "From"@)),
    {
        extract_uri_user(self.header("From"))
    }

    /// The user part of the Request-URI or, where that names none, of the URI in the
    /// To header.
    pub fn to_user(&self) -> (res: &str)
        ensures
            res@ == if uri_user(self@.request_uri).len() > 0 {
                uri_user(self@.request_uri)
            } else {
                uri_user(field_value(self@.headers, "To"@))
            },
    {
        let user: &str = extract_uri_user(self.request_uri.as_str());
        if !user.is_empty() {
            return user;
        }
        extract_uri_user(self.header("To"))
    }

    /// The wire form of the message, with a Content-Length that gives the length of
    /// the body.
    pub fn to_bytes(&self) -> (res: Vec<u8>)
        ensures
            res@ == wire(self@),
    {
        let mut buf: String = String::new();
        if self.is_response() {
            buf.append("SIP/2.0 ");
            text::push_decimal(&mut buf, self.status_code as u64);
            buf.append(" ");
            buf.append(self.reason.as_str());
        } else {
            buf.append(self.method.as_str());
            buf.append(" ");
            buf.append(self.request_uri.as_str());
            buf.append(" ");
            buf.append("SIP/2.0");
        }
        assert(buf@ =~= start_line(self@));
        buf.append("\r\n");
        let ghost first = start_line(self@) + crlf();
        let ghost fields = self.fields();
        let mut i: usize = 0;
        assert(buf@ =~= first + field_lines(drop_field(fields.take(0), content_length())));
        while i < self.headers.len()
            invariant
                fields == self.fields(),
                i <= self.headers@.len(),
                buf@ == first + field_lines(drop_field(fields.take(i as int), content_length())),
            decreases self.headers@.len() - i,
        {
            let ghost next = fields.take(i + 1);
            let ghost earlier = drop_field(fields.take(i as int), content_length());
            proof {
                assert(next.drop_last() =~= fields.take(i as int));
                assert(next.last() == fields[i as int]);
            }
            if !text::same_any_case(self.headers[i].0.as_str(), "Content-Length") {
                buf.append(self.headers[i].0.as_str());
                buf.append(": ");
                buf.append(self.headers[i].1.as_str());
                buf.append("\r\n");
                proof {
                    lemma_field_lines_push(earlier, next.last());
                    assert(buf@ =~= first + field_lines(earlier.push(next.last())));
                }
            }
            i += 1;
        }
        assert(fields.take(i as int) =~= fields);
        buf.append("Content-Length");
        buf.append(": ");
        text::push_decimal(&mut buf, self.body.len() as u64);
        buf.append("\r\n");
        buf.append("\r\n");
        proof {
            let length = (content_length(), text::decimal(self@.body.len()));
            lemma_field_lines_push(drop_field(fields, content_length()), length);
            assert(buf@ =~= wire_head(self@));
        }
        let mut bytes: Vec<u8> = buf.as_str().as_bytes_vec();
        bytes.extend_from_slice(self.body.as_slice());
        assert(bytes@ =~= wire(self@));
        bytes
    }
}

proof fn lemma_field_lines_push(fields: Seq<Field>, field: Field)
    ensures
        field_lines(fields.push(field)) == field_lines(fields) + field_line(field) + crlf(),
{
    assert(fields.push(field).drop_last() =~= fields);
}

/// Whether a longer list has a field of this name, by its last field and the rest.
proof fn lemma_has_field_step(fields: Seq<Field>, name: Seq<char>)
    requires
        fields.len() > 0,
    ensures
        has_field(fields, name) <==> has_field(fields.drop_last(), name) || text::eq_ignore_case(
            fields.last().0,
            name,
        ),
{
    let shorter = fields.drop_last();
    if has_field(shorter, name) {
        let i = choose|i: int|
            0 <= i < shorter.len() && text::eq_ignore_case(#[trigger] shorter[i].0, name);
        assert(fields[i] == shorter[i]);
    }
    if has_field(fields, name) && !text::eq_ignore_case(fields.last().0, name) {
        let i = choose|i: int|
            0 <= i < fields.len() && text::eq_ignore_case(#[trigger] fields[i].0, name);
        assert(fields[i] == shorter[i]);
    }
}

/// The sequence number and the method that a CSeq value holds.
pub fn parse_cseq(value: &str) -> (res: (u32, &str))
    ensures
        (res.0 as nat, res.1@) == cseq_of(value@),
{
    let all: Vec<char> = text::chars_of(value);
    let (a, b) = text::trim_range(all.as_slice());
    let val: &[char] = slice_subrange(all.as_slice(), a, b);
    let none: &str = "";
    proof {
        reveal_strlit("");
        assert(none@ =~= Seq::empty());
    }
    match text::position_of(val, ' ') {
        Some(space) => match text::read_decimal(slice_subrange(val, 0, space), u32::MAX as u64) {
            Some(n) => {
                let method: &str = value.substring_char(a + space + 1, b);
                assert(method@ =~= text::after(val@, space + 1));
                (n as u32, method)
            },
            None => (0, none),
        },
        None => (0, none),
    }
}

/// The value of a parameter of a header value: `z9hG4bK123` for the parameter
/// `branch` of `SIP/2.0/UDP 10.0.0.1;branch=z9hG4bK123`. Empty if it is missing.
pub fn param_value<'a>(header_val: &'a str, param: &str) -> (res: &'a str)
    ensures
        res@ == param_of(header_val@, param@),
{
    let all: Vec<char> = text::chars_of(header_val);
    let mut search: Vec<char> = text::chars_of(param);
    search.push('=');
    let n: usize = search.len();
    let stops: [char; 4] = [',', ' ', '\t', '>'];
    assert(stops@ =~= param_ends());
    let mut start: usize = 0;
    assert(all@.skip(0) =~= all@);
    loop
        invariant
            all@ == header_val@,
            search@ == param@.push('='),
            n == search@.len(),
            stops@ == param_ends(),
            start <= all@.len(),
            param_of(header_val@, param@) == param_of(all@.skip(start as int), param@),
        decreases all@.len() - start,
    {
        let rest: &[char] = slice_subrange(all.as_slice(), start, all.len());
        assert(rest@ =~= all@.skip(start as int));
        let semicolon: Option<usize> = text::position_of(rest, ';');
        let len: usize = match semicolon {
            Some(i) => i,
            None => rest.len(),
        };
        let piece: &[char] = slice_subrange(rest, 0, len);
        proof {
            lemma_split_at_char(rest@, ';');
            let pieces = text::split(rest@, seq![';']);
            assert(piece@ =~= pieces[0]);
            if semicolon is Some {
                assert(pieces.drop_first() =~= text::split(text::after(rest@, len + 1), seq![';']));
            }
        }
        let (a, b) = text::trim_range(piece);
        if b - a >= n {
            let name: &[char] = slice_subrange(piece, a, a + n);
            assert(name@ =~= text::before(text::trim(piece@), n as int));
            if text::same_chars_any_case(name, search.as_slice()) {
                let value: &[char] = slice_subrange(piece, a + n, b);
                assert(value@ =~= text::after(text::trim(piece@), n as int));
                let end: usize = match text::position_of_any(value, &stops) {
                    Some(e) => e,
                    None => value.len(),
                };
                let from: usize = start + a + n;
                let found: &str = header_val.substring_char(from, from + end);
                assert(found@ =~= text::before(value@, end as int));
                assert(text::before(value@, value@.len() as int) =~= value@);
                return found;
            }
        }
        match semicolon {
            Some(i) => {
                assert(text::after(rest@, i + 1) =~= all@.skip(start + i + 1));
                start = start + i + 1;
            },
            None => {
                let none: &str = "";
                proof {
                    reveal_strlit("");
                    assert(none@ =~= Seq::empty());
                    let others = text::split(rest@, seq![';']).drop_first();
                    assert(others =~= Seq::empty());
                    assert(pieces_param(others, param@) =~= Seq::empty());
                }
                return none;
            },
        }
    }
}

/// Splitting at a character, by its first occurrence.
proof fn lemma_split_at_char(s: Seq<char>, c: char)
    ensures
        text::find(s, seq![c]) == text::find_char(s, c),
        match text::find_char(s, c) {
            Some(i) => {
                &&& 0 <= i < s.len()
                &&& text::split(s, seq![c]) == seq![text::before(s, i)] + text::split(
                    text::after(s, i + 1),
                    seq![c],
                )
            },
            None => text::split(s, seq![c]) == seq![s],
        },
{
    text::lemma_find_char(s, c);
    match text::find_char(s, c) {
        Some(i) => {
            assert(s.subrange(i, i + 1) =~= seq![c]);
            assert forall|j: int| 0 <= j < i implies !text::occurs_at(s, seq![c], j) by {
                assert(s.subrange(j, j + 1)[0] == s[j]);
            }
            text::lemma_find_is(s, seq![c], 0, i);
        },
        None => {
            assert forall|j: int| 0 <= j implies !text::occurs_at(s, seq![c], j) by {
                if j < s.len() {
                    assert(s.subrange(j, j + 1)[0] == s[j]);
                }
            }
            text::lemma_find_none(s, seq![c], 0);
        },
    }
}

/// The user part of the first SIP URI in `s`: `1001` in `<sip:1001@pbx.local>`.
pub fn extract_uri_user(s: &str) -> (res: &str)
    ensures
        res@ == uri_user(s@),
{
    let all: Vec<char> = text::chars_of(s);
    let none: &str = "";
    proof {
        reveal_strlit("");
        reveal_strlit("sip:");
        reveal_strlit("sips:");
        assert(none@ =~= Seq::empty());
    }
    let total: usize = all.len();
    let start: usize = match text::position_of_text(
        all.as_slice(),
        text::chars_of("sip:").as_slice(),
    ) {
        Some(i) => i + 4,
        None => match text::position_of_text(all.as_slice(), text::chars_of("sips:").as_slice()) {
            Some(i) => i + 5,
            None => {
                return none;
            },
        },
    };
    let rest: &[char] = slice_subrange(all.as_slice(), start, total);
    assert(rest@ =~= text::after(s@, start as int));
    match text::position_of(rest, '@') {
        Some(at) => {
            let user: &str = s.substring_char(start, start + at);
            assert(user@ =~= text::before(rest@, at as int));
            user
        },
        None => none,
    }
}

/// The message that a start line begins.
fn read_start_line(line: &[char]) -> (res: Result<SipMessage, ParseError>)
    ensures
        match res {
            Ok(m) => parse_start_line(line@) == Ok::<SipView, ParseError>(m@),
            Err(e) => parse_start_line(line@) == Err::<SipView, ParseError>(e),
        },
{
    if line.len() == 0 {
        return Err(ParseError::MalformedStartLine);
    }
    proof {
        reveal_strlit("SIP/2.0 ");
        reveal_strlit("");
    }
    if text::has_prefix(line, text::chars_of("SIP/2.0 ").as_slice()) {
        let rest: &[char] = slice_subrange(line, 8, line.len());
        match text::position_of(rest, ' ') {
            Some(i) => match text::read_decimal(slice_subrange(rest, 0, i), u16::MAX as u64) {
                Some(n) => {
                    let reason: String = text::string_of(slice_subrange(rest, i + 1, rest.len()));
                    Ok(SipMessage::new_response(n as u16, reason.as_str()))
                },
                None => Err(ParseError::InvalidStatusCode),
            },
            None => Err(ParseError::MalformedStartLine),
        }
    } else {
        match text::position_of(line, ' ') {
            Some(i) => {
                let rest: &[char] = slice_subrange(line, i + 1, line.len());
                match text::position_of(rest, ' ') {
                    Some(j) => {
                        let version: &[char] = slice_subrange(rest, j + 1, rest.len());
                        if !text::same_chars(version, text::chars_of("SIP/2.0").as_slice()) {
                            return Err(ParseError::MalformedStartLine);
                        }
                        let method: String = text::string_of(slice_subrange(line, 0, i));
                        let uri: String = text::string_of(slice_subrange(rest, 0, j));
                        Ok(SipMessage::new_request(method.as_str(), uri.as_str()))
                    },
                    None => Err(ParseError::MalformedStartLine),
                }
            },
            None => Err(ParseError::MalformedStartLine),
        }
    }
}

/// Splitting at CRLF, by the first one.
proof fn lemma_split_line(s: Seq<char>)
    ensures
        match text::find(s, crlf()) {
            Some(i) => {
                &&& 0 <= i
                &&& i + 2 <= s.len()
                &&& text::split(s, crlf()) == seq![text::before(s, i)] + text::split(
                    text::after(s, i + 2),
                    crlf(),
                )
            },
            None => text::split(s, crlf()) == seq![s],
        },
{
    reveal_strlit("\r\n");
    text::lemma_find_from(s, crlf(), 0);
}

/// One more header line, at the end.
proof fn lemma_parse_fields_push(lines: Seq<Seq<char>>, line: Seq<char>)
    ensures
        parse_fields(lines.push(line)) == match parse_field(line) {
            Some(field) => parse_fields(lines).push(field),
            None => parse_fields(lines),
        },
{
    assert(lines.push(line).drop_last() =~= lines);
}

/// Parses a SIP message.
pub fn parse(data: &[u8]) -> (res: Result<SipMessage, ParseError>)
    ensures
        match res {
            Ok(m) => parse_spec(data@) == Ok::<SipView, ParseError>(m@),
            Err(e) => parse_spec(data@) == Err::<SipView, ParseError>(e),
        },
{
    if data.len() == 0 {
        return Err(ParseError::Empty);
    }
    let split: Option<usize> = text::position_of_blank_line(data);
    let head: &[u8] = match split {
        Some(i) => slice_subrange(data, 0, i),
        None => data,
    };
    let tail: &[u8] = match split {
        Some(i) => slice_subrange(data, i + 4, data.len()),
        None => slice_subrange(data, data.len(), data.len()),
    };
    assert(head@ =~= head_of(data@));
    assert(tail@ =~= tail_of(data@));
    let head_text: &str = match text::utf8_text(head) {
        Some(t) => t,
        None => {
            return Err(ParseError::InvalidUtf8);
        },
    };
    let all: Vec<char> = text::chars_of(head_text);
    let total: usize = all.len();
    let eol: Vec<char> = text::chars_of("\r\n");
    let ghost lines = text::split(all@, crlf());
    proof {
        reveal_strlit("\r\n");
        lemma_split_line(all@);
    }
    let first: Option<usize> = text::position_of_text(all.as_slice(), eol.as_slice());
    let first_len: usize = match first {
        Some(i) => i,
        None => total,
    };
    let line: &[char] = slice_subrange(all.as_slice(), 0, first_len);
    assert(line@ =~= lines[0]);
    let mut msg: SipMessage = match read_start_line(line) {
        Ok(m) => m,
        Err(e) => {
            return Err(e);
        },
    };
    let ghost start = msg@;
    assert(start.headers =~= Seq::empty());
    let mut more: bool = first.is_some();
    let mut pos: usize = match first {
        Some(i) => i + 2,
        None => total,
    };
    let ghost mut done: Seq<Seq<char>> = Seq::empty();
    proof {
        if more {
            assert(all@.skip(pos as int) =~= text::after(all@, pos as int));
            assert(lines.drop_first() =~= done + text::split(all@.skip(pos as int), crlf()));
        } else {
            assert(lines.drop_first() =~= done);
        }
        assert(parse_fields(done) =~= Seq::empty());
    }
    while more
        invariant
            eol@ == crlf(),
            pos <= all@.len(),
            more ==> lines.drop_first() == done + text::split(all@.skip(pos as int), crlf()),
            !more ==> lines.drop_first() == done,
            msg@ == (SipView { headers: parse_fields(done), ..start }),
        decreases (all@.len() - pos) + (if more { 1int } else { 0int }),
    {
        let rest: &[char] = slice_subrange(all.as_slice(), pos, all.len());
        proof {
            reveal_strlit("\r\n");
            assert(rest@ =~= all@.skip(pos as int));
            lemma_split_line(rest@);
        }
        let end: Option<usize> = text::position_of_text(rest, eol.as_slice());
        let len: usize = match end {
            Some(i) => i,
            None => rest.len(),
        };
        let line: &[char] = slice_subrange(rest, 0, len);
        proof {
            let ahead = text::split(rest@, crlf());
            assert(ahead[0] =~= line@);
            lemma_parse_fields_push(done, line@);
            assert(done + ahead =~= done.push(line@) + ahead.drop_first());
            if end is Some {
                assert(text::after(rest@, len + 2) =~= all@.skip(pos + len + 2));
                assert(ahead.drop_first() =~= text::split(all@.skip(pos + len + 2), crlf()));
            } else {
                assert(ahead.drop_first() =~= Seq::empty());
                assert(done.push(line@) + ahead.drop_first() =~= done.push(line@));
            }
            done = done.push(line@);
        }
        match text::position_of(line, ':') {
            Some(colon) => {
                let name: String = text::string_of(slice_subrange(line, 0, colon));
                let value: String = text::string_of(
                    text::trimmed(slice_subrange(line, colon + 1, line.len())),
                );
                msg.add_header(name.as_str(), value.as_str());
            },
            None => {},
        }
        match end {
            Some(i) => {
                pos = pos + i + 2;
            },
            None => {
                more = false;
            },
        }
    }
    let ghost fields = parse_fields(lines.drop_first());
    let length: Option<u64> = text::read_decimal(
        text::chars_of(msg.header("Content-Length")).as_slice(),
        usize::MAX as u64,
    );
    let keep: usize = match length {
        Some(n) => if n <= tail.len() as u64 {
            n as usize
        } else {
            tail.len()
        },
        None => tail.len(),
    };
    assert(text::before(tail@, tail@.len() as int) =~= tail@);
    let mut body: Vec<u8> = Vec::new();
    body.extend_from_slice(slice_subrange(tail, 0, keep));
    msg.body = body;
    assert(msg.body@ =~= body_of(fields, tail_of(data@)));
    Ok(msg)
}

} // verus!
