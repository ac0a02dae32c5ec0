//! The parser of requests.
//!
//! ```text
//! request := "GET" SP url SP "HTTP/" version CRLF header* CRLF
//! url     := non-SP+
//! version := digit+ "." digit+
//! header  := name ":" value (CRLF (SP|HT) value)* CRLF
//! name    := [^:]+
//! value   := [^\r\n]*
//! ```
use crate::table::{bind, entries, set_text, Table};
use crate::text::{
    chars_of, decimal, decimal_string, find_char, find_from, lower, lower_char, occurs_at, string_of,
    string_of_range, to_lower_char, trim, trim_bounds,
};
use vstd::prelude::*;
use vstd::string::*;

verus! {

/// A request as it was read.
pub struct HttpRequest {
    pub method: String,
    pub major_version: u64,
    pub minor_version: u64,
    /// The url as it was sent, with its query.
    pub url: String,
    /// Names are in lower case.  Of two headers with one name the last
    /// gives the value.
    pub headers: Table<String>,
    pub body: String,
}

/// A request as a value of the mathematics.
pub struct HttpRequestView {
    pub method: Seq<char>,
    pub major_version: u64,
    pub minor_version: u64,
    pub url: Seq<char>,
    pub headers: Seq<(Seq<char>, Seq<char>)>,
    pub body: Seq<char>,
}

impl View for HttpRequest {
    type V = HttpRequestView;

    open spec fn view(&self) -> HttpRequestView {
        HttpRequestView {
            method: self.method@,
            major_version: self.major_version,
            minor_version: self.minor_version,
            url: self.url@,
            headers: entries(&self.headers),
            body: self.body@,
        }
    }
}

/// Why a text is not a request, and the line and column of the first
/// character that does not fit, both counted from 1.
pub struct ParseError {
    pub message: String,
    pub line: usize,
    pub col: usize,
}

/// A failure of the grammar: what was expected, and the index of the
/// first character that does not fit.
pub struct Failure {
    pub message: Seq<char>,
    pub at: int,
}

/// The number of characters of `expected` that stand in `text` from `at`
/// on, counted from the `done`-th.
pub open spec fn agreeing(text: Seq<char>, expected: Seq<char>, at: int, done: int) -> int
    decreases expected.len() - done,
{
    if 0 <= done < expected.len() && 0 <= at + done < text.len() && text[at + done] == expected[done] {
        agreeing(text, expected, at, done + 1)
    } else {
        done
    }
}

/// The index of the first carriage return or line feed at or after
/// `from`, or the length of `text` where there is none.
pub open spec fn line_end(text: Seq<char>, from: int) -> int
    decreases text.len() - from,
{
    if from < 0 || from >= text.len() || text[from] == '\r' || text[from] == '\n' {
        from
    } else {
        line_end(text, from + 1)
    }
}

/// A decimal digit.
pub open spec fn is_digit(c: char) -> bool {
    '0' <= c && c <= '9'
}

/// The index of the first character at or after `from` that is no digit.
pub open spec fn digits_end(text: Seq<char>, from: int) -> int
    decreases text.len() - from,
{
    if from < 0 || from >= text.len() || !is_digit(text[from]) {
        from
    } else {
        digits_end(text, from + 1)
    }
}

/// The number that the digits `text[from..to]` write in base 10.
pub open spec fn number(text: Seq<char>, from: int, to: int) -> nat
    decreases to - from,
{
    if to <= from {
        0
    } else {
        number(text, from, to - 1) * 10 + ((text[to - 1] as u8) - 48) as nat
    }
}

/// The line end of the protocol.
pub open spec fn crlf() -> Seq<char> {
    seq!['\r', '\n']
}

/// A continuation line begins at `at`: a line end, then a blank or a tab.
pub open spec fn continues_at(text: Seq<char>, at: int) -> bool {
    occurs_at(text, crlf(), at) && at + 2 < text.len() && (text[at + 2] == ' ' || text[at + 2] == '\t')
}

/// The value of a header with its continuation lines, and where it ends.
/// `sofar` is the value up to `at`.  Each continuation line is trimmed
/// and joined to what is before it with one blank.
pub open spec fn continued(text: Seq<char>, at: int, sofar: Seq<char>) -> (Seq<char>, int)
    decreases text.len() - at,
{
    if continues_at(text, at) {
        let end = line_end(text, at + 3);
        if at < end <= text.len() {
            continued(text, end, sofar + seq![' '] + trim(text.subrange(at + 3, end)))
        } else {
            (sofar, at)
        }
    } else {
        (sofar, at)
    }
}

/// The header that begins at `at`, if one does: its name in lower case,
/// its value, and the index behind its line end.
pub open spec fn header_at(text: Seq<char>, at: int) -> Option<(Seq<char>, Seq<char>, int)> {
    let colon = find_from(text, ':', at);
    if 0 <= at < colon < text.len() {
        let first_end = line_end(text, colon + 1);
        let (value, end) = continued(text, first_end, trim(text.subrange(colon + 1, first_end)));
        if occurs_at(text, crlf(), end) {
            Some((lower(text.subrange(at, colon)), value, end + 2))
        } else {
            None
        }
    } else {
        None
    }
}

/// The headers from `at` on, bound in their order to `sofar`, and the
/// index where no further header begins.
pub open spec fn headers_from(text: Seq<char>, at: int, sofar: Seq<(Seq<char>, Seq<char>)>) -> (
    Seq<(Seq<char>, Seq<char>)>,
    int,
)
    decreases text.len() - at,
{
    match header_at(text, at) {
        Some((name, value, next)) => if at < next <= text.len() {
            headers_from(text, next, bind(sofar, name, value))
        } else {
            (sofar, at)
        },
        None => (sofar, at),
    }
}

/// The failure with this message at this index.
pub open spec fn failure(message: Seq<char>, at: int) -> Result<HttpRequestView, Failure> {
    Err(Failure { message, at })
}

/// The request that `text` is, or the first failure of the grammar.
#[verifier::opaque]
pub open spec fn parsed(text: Seq<char>) -> Result<HttpRequestView, Failure> {
    let method = agreeing(text, "GET "@, 0, 0);
    let url_end = find_from(text, ' ', 4);
    let protocol = agreeing(text, " HTTP/"@, url_end, 0);
    let major = url_end + 6;
    let major_end = digits_end(text, major);
    let minor = major_end + 1;
    let minor_end = digits_end(text, minor);
    let line = agreeing(text, crlf(), minor_end, 0);
    let (headers, end) = headers_from(text, minor_end + 2, Seq::empty());
    let last = agreeing(text, crlf(), end, 0);
    if method < 4 {
        failure("Expected 'GET '"@, method)
    } else if url_end == 4 {
        failure("Expected an URL"@, 4)
    } else if protocol < 6 {
        failure("Expected 'HTTP/'"@, url_end + protocol)
    } else if major_end == major {
        failure("Expected a digit"@, major)
    } else if number(text, major, major_end) > u64::MAX {
        failure("Version number is too large"@, major)
    } else if !(major_end < text.len() && text[major_end] == '.') {
        failure("Expected '.'"@, major_end)
    } else if minor_end == minor {
        failure("Expected a digit"@, minor)
    } else if number(text, minor, minor_end) > u64::MAX {
        failure("Version number is too large"@, minor)
    } else if line < 2 {
        failure("Expected CRNL"@, minor_end + line)
    } else if last < 2 {
        failure("Expected CRNL"@, end + last)
    } else if end + 2 != text.len() {
        failure("Expected EOT"@, end + 2)
    } else {
        Ok(
            HttpRequestView {
                method: "GET"@,
                major_version: number(text, major, major_end) as u64,
                minor_version: number(text, minor, minor_end) as u64,
                url: text.subrange(4, url_end),
                headers,
                body: Seq::empty(),
            },
        )
    }
}

/// The number of line feeds before `at`.
pub open spec fn line_feeds(text: Seq<char>, at: int) -> nat
    decreases at,
{
    if at <= 0 || at > text.len() {
        0
    } else if text[at - 1] == '\n' {
        line_feeds(text, at - 1) + 1
    } else {
        line_feeds(text, at - 1)
    }
}

/// The number of characters between the last line feed before `at` and
/// `at`.
pub open spec fn line_offset(text: Seq<char>, at: int) -> nat
    decreases at,
{
    if at <= 0 || at > text.len() || text[at - 1] == '\n' {
        0
    } else {
        line_offset(text, at - 1) + 1
    }
}

/// An error as a value of the mathematics.
pub struct ParseErrorView {
    pub message: Seq<char>,
    pub line: int,
    pub col: int,
}

impl View for ParseError {
    type V = ParseErrorView;

    open spec fn view(&self) -> ParseErrorView {
        ParseErrorView { message: self.message@, line: self.line as int, col: self.col as int }
    }
}

/// The error that reports `failure` in `text`.
pub open spec fn reported(text: Seq<char>, failure: Failure) -> ParseErrorView {
    ParseErrorView {
        message: failure.message,
        line: line_feeds(text, failure.at) as int + 1,
        col: line_offset(text, failure.at) as int + 1,
    }
}

/// What parsing `text` gives.
pub open spec fn parse_result(text: Seq<char>) -> Result<HttpRequestView, ParseErrorView> {
    match parsed(text) {
        Ok(request) => Ok(request),
        Err(failure) => Err(reported(text, failure)),
    }
}

/// The text of an error: its message, then line and column.
pub open spec fn error_text(error: ParseErrorView) -> Seq<char> {
    error.message + " on line "@ + decimal(error.line as nat) + " col "@ + decimal(error.col as nat)
}

impl ParseError {
    /// The text of the error: its message, then line and column.
    pub fn to_str(&self) -> (text: String)
        ensures
            text@ == error_text(self@),
    {
        let mut text = self.message.clone();
        text.append(" on line ");
        text.append(decimal_string(self.line as u64).as_str());
        text.append(" col ");
        text.append(decimal_string(self.col as u64).as_str());
        text
    }
}

/// The number of characters of `expected` that stand in `text` from `at`
/// on.
fn agree(text: &Vec<char>, expected: &str, at: usize) -> (done: usize)
    requires
        at <= text.len(),
    ensures
        done == agreeing(text@, expected@, at as int, 0),
        done <= expected@.len(),
        at + done <= text.len(),
        done == expected@.len() <==> occurs_at(text@, expected@, at as int),
{
    let want = chars_of(expected);
    let mut done: usize = 0;
    while done < want.len() && done < text.len() - at && text[at + done] == want[done]
        invariant
            at <= text.len(),
            want@ == expected@,
            done <= want.len(),
            at + done <= text.len(),
            agreeing(text@, expected@, at as int, 0) == agreeing(text@, expected@, at as int, done as int),
            text@.subrange(at as int, at + done) == want@.take(done as int),
        decreases want.len() - done,
    {
        assert(text@.subrange(at as int, at + done + 1) == text@.subrange(at as int, at + done).push(
            text@[at + done],
        ));
        assert(want@.take(done + 1) == want@.take(done as int).push(want@[done as int]));
        done += 1;
    }
    proof {
        if done == want.len() {
            assert(want@.take(done as int) == want@);
        } else if occurs_at(text@, expected@, at as int) {
            assert(text@.subrange(at as int, at + want.len())[done as int] == want@[done as int]);
        }
    }
    done
}

/// Executable `line_end`.
fn find_line_end(text: &Vec<char>, from: usize) -> (end: usize)
    requires
        from <= text.len(),
    ensures
        end == line_end(text@, from as int),
        from <= end <= text.len(),
{
    let mut end = from;
    while end < text.len() && text[end] != '\r' && text[end] != '\n'
        invariant
            from <= end <= text.len(),
            line_end(text@, from as int) == line_end(text@, end as int),
        decreases text.len() - end,
    {
        end += 1;
    }
    end
}

/// Executable `digits_end`.
fn find_digits_end(text: &Vec<char>, from: usize) -> (end: usize)
    requires
        from <= text.len(),
    ensures
        end == digits_end(text@, from as int),
        from <= end <= text.len(),
        forall|i: int| from <= i < end ==> is_digit(#[trigger] text@[i]),
{
    let mut end = from;
    while end < text.len() && '0' <= text[end] && text[end] <= '9'
        invariant
            from <= end <= text.len(),
            digits_end(text@, from as int) == digits_end(text@, end as int),
            forall|i: int| from <= i < end ==> is_digit(#[trigger] text@[i]),
        decreases text.len() - end,
    {
        end += 1;
    }
    end
}

/// A number grows with its digits.
proof fn lemma_number_grows(text: Seq<char>, from: int, mid: int, to: int)
    requires
        from <= mid <= to,
    ensures
        number(text, from, mid) <= number(text, from, to),
    decreases to - mid,
{
    if mid < to {
        lemma_number_grows(text, from, mid, to - 1);
    }
}

/// The value of the digits `text[from..to]`, or `None` where it is more
/// than a `u64` holds.
fn read_number(text: &Vec<char>, from: usize, to: usize) -> (r: Option<u64>)
    requires
        from <= to <= text.len(),
        forall|i: int| from <= i < to ==> is_digit(#[trigger] text@[i]),
    ensures
        match r {
            Some(n) => n == number(text@, from as int, to as int),
            None => number(text@, from as int, to as int) > u64::MAX,
        },
{
    let mut value: u64 = 0;
    let mut i = from;
    while i < to
        invariant
            from <= i <= to <= text.len(),
            forall|k: int| from <= k < to ==> is_digit(#[trigger] text@[k]),
            value == number(text@, from as int, i as int),
        decreases to - i,
    {
        assert(is_digit(text@[i as int]));
        let digit: u64 = ((text[i] as u8) - 48) as u64;
        proof {
            lemma_number_grows(text@, from as int, i + 1, to as int);
        }
        if value > (u64::MAX - digit) / 10 {
            assert(value * 10 + digit > u64::MAX);
            return None;
        }
        value = value * 10 + digit;
        i += 1;
    }
    Some(value)
}

/// Appends `trim(text[lo..hi])` to `out`.
fn push_trimmed(out: &mut Vec<char>, text: &Vec<char>, lo: usize, hi: usize)
    requires
        lo <= hi <= text.len(),
    ensures
        final(out)@ == old(out)@ + trim(text@.subrange(lo as int, hi as int)),
{
    let (from, to) = trim_bounds(text, lo, hi);
    let mut i = from;
    while i < to
        invariant
            from <= i <= to <= text.len(),
            out@ == old(out)@ + text@.subrange(from as int, i as int),
        decreases to - i,
    {
        out.push(text[i]);
        assert(text@.subrange(from as int, i + 1) == text@.subrange(from as int, i as int).push(text@[i as int]));
        i += 1;
    }
}

/// The header that begins at `at`, if one does.
fn read_header(text: &Vec<char>, at: usize) -> (r: Option<(String, String, usize)>)
    requires
        at <= text.len(),
    ensures
        match r {
            Some((name, value, next)) => header_at(text@, at as int) == Some((name@, value@, next as int))
                && at < next <= text.len(),
            None => header_at(text@, at as int) is None,
        },
{
    let colon = find_char(text, ':', at, text.len());
    assert(text@.take(text.len() as int) == text@);
    if colon == at || colon >= text.len() {
        return None;
    }
    let first_end = find_line_end(text, colon + 1);
    let mut value: Vec<char> = Vec::new();
    push_trimmed(&mut value, text, colon + 1, first_end);
    assert(value@ == trim(text@.subrange(colon + 1, first_end as int)));
    let ghost first = value@;
    let mut end = first_end;
    loop
        invariant_except_break
            colon < end <= text.len(),
            continued(text@, first_end as int, first) == continued(text@, end as int, value@),
        ensures
            colon < end <= text.len(),
            continued(text@, first_end as int, first) == (value@, end as int),
        decreases text.len() - end,
    {
        let line = agree(text, "\r\n", end);
        proof {
            reveal_strlit("\r\n");
            assert("\r\n"@ =~= crlf());
        }
        if line == 2 && text.len() - end > 2 && (text[end + 2] == ' ' || text[end + 2] == '\t') {
            let next = find_line_end(text, end + 3);
            let ghost before = value@;
            value.push(' ');
            push_trimmed(&mut value, text, end + 3, next);
            assert(value@ =~= before + seq![' '] + trim(text@.subrange(end + 3, next as int)));
            end = next;
        } else {
            break;
        }
    }
    let last = agree(text, "\r\n", end);
    proof {
        reveal_strlit("\r\n");
        assert("\r\n"@ =~= crlf());
    }
    if last != 2 {
        return None;
    }
    let mut name: Vec<char> = Vec::new();
    let mut i = at;
    while i < colon
        invariant
            at <= i <= colon < text.len(),
            name@ == lower(text@.subrange(at as int, i as int)),
        decreases colon - i,
    {
        name.push(to_lower_char(text[i]));
        assert(lower(text@.subrange(at as int, i + 1)) =~= lower(text@.subrange(at as int, i as int)).push(
            lower_char(text@[i as int]),
        ));
        i += 1;
    }
    Some((string_of(&name), string_of(&value), end + 2))
}

/// The error for `message` at the index `at`, with line and column.
fn report(text: &Vec<char>, message: &str, at: usize) -> (error: ParseError)
    requires
        at <= text.len() < usize::MAX,
    ensures
        error@ == reported(text@, Failure { message: message@, at: at as int }),
{
    let mut line: usize = 1;
    let mut col: usize = 1;
    let mut i: usize = 0;
    while i < at
        invariant
            i <= at <= text.len() < usize::MAX,
            line == line_feeds(text@, i as int) + 1,
            col == line_offset(text@, i as int) + 1,
            line <= i + 1,
            col <= i + 1,
        decreases at - i,
    {
        if text[i] == '\n' {
            line += 1;
            col = 1;
        } else {
            col += 1;
        }
        i += 1;
    }
    ParseError { message: message.to_owned(), line, col }
}

/// The view of what parsing gave.
pub open spec fn result_view(r: Result<HttpRequest, ParseError>) -> Result<HttpRequestView, ParseErrorView> {
    match r {
        Ok(request) => Ok(request@),
        Err(error) => Err(error@),
    }
}

/// Parses a request.
pub fn parse_request(input: &str) -> (r: Result<HttpRequest, ParseError>)
    requires
        input@.len() < usize::MAX,
    ensures
        result_view(r) == parse_result(input@),
{
    let text = chars_of(input);
    let n = text.len();
    proof {
        reveal(parsed);
        reveal_strlit("\r\n");
        assert("\r\n"@ =~= crlf());
    }
    let method = agree(&text, "GET ", 0);
    proof {
        reveal_strlit("GET ");
    }
    if method < 4 {
        return Err(report(&text, "Expected 'GET '", method));
    }
    let url_end = find_char(&text, ' ', 4, n);
    assert(text@.take(n as int) == text@);
    if url_end == 4 {
        return Err(report(&text, "Expected an URL", 4));
    }
    let protocol = agree(&text, " HTTP/", url_end);
    proof {
        reveal_strlit(" HTTP/");
    }
    if protocol < 6 {
        return Err(report(&text, "Expected 'HTTP/'", url_end + protocol));
    }
    let major = url_end + 6;
    let major_end = find_digits_end(&text, major);
    if major_end == major {
        return Err(report(&text, "Expected a digit", major));
    }
    let major_version = match read_number(&text, major, major_end) {
        Some(v) => v,
        None => {
            return Err(report(&text, "Version number is too large", major));
        },
    };
    if !(major_end < n && text[major_end] == '.') {
        return Err(report(&text, "Expected '.'", major_end));
    }
    let minor = major_end + 1;
    let minor_end = find_digits_end(&text, minor);
    if minor_end == minor {
        return Err(report(&text, "Expected a digit", minor));
    }
    let minor_version = match read_number(&text, minor, minor_end) {
        Some(v) => v,
        None => {
            return Err(report(&text, "Version number is too large", minor));
        },
    };
    let line = agree(&text, "\r\n", minor_end);
    if line < 2 {
        return Err(report(&text, "Expected CRNL", minor_end + line));
    }
    let mut headers: Table<String> = Table::new();
    assert(entries(&headers) =~= Seq::<(Seq<char>, Seq<char>)>::empty());
    let mut at = minor_end + 2;
    loop
        invariant_except_break
            at <= n,
            n == text.len(),
            headers.wf(),
            headers_from(text@, minor_end + 2, Seq::empty()) == headers_from(text@, at as int, entries(&headers)),
        ensures
            at <= n,
            headers.wf(),
            headers_from(text@, minor_end + 2, Seq::empty()) == (entries(&headers), at as int),
        decreases n - at,
    {
        match read_header(&text, at) {
            Some((name, value, next)) => {
                set_text(&mut headers, name.as_str(), value);
                at = next;
            },
            None => {
                break;
            },
        }
    }
    let last = agree(&text, "\r\n", at);
    if last < 2 {
        return Err(report(&text, "Expected CRNL", at + last));
    }
    if at + 2 != n {
        return Err(report(&text, "Expected EOT", at + 2));
    }
    let url = string_of_range(&text, 4, url_end);
    Ok(
        HttpRequest {
            method: "GET".to_owned(),
            major_version,
            minor_version,
            url,
            headers,
            body: String::new(),
        },
    )
}

/// A parser of requests.
pub struct Parser {}

/// Makes a parser.
pub fn make_parser() -> Parser {
    Parser {  }
}

/// The view of what parsing gave, the error as its text.
pub open spec fn text_result_view(r: Result<HttpRequest, String>) -> Result<HttpRequestView, Seq<char>> {
    match r {
        Ok(request) => Ok(request@),
        Err(text) => Err(text@),
    }
}

impl Parser {
    /// Parses a request; an error comes as its text.
    pub fn parse(&self, input: &str) -> (r: Result<HttpRequest, String>)
        requires
            input@.len() < usize::MAX,
        ensures
            text_result_view(r) == (match parse_result(input@) {
                Ok(request) => Ok::<HttpRequestView, Seq<char>>(request),
                Err(error) => Err::<HttpRequestView, Seq<char>>(error_text(error)),
            }),
    {
        match parse_request(input) {
            Ok(request) => Ok(request),
            Err(error) => Err(error.to_str()),
        }
    }
}

} // verus!
