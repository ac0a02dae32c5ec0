//! Requests written out from their parts, and the proof that the parser
//! reads them back.
use crate::http_parser::{
    agreeing, continued, continues_at, crlf, digits_end, header_at, headers_from, is_digit, line_end, number,
    parsed, HttpRequestView,
};
use crate::table::bind;
use crate::text::{
    decimal, digit_char, find_from, is_lower, is_trimmed, lemma_find_from_is, lower, occurs_at, trim,
};
use vstd::prelude::*;

verus! {

/// A header as it is written: its name, the first line of its value, and
/// the continuation lines, each with the blank or tab that it begins
/// with.
pub struct HeaderLines {
    pub name: Seq<char>,
    pub first: Seq<char>,
    pub more: Seq<(char, Seq<char>)>,
}

/// Neither a carriage return nor a line feed stands in `line`.
pub open spec fn no_line_break(line: Seq<char>) -> bool {
    forall|i: int| 0 <= i < line.len() ==> #[trigger] line[i] != '\r' && line[i] != '\n'
}

/// What a continuation line begins with.
pub open spec fn is_blank_or_tab(c: char) -> bool {
    c == ' ' || c == '\t'
}

/// A header that can be written: the name is not empty, holds no colon
/// and does not begin like a continuation line; no line holds a line
/// break; every continuation line begins with a blank or a tab.
pub open spec fn header_is_writable(header: HeaderLines) -> bool {
    &&& header.name.len() > 0
    &&& !header.name.contains(':')
    &&& !is_blank_or_tab(header.name[0])
    &&& no_line_break(header.first)
    &&& forall|j: int|
        0 <= j < header.more.len() ==> is_blank_or_tab((#[trigger] header.more[j]).0) && no_line_break(
            header.more[j].1,
        )
}

/// The continuation lines from the `j`-th on, as they are written: a line
/// end, the blank or tab, the line.
pub open spec fn more_text(more: Seq<(char, Seq<char>)>, j: int) -> Seq<char>
    decreases more.len() - j,
{
    if j < 0 || j >= more.len() {
        Seq::empty()
    } else {
        crlf() + seq![more[j].0] + more[j].1 + more_text(more, j + 1)
    }
}

/// `sofar` with the continuation lines from the `j`-th on joined to it:
/// each trimmed, with exactly one blank before it.
pub open spec fn joined(sofar: Seq<char>, more: Seq<(char, Seq<char>)>, j: int) -> Seq<char>
    decreases more.len() - j,
{
    if j < 0 || j >= more.len() {
        sofar
    } else {
        joined(sofar + seq![' '] + trim(more[j].1), more, j + 1)
    }
}

/// The value that a written header is read with.
pub open spec fn header_value(header: HeaderLines) -> Seq<char> {
    joined(trim(header.first), header.more, 0)
}

/// A header as it is written.
pub open spec fn header_text(header: HeaderLines) -> Seq<char> {
    header.name + seq![':'] + header.first + more_text(header.more, 0) + crlf()
}

/// The headers from the `k`-th on, as they are written.
pub open spec fn headers_text(headers: Seq<HeaderLines>, k: int) -> Seq<char>
    decreases headers.len() - k,
{
    if k < 0 || k >= headers.len() {
        Seq::empty()
    } else {
        header_text(headers[k]) + headers_text(headers, k + 1)
    }
}

/// `sofar` with the headers from the `k`-th on bound to it in their
/// order, each name in lower case.
pub open spec fn bound(sofar: Seq<(Seq<char>, Seq<char>)>, headers: Seq<HeaderLines>, k: int) -> Seq<
    (Seq<char>, Seq<char>),
>
    decreases headers.len() - k,
{
    if k < 0 || k >= headers.len() {
        sofar
    } else {
        bound(bind(sofar, lower(headers[k].name), header_value(headers[k])), headers, k + 1)
    }
}

/// A numeral of a version: decimal digits, at least one, that write a
/// number which a `u64` holds.  Zeros may stand in front.
pub open spec fn is_numeral(digits: Seq<char>) -> bool {
    &&& digits.len() >= 1
    &&& forall|i: int| 0 <= i < digits.len() ==> is_digit(#[trigger] digits[i])
    &&& number(digits, 0, digits.len() as int) <= u64::MAX
}

/// The number that a numeral writes.
pub open spec fn numeral_value(digits: Seq<char>) -> u64 {
    number(digits, 0, digits.len() as int) as u64
}

/// The first line of a request.
pub open spec fn request_line(url: Seq<char>, major: Seq<char>, minor: Seq<char>) -> Seq<char> {
    "GET "@ + url + " HTTP/"@ + major + seq!['.'] + minor + crlf()
}

/// A request as it is written.
pub open spec fn request_text(url: Seq<char>, major: Seq<char>, minor: Seq<char>, headers: Seq<HeaderLines>) -> Seq<
    char,
> {
    request_line(url, major, minor) + headers_text(headers, 0) + crlf()
}

/// A request that can be written: the url is not empty and holds no
/// blank, the two parts of the version are numerals, and every header
/// can be written.
pub open spec fn is_writable(url: Seq<char>, major: Seq<char>, minor: Seq<char>, headers: Seq<HeaderLines>) -> bool {
    &&& url.len() > 0
    &&& !url.contains(' ')
    &&& is_numeral(major)
    &&& is_numeral(minor)
    &&& forall|k: int| 0 <= k < headers.len() ==> header_is_writable(#[trigger] headers[k])
}

/// A text that stands at a place agrees with itself there, all along.
proof fn lemma_agreeing(text: Seq<char>, expected: Seq<char>, at: int, done: int)
    requires
        0 <= done <= expected.len(),
        occurs_at(text, expected, at),
    ensures
        agreeing(text, expected, at, done) == expected.len(),
    decreases expected.len() - done,
{
    if done < expected.len() {
        assert(text.subrange(at, at + expected.len())[done] == expected[done]);
        lemma_agreeing(text, expected, at, done + 1);
    }
}

/// A line ends at the first line break.
proof fn lemma_line_end(text: Seq<char>, from: int, end: int)
    requires
        0 <= from <= end <= text.len(),
        forall|i: int| from <= i < end ==> #[trigger] text[i] != '\r' && text[i] != '\n',
        end < text.len() ==> text[end] == '\r' || text[end] == '\n',
    ensures
        line_end(text, from) == end,
    decreases end - from,
{
    if from < end {
        lemma_line_end(text, from + 1, end);
    }
}

/// A run of digits ends at the first character that is none.
proof fn lemma_digits_end(text: Seq<char>, from: int, end: int)
    requires
        0 <= from <= end <= text.len(),
        forall|i: int| from <= i < end ==> is_digit(#[trigger] text[i]),
        end < text.len() ==> !is_digit(text[end]),
    ensures
        digits_end(text, from) == end,
    decreases end - from,
{
    if from < end {
        lemma_digits_end(text, from + 1, end);
    }
}

/// The numeral of `n` is made of digits and writes `n`.
proof fn lemma_decimal(n: nat)
    ensures
        decimal(n).len() >= 1,
        forall|i: int| 0 <= i < decimal(n).len() ==> is_digit(#[trigger] decimal(n)[i]),
        number(decimal(n), 0, decimal(n).len() as int) == n,
    decreases n,
{
    let d = decimal(n);
    if n < 10 {
        assert(d == seq![digit_char(n as int)]);
        assert(d[0] == digit_char(n as int));
        assert(number(d, 0, 0) == 0);
        assert(number(d, 0, 1) == number(d, 0, 0) * 10 + ((d[0] as u8) - 48) as nat);
    } else {
        lemma_decimal(n / 10);
        let front = decimal(n / 10);
        assert(d == front.push(digit_char((n % 10) as int)));
        assert forall|i: int| 0 <= i < d.len() implies is_digit(#[trigger] d[i]) by {
            if i < front.len() {
                assert(d[i] == front[i]);
            }
        }
        lemma_number_of_prefix(d, front, front.len() as int);
        assert(number(d, 0, d.len() as int) == number(d, 0, d.len() - 1) * 10 + ((d[d.len() - 1] as u8) - 48) as nat);
    }
}

/// A number depends on its digits alone.
proof fn lemma_number_of_prefix(text: Seq<char>, other: Seq<char>, to: int)
    requires
        0 <= to <= other.len() <= text.len(),
        forall|i: int| 0 <= i < to ==> text[i] == other[i],
    ensures
        number(text, 0, to) == number(other, 0, to),
    decreases to,
{
    if to > 0 {
        lemma_number_of_prefix(text, other, to - 1);
    }
}

/// A number does not depend on where its digits stand.
proof fn lemma_number_shift(text: Seq<char>, digits: Seq<char>, from: int, to: int)
    requires
        0 <= from <= to <= text.len(),
        to - from <= digits.len(),
        forall|i: int| 0 <= i < to - from ==> text[from + i] == digits[i],
    ensures
        number(text, from, to) == number(digits, 0, to - from),
    decreases to - from,
{
    if from < to {
        lemma_number_shift(text, digits, from, to - 1);
    }
}

/// Where two texts stand one after the other, each stands at its place.
proof fn lemma_occurs_split(text: Seq<char>, at: int, front: Seq<char>, back: Seq<char>)
    requires
        occurs_at(text, front + back, at),
    ensures
        occurs_at(text, front, at),
        occurs_at(text, back, at + front.len()),
{
    let both = front + back;
    let window = text.subrange(at, at + both.len());
    assert forall|i: int| 0 <= i < front.len() implies text.subrange(at, at + front.len())[i] == front[i] by {
        assert(window[i] == both[i]);
    }
    assert(text.subrange(at, at + front.len()) =~= front);
    assert forall|i: int| 0 <= i < back.len() implies text.subrange(
        at + front.len(),
        at + front.len() + back.len(),
    )[i] == back[i] by {
        assert(window[front.len() + i] == both[front.len() + i]);
    }
    assert(text.subrange(at + front.len(), at + front.len() + back.len()) =~= back);
}

/// A text that stands at a place has each of its characters there.
proof fn lemma_occurs_chars(text: Seq<char>, at: int, word: Seq<char>)
    requires
        occurs_at(text, word, at),
    ensures
        forall|i: int| 0 <= i < word.len() ==> text[at + i] == #[trigger] word[i],
{
    assert forall|i: int| 0 <= i < word.len() implies text[at + i] == #[trigger] word[i] by {
        assert(text.subrange(at, at + word.len())[i] == text[at + i]);
    }
}

/// What is written behind the continuation lines from the `j`-th on
/// begins with a carriage return.
proof fn lemma_more_text_begins(more: Seq<(char, Seq<char>)>, j: int)
    requires
        0 <= j <= more.len(),
    ensures
        (more_text(more, j) + crlf())[0] == '\r',
{
    if j < more.len() {
        assert(more_text(more, j) == crlf() + seq![more[j].0] + more[j].1 + more_text(more, j + 1));
        assert(more_text(more, j)[0] == '\r');
    } else {
        assert(more_text(more, j) + crlf() =~= crlf());
    }
}

/// The continuation lines of a written header are read as they were
/// written.
proof fn lemma_continued(text: Seq<char>, at: int, sofar: Seq<char>, more: Seq<(char, Seq<char>)>, j: int)
    requires
        0 <= j <= more.len(),
        0 <= at,
        forall|i: int| 0 <= i < more.len() ==> is_blank_or_tab((#[trigger] more[i]).0) && no_line_break(more[i].1),
        occurs_at(text, more_text(more, j) + crlf(), at),
        at + more_text(more, j).len() + 2 < text.len() ==> !is_blank_or_tab(
            text[at + more_text(more, j).len() + 2],
        ),
    ensures
        continued(text, at, sofar) == (joined(sofar, more, j), at + more_text(more, j).len()),
    decreases more.len() - j,
{
    if j >= more.len() {
        assert(more_text(more, j) + crlf() =~= crlf());
        assert(!continues_at(text, at));
    } else {
        let lead = more[j].0;
        let line = more[j].1;
        let rest = more_text(more, j + 1) + crlf();
        let head = crlf() + seq![lead];
        assert(more_text(more, j) == crlf() + seq![lead] + line + more_text(more, j + 1));
        assert(more_text(more, j) + crlf() =~= head + (line + rest));
        lemma_occurs_split(text, at, head, line + rest);
        lemma_occurs_split(text, at, crlf(), seq![lead]);
        lemma_occurs_chars(text, at, head);
        assert(text[at + 2] == head[2]);
        assert(continues_at(text, at));
        lemma_occurs_split(text, at + 3, line, rest);
        lemma_occurs_chars(text, at + 3, line);
        let end: int = at + 3 + line.len();
        lemma_occurs_chars(text, end, rest);
        lemma_more_text_begins(more, j + 1);
        assert(text[end] == rest[0]);
        assert forall|i: int| at + 3 <= i < end implies #[trigger] text[i] != '\r' && text[i] != '\n' by {
            assert(text[at + 3 + (i - at - 3)] == line[i - at - 3]);
        }
        lemma_line_end(text, at + 3, end);
        lemma_continued(text, end, sofar + seq![' '] + trim(line), more, j + 1);
    }
}

/// A written header is read as it was written.
proof fn lemma_header_at(text: Seq<char>, at: int, header: HeaderLines)
    requires
        0 <= at,
        header_is_writable(header),
        occurs_at(text, header_text(header), at),
        at + header_text(header).len() < text.len() ==> !is_blank_or_tab(text[at + header_text(header).len()]),
    ensures
        header_at(text, at) == Some(
            (lower(header.name), header_value(header), at + header_text(header).len()),
        ),
        header_text(header).len() > 0,
{
    let name = header.name;
    let first = header.first;
    let more = more_text(header.more, 0);
    let rest = more + crlf();
    assert(header_text(header) =~= name + (seq![':'] + (first + rest)));
    lemma_occurs_split(text, at, name, seq![':'] + (first + rest));
    let colon: int = at + name.len();
    lemma_occurs_split(text, colon, seq![':'], first + rest);
    lemma_occurs_split(text, colon + 1, first, rest);
    lemma_occurs_chars(text, at, name);
    lemma_occurs_chars(text, colon, seq![':']);
    lemma_occurs_chars(text, colon + 1, first);
    assert(text[colon + 0] == seq![':'][0]);
    assert forall|i: int| at <= i < colon implies #[trigger] text[i] != ':' by {
        assert(text[at + (i - at)] == name[i - at]);
    }
    lemma_find_from_is(text, ':', at, colon);
    let first_end: int = colon + 1 + first.len();
    lemma_occurs_chars(text, first_end, rest);
    lemma_more_text_begins(header.more, 0);
    assert(text[first_end + 0] == rest[0]);
    assert forall|i: int| colon + 1 <= i < first_end implies #[trigger] text[i] != '\r' && text[i] != '\n' by {
        assert(text[colon + 1 + (i - colon - 1)] == first[i - colon - 1]);
    }
    lemma_line_end(text, colon + 1, first_end);
    lemma_continued(text, first_end, trim(first), header.more, 0);
    lemma_occurs_split(text, first_end, more, crlf());
}

/// Written headers, followed by the empty line that ends the request,
/// are read as they were written.
proof fn lemma_headers_from(
    text: Seq<char>,
    at: int,
    sofar: Seq<(Seq<char>, Seq<char>)>,
    headers: Seq<HeaderLines>,
    k: int,
)
    requires
        0 <= k <= headers.len(),
        0 <= at,
        forall|i: int| 0 <= i < headers.len() ==> header_is_writable(#[trigger] headers[i]),
        occurs_at(text, headers_text(headers, k) + crlf(), at),
        at + headers_text(headers, k).len() + 2 == text.len(),
    ensures
        headers_from(text, at, sofar) == (bound(sofar, headers, k), at + headers_text(headers, k).len()),
    decreases headers.len() - k,
{
    if k >= headers.len() {
        assert(headers_text(headers, k) + crlf() =~= crlf());
        lemma_occurs_chars(text, at, crlf());
        assert(text[at + 0] == crlf()[0] && text[at + 1] == crlf()[1]);
        lemma_find_from_is(text, ':', at, text.len() as int);
        assert(header_at(text, at) is None);
    } else {
        let header = headers[k];
        let one = header_text(header);
        let rest = headers_text(headers, k + 1) + crlf();
        assert(headers_text(headers, k) == one + headers_text(headers, k + 1));
        assert(headers_text(headers, k) + crlf() =~= one + rest);
        lemma_occurs_split(text, at, one, rest);
        lemma_occurs_chars(text, at + one.len(), rest);
        assert(text[at + one.len() + 0] == rest[0]);
        assert(!is_blank_or_tab(rest[0])) by {
            if k + 1 < headers.len() {
                let next = headers[k + 1];
                assert(headers_text(headers, k + 1) == header_text(next) + headers_text(headers, k + 2));
                assert(header_text(next)[0] == next.name[0]);
            } else {
                assert(rest =~= crlf());
            }
        }
        lemma_header_at(text, at, header);
        lemma_headers_from(
            text,
            at + one.len(),
            bind(sofar, lower(header.name), header_value(header)),
            headers,
            k + 1,
        );
    }
}

/// The request that is read from a written one.
pub open spec fn request_read(url: Seq<char>, major: Seq<char>, minor: Seq<char>, headers: Seq<HeaderLines>) -> HttpRequestView {
    HttpRequestView {
        method: "GET"@,
        major_version: numeral_value(major),
        minor_version: numeral_value(minor),
        url,
        headers: bound(Seq::empty(), headers, 0),
        body: Seq::empty(),
    }
}

/// The digits of a numeral that stands in a text are read as its number.
proof fn lemma_numeral_at(text: Seq<char>, at: int, digits: Seq<char>)
    requires
        0 <= at,
        is_numeral(digits),
        occurs_at(text, digits, at),
        at + digits.len() < text.len() ==> !is_digit(text[at + digits.len()]),
    ensures
        digits_end(text, at) == at + digits.len(),
        number(text, at, at + digits.len()) == numeral_value(digits),
{
    lemma_occurs_chars(text, at, digits);
    let end: int = at + digits.len();
    assert forall|i: int| at <= i < end implies is_digit(#[trigger] text[i]) by {
        assert(text[at + (i - at)] == digits[i - at]);
    }
    lemma_digits_end(text, at, end);
    lemma_number_shift(text, digits, at, end);
}

/// The first line of a written request is read as it was written.
proof fn lemma_request_line(text: Seq<char>, url: Seq<char>, major: Seq<char>, minor: Seq<char>)
    requires
        url.len() > 0,
        !url.contains(' '),
        is_numeral(major),
        is_numeral(minor),
        occurs_at(text, request_line(url, major, minor), 0),
    ensures
        ({
            let url_end = find_from(text, ' ', 4);
            let major_at = url_end + 6;
            let major_end = digits_end(text, major_at);
            let minor_at = major_end + 1;
            let minor_end = digits_end(text, minor_at);
            &&& agreeing(text, "GET "@, 0, 0) == 4
            &&& url_end == 4 + url.len()
            &&& text.subrange(4, url_end) == url
            &&& agreeing(text, " HTTP/"@, url_end, 0) == 6
            &&& major_end > major_at
            &&& number(text, major_at, major_end) == numeral_value(major)
            &&& major_end < text.len() && text[major_end] == '.'
            &&& minor_end > minor_at
            &&& number(text, minor_at, minor_end) == numeral_value(minor)
            &&& agreeing(text, crlf(), minor_end, 0) == 2
            &&& minor_end + 2 == request_line(url, major, minor).len()
        }),
{
    reveal_strlit("GET ");
    reveal_strlit(" HTTP/");
    let d1 = major;
    let d2 = minor;
    let dot = seq!['.'];
    let r5 = d2 + crlf();
    let r4 = dot + r5;
    let r3 = d1 + r4;
    let r2 = " HTTP/"@ + r3;
    let r1 = url + r2;
    assert(request_line(url, major, minor) =~= "GET "@ + r1);
    lemma_occurs_split(text, 0, "GET "@, r1);
    lemma_agreeing(text, "GET "@, 0, 0);
    lemma_occurs_split(text, 4, url, r2);
    let url_end: int = 4 + url.len() as int;
    lemma_occurs_split(text, url_end, " HTTP/"@, r3);
    lemma_occurs_chars(text, 4, url);
    lemma_occurs_chars(text, url_end, " HTTP/"@);
    assert(text[url_end + 0] == " HTTP/"@[0]);
    assert forall|i: int| 4 <= i < url_end implies #[trigger] text[i] != ' ' by {
        assert(text[4 + (i - 4)] == url[i - 4]);
    }
    lemma_find_from_is(text, ' ', 4, url_end);
    lemma_agreeing(text, " HTTP/"@, url_end, 0);
    let major_at: int = url_end + 6;
    lemma_occurs_split(text, major_at, d1, r4);
    let major_end: int = major_at + d1.len();
    lemma_occurs_split(text, major_end, dot, r5);
    lemma_occurs_chars(text, major_end, dot);
    assert(text[major_end + 0] == dot[0]);
    lemma_numeral_at(text, major_at, major);
    let minor_at: int = major_end + 1;
    lemma_occurs_split(text, minor_at, d2, crlf());
    let minor_end: int = minor_at + d2.len();
    lemma_occurs_chars(text, minor_end, crlf());
    assert(text[minor_end + 0] == crlf()[0]);
    lemma_numeral_at(text, minor_at, minor);
    lemma_agreeing(text, crlf(), minor_end, 0);
}

/// Every request that can be written is read back as it was written: the
/// method is `GET`, the url is the given one, the two parts of the
/// version are the numbers that their numerals write, and the headers
/// are bound in their order, each name in lower case, each value made of
/// its trimmed lines with exactly one blank between two.
pub proof fn lemma_written_request_is_read(
    url: Seq<char>,
    major: Seq<char>,
    minor: Seq<char>,
    headers: Seq<HeaderLines>,
)
    requires
        is_writable(url, major, minor, headers),
    ensures
        parsed(request_text(url, major, minor, headers)) == Ok::<HttpRequestView, crate::http_parser::Failure>(
            request_read(url, major, minor, headers),
        ),
{
    let text = request_text(url, major, minor, headers);
    let line = request_line(url, major, minor);
    let written = headers_text(headers, 0);
    let tail = written + crlf();
    let start: int = line.len() as int;
    let end: int = start + written.len();
    let none = Seq::<(Seq<char>, Seq<char>)>::empty();
    assert(occurs_at(text, line, 0) && occurs_at(text, tail, start) && text.len() == end + 2) by {
        assert(text =~= line + tail);
        assert(text.subrange(0, (line + tail).len() as int) =~= line + tail);
        lemma_occurs_split(text, 0, line, tail);
    }
    assert(headers_from(text, start, none) == (bound(none, headers, 0), end)) by {
        lemma_headers_from(text, start, none, headers, 0);
    }
    assert(agreeing(text, crlf(), end, 0) == 2) by {
        lemma_occurs_split(text, start, written, crlf());
        lemma_agreeing(text, crlf(), end, 0);
    }
    lemma_request_line(text, url, major, minor);
    reveal(parsed);
}

/// The decimal numeral of a number is a numeral that writes the number,
/// so that a request written with the numbers of its version is read
/// back with them.
pub proof fn lemma_decimal_is_numeral(n: u64)
    ensures
        is_numeral(decimal(n as nat)),
        numeral_value(decimal(n as nat)) == n,
{
    lemma_decimal(n as nat);
}

/// The headers that are read from written ones.  Every entry is a written
/// header: its name in lower case with the value made of its lines.
/// Every written header has an entry under its name in lower case, and
/// the last header with that name gives the value.
pub proof fn lemma_written_headers_are_bound(headers: Seq<HeaderLines>)
    ensures
        forall|i: int|
            0 <= i < bound(Seq::empty(), headers, 0).len() ==> exists|k: int|
                0 <= k < headers.len() && #[trigger] bound(Seq::empty(), headers, 0)[i] == (
                    lower(headers[k].name),
                    header_value(#[trigger] headers[k]),
                ),
        forall|k: int|
            0 <= k < headers.len() ==> is_last_bound(bound(Seq::empty(), headers, 0), headers, k),
{
    lemma_bound(Seq::empty(), headers, 0);
}

/// Under the name of the `k`-th header in lower case stands the value of
/// the last header with that name.
pub open spec fn is_last_bound(read: Seq<(Seq<char>, Seq<char>)>, headers: Seq<HeaderLines>, k: int) -> bool {
    exists|i: int, last: int|
        0 <= i < read.len() && k <= last < headers.len() && #[trigger] read[i] == (
            lower(headers[k].name),
            header_value(#[trigger] headers[last]),
        ) && lower(headers[last].name) == lower(headers[k].name) && forall|later: int|
            last < later < headers.len() ==> lower(#[trigger] headers[later].name) != lower(headers[k].name)
}

/// Each key of `entries` stands once.
pub open spec fn keys_are_distinct(entries: Seq<(Seq<char>, Seq<char>)>) -> bool {
    forall|i: int, j: int| 0 <= i < j < entries.len() ==> #[trigger] entries[i].0 != #[trigger] entries[j].0
}

/// Binding keeps keys distinct, puts the value under the key and leaves
/// every other entry's key and value as they are.
proof fn lemma_bind(entries: Seq<(Seq<char>, Seq<char>)>, key: Seq<char>, value: Seq<char>)
    requires
        keys_are_distinct(entries),
    ensures
        keys_are_distinct(bind(entries, key, value)),
        exists|i: int| 0 <= i < bind(entries, key, value).len() && #[trigger] bind(entries, key, value)[i] == (key, value),
        forall|i: int|
            0 <= i < bind(entries, key, value).len() ==> #[trigger] bind(entries, key, value)[i] == (key, value) || (
                i < entries.len() && bind(entries, key, value)[i] == entries[i]),
        forall|i: int|
            0 <= i < entries.len() && entries[i].0 != key ==> #[trigger] bind(entries, key, value)[i] == entries[i],
        bind(entries, key, value).len() >= entries.len(),
{
    let keys = entries.map_values(|e: (Seq<char>, Seq<char>)| e.0);
    let now = bind(entries, key, value);
    if keys.contains(key) {
        let at = keys.index_of(key);
        assert(keys[at] == key);
        assert(entries[at].0 == key);
        assert(now[at] == (key, value));
        assert forall|i: int, j: int| 0 <= i < j < now.len() implies #[trigger] now[i].0 != #[trigger] now[j].0 by {
            assert(now[i].0 == entries[i].0 && now[j].0 == entries[j].0);
        }
        assert forall|i: int| 0 <= i < entries.len() && entries[i].0 != key implies #[trigger] now[i]
            == entries[i] by {}
    } else {
        assert(now[entries.len() as int] == (key, value));
        assert forall|i: int, j: int| 0 <= i < j < now.len() implies #[trigger] now[i].0 != #[trigger] now[j].0 by {
            if j == entries.len() {
                assert(keys[i] == entries[i].0);
                assert(keys.contains(entries[i].0));
            }
        }
    }
}

/// What `bound` gives from the `k`-th header on, for entries whose keys
/// are distinct.
proof fn lemma_bound(sofar: Seq<(Seq<char>, Seq<char>)>, headers: Seq<HeaderLines>, k: int)
    requires
        0 <= k <= headers.len(),
        keys_are_distinct(sofar),
    ensures
        keys_are_distinct(bound(sofar, headers, k)),
        bound(sofar, headers, k).len() >= sofar.len(),
        forall|i: int|
            0 <= i < bound(sofar, headers, k).len() ==> (i < sofar.len() && #[trigger] bound(sofar, headers, k)[i]
                == sofar[i]) || exists|j: int|
                k <= j < headers.len() && bound(sofar, headers, k)[i] == (
                    lower(headers[j].name),
                    header_value(#[trigger] headers[j]),
                ),
        forall|i: int|
            0 <= i < sofar.len() && (forall|j: int|
                k <= j < headers.len() ==> lower(#[trigger] headers[j].name) != sofar[i].0) ==> #[trigger] bound(
                sofar,
                headers,
                k,
            )[i] == sofar[i],
        forall|j: int| k <= j < headers.len() ==> is_last_bound(bound(sofar, headers, k), headers, j),
    decreases headers.len() - k,
{
    if k < headers.len() {
        let name = lower(headers[k].name);
        let value = header_value(headers[k]);
        let next = bind(sofar, name, value);
        lemma_bind(sofar, name, value);
        lemma_bound(next, headers, k + 1);
        let read = bound(sofar, headers, k);
        assert(read == bound(next, headers, k + 1));
        assert forall|i: int| 0 <= i < read.len() implies (i < sofar.len() && #[trigger] read[i] == sofar[i])
            || exists|j: int|
            k <= j < headers.len() && read[i] == (lower(headers[j].name), header_value(#[trigger] headers[j])) by {
            if i < next.len() && read[i] == next[i] {
                if next[i] == (name, value) {
                    assert(read[i] == (lower(headers[k].name), header_value(headers[k])));
                }
            }
        }
        assert forall|j: int| k <= j < headers.len() implies is_last_bound(read, headers, j) by {
            if j > k {
                assert(is_last_bound(bound(next, headers, k + 1), headers, j));
            } else {
                if exists|later: int| k < later < headers.len() && lower(#[trigger] headers[later].name) == name {
                    let later = choose|later: int|
                        k < later < headers.len() && lower(#[trigger] headers[later].name) == name;
                    assert(is_last_bound(read, headers, later));
                    let (i, last) = choose|i: int, last: int|
                        0 <= i < read.len() && later <= last < headers.len() && #[trigger] read[i] == (
                            lower(headers[later].name),
                            header_value(#[trigger] headers[last]),
                        ) && lower(headers[last].name) == lower(headers[later].name) && forall|more: int|
                            last < more < headers.len() ==> lower(#[trigger] headers[more].name) != lower(
                                headers[later].name,
                            );
                    assert(read[i] == (lower(headers[k].name), header_value(headers[last])));
                } else {
                    let at = choose|i: int| 0 <= i < next.len() && #[trigger] next[i] == (name, value);
                    assert(next[at].0 == name);
                    assert(read[at] == next[at]);
                    assert(read[at] == (lower(headers[k].name), header_value(headers[k])));
                }
            }
        }
        assert forall|i: int|
            0 <= i < sofar.len() && (forall|j: int|
                k <= j < headers.len() ==> lower(#[trigger] headers[j].name) != sofar[i].0) implies #[trigger] read[i]
            == sofar[i] by {
            assert(lower(headers[k].name) != sofar[i].0);
            assert(next[i] == sofar[i]);
        }
    }
}

/// The values of the headers that are read from written ones have
/// whitespace at neither end, where no header has a blank line at the
/// front or at the end of a value of several lines.
pub proof fn lemma_written_values_are_trimmed(headers: Seq<HeaderLines>)
    requires
        forall|k: int| 0 <= k < headers.len() ==> lines_are_tidy(#[trigger] headers[k]),
    ensures
        forall|i: int|
            0 <= i < bound(Seq::empty(), headers, 0).len() ==> is_trimmed(
                #[trigger] bound(Seq::empty(), headers, 0)[i].1,
            ) && is_lower(bound(Seq::empty(), headers, 0)[i].0),
{
    lemma_written_headers_are_bound(headers);
    let read = bound(Seq::<(Seq<char>, Seq<char>)>::empty(), headers, 0);
    assert forall|i: int| 0 <= i < read.len() implies is_trimmed(#[trigger] read[i].1) && is_lower(read[i].0) by {
        let k = choose|k: int|
            0 <= k < headers.len() && read[i] == (lower(headers[k].name), header_value(#[trigger] headers[k]));
        lemma_header_value_is_trimmed(headers[k]);
        crate::text::lemma_lower_is_lower(headers[k].name);
    }
}

/// Joining keeps what is there: the joined value begins with `sofar`.
proof fn lemma_joined_keeps_front(sofar: Seq<char>, more: Seq<(char, Seq<char>)>, j: int)
    requires
        0 <= j <= more.len(),
    ensures
        joined(sofar, more, j).len() >= sofar.len(),
        forall|i: int| 0 <= i < sofar.len() ==> joined(sofar, more, j)[i] == sofar[i],
    decreases more.len() - j,
{
    if j < more.len() {
        let next = sofar + seq![' '] + trim(more[j].1);
        lemma_joined_keeps_front(next, more, j + 1);
        assert forall|i: int| 0 <= i < sofar.len() implies joined(sofar, more, j)[i] == sofar[i] by {
            assert(next[i] == sofar[i]);
        }
    }
}

/// The joined value ends with the last line, trimmed.
proof fn lemma_joined_end(sofar: Seq<char>, more: Seq<(char, Seq<char>)>, j: int)
    requires
        0 <= j < more.len(),
        trim(more.last().1).len() > 0,
    ensures
        joined(sofar, more, j).len() > 0,
        joined(sofar, more, j).last() == trim(more.last().1).last(),
    decreases more.len() - j,
{
    let next = sofar + seq![' '] + trim(more[j].1);
    if j + 1 < more.len() {
        lemma_joined_end(next, more, j + 1);
    } else {
        assert(joined(next, more, j + 1) == next);
        assert(joined(sofar, more, j) == next);
        assert(more[j] == more.last());
        assert(next.last() == trim(more[j].1).last());
    }
}

/// The value of the header is one line, or neither its first nor its
/// last line is blank.
pub open spec fn lines_are_tidy(header: HeaderLines) -> bool {
    header.more.len() == 0 || (trim(header.first).len() > 0 && trim(header.more.last().1).len() > 0)
}

/// The value of a header has whitespace at neither end, where it is one
/// line or neither its first nor its last line is blank.
pub proof fn lemma_header_value_is_trimmed(header: HeaderLines)
    requires
        lines_are_tidy(header),
    ensures
        is_trimmed(header_value(header)),
{
    let first = trim(header.first);
    crate::text::lemma_trim_is_trimmed(header.first);
    lemma_joined_keeps_front(first, header.more, 0);
    if header.more.len() > 0 {
        lemma_joined_end(first, header.more, 0);
        crate::text::lemma_trim_is_trimmed(header.more.last().1);
    }
}

/// Binding a name in lower case keeps all names in lower case.
proof fn lemma_bind_keeps_lower(sofar: Seq<(Seq<char>, Seq<char>)>, name: Seq<char>, value: Seq<char>)
    requires
        forall|i: int| 0 <= i < sofar.len() ==> is_lower(#[trigger] sofar[i].0),
        is_lower(name),
    ensures
        forall|i: int| 0 <= i < bind(sofar, name, value).len() ==> is_lower(#[trigger] bind(sofar, name, value)[i].0),
{
}

/// Reading headers keeps all names in lower case.
proof fn lemma_headers_from_lower(text: Seq<char>, at: int, sofar: Seq<(Seq<char>, Seq<char>)>)
    requires
        forall|i: int| 0 <= i < sofar.len() ==> is_lower(#[trigger] sofar[i].0),
    ensures
        forall|i: int|
            0 <= i < headers_from(text, at, sofar).0.len() ==> is_lower(
                #[trigger] headers_from(text, at, sofar).0[i].0,
            ),
    decreases text.len() - at,
{
    match header_at(text, at) {
        Some((name, value, next)) => {
            if at < next <= text.len() {
                let colon = find_from(text, ':', at);
                assert(name == lower(text.subrange(at, colon)));
                crate::text::lemma_lower_is_lower(text.subrange(at, colon));
                lemma_bind_keeps_lower(sofar, name, value);
                lemma_headers_from_lower(text, next, bind(sofar, name, value));
                assert(headers_from(text, at, sofar) == headers_from(text, next, bind(sofar, name, value)));
            }
        },
        None => {},
    }
}

/// Of every text that is read as a request, the method is `GET`, the
/// body is empty, and no name of a header holds an ASCII capital.
pub proof fn lemma_read_request_is_tidy(text: Seq<char>)
    requires
        parsed(text) is Ok,
    ensures
        parsed(text)->Ok_0.method == "GET"@,
        parsed(text)->Ok_0.body.len() == 0,
        forall|i: int|
            0 <= i < parsed(text)->Ok_0.headers.len() ==> is_lower(#[trigger] parsed(text)->Ok_0.headers[i].0),
{
    reveal(parsed);
    let major_end = digits_end(text, find_from(text, ' ', 4) + 6);
    let minor_end = digits_end(text, major_end + 1);
    lemma_headers_from_lower(text, minor_end + 2, Seq::empty());
}

} // verus!
