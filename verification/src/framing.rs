//! Turns a finished response into the header text and the body that go on
//! the wire.
use crate::body::{body_len, body_size, Body};
use crate::message::Response;
use crate::table::{entries, text_at, Table};
use crate::text::{decimal, decimal_string, str_eq, upper_hex, upper_hex_string};
use vstd::prelude::*;
use vstd::string::*;

verus! {

/// The line end of the protocol.
pub open spec fn crlf() -> Seq<char> {
    seq!['\r', '\n']
}

/// One header as it is written: name, colon, blank, value, line end.
pub open spec fn header_line(name: Seq<char>, value: Seq<char>) -> Seq<char> {
    name + seq![':', ' '] + value + crlf()
}

/// The response declares a length of its own.
pub open spec fn has_content_length(headers: &Table<String>) -> bool {
    headers.has("Content-Length"@)
}

/// The response asks for chunked transfer.
pub open spec fn is_chunked(headers: &Table<String>) -> bool {
    text_at(headers, "Transfer-Encoding"@) == Some("chunked"@)
}

/// The value written for a header: a `Content-Length` of `0` stands for
/// "the length of the body", every other value for itself.
pub open spec fn written_value(name: Seq<char>, value: Seq<char>, len: nat) -> Seq<char> {
    if name == "Content-Length"@ && value == "0"@ {
        decimal(len)
    } else {
        value
    }
}

/// The headers that are written for a body of `len` bytes, in order: those
/// of the response, then a computed `Content-Length` where the response
/// neither declares one nor is chunked.
pub open spec fn written_headers(headers: &Table<String>, len: nat) -> Seq<(Seq<char>, Seq<char>)> {
    let own = Seq::new(
        entries(headers).len(),
        |i: int| (entries(headers)[i].0, written_value(entries(headers)[i].0, entries(headers)[i].1, len)),
    );
    if is_chunked(headers) || has_content_length(headers) {
        own
    } else {
        own.push(("Content-Length"@, decimal(len)))
    }
}

/// The lines of `headers`, one after the other.
pub open spec fn lines_text(headers: Seq<(Seq<char>, Seq<char>)>) -> Seq<char>
    decreases headers.len(),
{
    if headers.len() == 0 {
        Seq::empty()
    } else {
        lines_text(headers.drop_last()) + header_line(headers.last().0, headers.last().1)
    }
}

/// The whole header: status line, headers, blank line.
pub open spec fn header_text(status: Seq<char>, headers: &Table<String>, len: nat) -> Seq<char> {
    "HTTP/1.1 "@ + status + crlf() + lines_text(written_headers(headers, len)) + crlf()
}

/// `out` is `body` as one chunk: its length in hexadecimal and a line end
/// before it, a line end after it.
pub open spec fn is_single_chunk(out: Body, body: Body) -> bool {
    &&& out matches Body::CompoundBody(parts)
    &&& parts@.len() == 3
    &&& parts@[0] matches Body::StringBody(head)
    &&& head@ == upper_hex(body_size(body)) + crlf()
    &&& parts@[1] == body
    &&& parts@[2] matches Body::StringBody(tail)
    &&& tail@ == crlf()
}

/// A response that can be framed: the length of its body fits a `usize`,
/// and it does not both declare a length and ask for chunked transfer.
pub open spec fn framable(headers: &Table<String>, body: Body) -> bool {
    &&& body_size(body) <= usize::MAX
    &&& !(is_chunked(headers) && has_content_length(headers))
}

/// The header text for `response` with `body`, and the body as it goes out:
/// unchanged, or wrapped as a single chunk where the response is chunked.
pub fn make_header_and_body(response: &Response, body: Body) -> (out: (String, Body))
    requires
        framable(&response.headers, body),
    ensures
        out.0@ == header_text(response.status@, &response.headers, body_size(body)),
        is_chunked(&response.headers) ==> is_single_chunk(out.1, body),
        !is_chunked(&response.headers) ==> out.1 == body,
{
    let len = body_len(&body);
    let count = response.headers.len();
    let ghost all = written_headers(&response.headers, len as nat);
    let ghost given = entries(&response.headers);
    let mut headers = String::new();
    let mut has_content_len = false;
    let mut chunked = false;
    let mut i: usize = 0;
    while i < count
        invariant
            i <= count,
            count == response.headers.keys().len(),
            response.headers.wf(),
            given == entries(&response.headers),
            all == written_headers(&response.headers, len as nat),
            headers@ == lines_text(all.take(i as int)),
            has_content_len == exists|j: int| 0 <= j < i && given[j].0 == "Content-Length"@,
            chunked == exists|j: int|
                0 <= j < i && given[j].0 == "Transfer-Encoding"@ && given[j].1 == "chunked"@,
        decreases count - i,
    {
        let name = response.headers.key_at(i);
        let value = response.headers.value_at(i);
        let is_length = str_eq(name.as_str(), "Content-Length");
        if is_length {
            has_content_len = true;
        } else if str_eq(name.as_str(), "Transfer-Encoding") && str_eq(value.as_str(), "chunked") {
            chunked = true;
        }
        proof {
            assert(given[i as int] == (name@, value@));
            reveal_strlit("Content-Length");
            reveal_strlit("Transfer-Encoding");
            assert("Content-Length"@ != "Transfer-Encoding"@) by {
                assert("Content-Length"@[0] != "Transfer-Encoding"@[0]);
            }
            assert(all.take(i + 1).drop_last() == all.take(i as int));
            assert(all.take(i + 1).last() == (name@, written_value(name@, value@, len as nat)));
        }
        headers.append(name.as_str());
        headers.append(": ");
        if is_length && str_eq(value.as_str(), "0") {
            let digits = decimal_string(len as u64);
            headers.append(digits.as_str());
        } else {
            headers.append(value.as_str());
        }
        headers.append("\r\n");
        proof {
            reveal_strlit(": ");
            reveal_strlit("\r\n");
            assert(": "@ == seq![':', ' ']);
            assert("\r\n"@ == crlf());
        }
        i += 1;
    }
    proof {
        lemma_table_lookup(&response.headers, "Content-Length"@);
        lemma_table_lookup(&response.headers, "Transfer-Encoding"@);
        assert(has_content_len == has_content_length(&response.headers));
        assert(chunked == is_chunked(&response.headers)) by {
            if is_chunked(&response.headers) {
                let k = response.headers.keys().index_of("Transfer-Encoding"@);
                assert(given[k].0 == "Transfer-Encoding"@ && given[k].1 == "chunked"@);
            }
            if chunked {
                let j = choose|j: int|
                    0 <= j < count && given[j].0 == "Transfer-Encoding"@ && given[j].1 == "chunked"@;
                crate::table::lemma_index_of_distinct(response.headers.keys(), "Transfer-Encoding"@, j);
            }
        }
    }
    if !chunked && !has_content_len {
        let digits = decimal_string(len as u64);
        headers.append("Content-Length: ");
        headers.append(digits.as_str());
        headers.append("\r\n");
        proof {
            reveal_strlit("Content-Length: ");
            reveal_strlit("Content-Length");
            reveal_strlit("\r\n");
            assert("Content-Length: "@ == "Content-Length"@ + seq![':', ' ']);
            assert("\r\n"@ == crlf());
            assert(all.drop_last() == all.take(count as int));
            assert(all.last() == ("Content-Length"@, decimal(len as nat)));
        }
    } else {
        assert(all.take(count as int) == all);
    }
    let mut header = "HTTP/1.1 ".to_owned();
    header.append(response.status.as_str());
    header.append("\r\n");
    header.append(headers.as_str());
    header.append("\r\n");
    proof {
        reveal_strlit("\r\n");
        assert("\r\n"@ == crlf());
    }
    if chunked {
        let mut head = upper_hex_string(len as u64);
        head.append("\r\n");
        let mut parts: Vec<Body> = Vec::new();
        parts.push(Body::StringBody(head));
        parts.push(body);
        parts.push(Body::StringBody("\r\n".to_owned()));
        (header, Body::CompoundBody(parts))
    } else {
        (header, body)
    }
}

/// A key is in a table exactly where some entry carries it.
pub proof fn lemma_table_lookup(t: &Table<String>, key: Seq<char>)
    requires
        t.wf(),
    ensures
        t.has(key) <==> exists|j: int| 0 <= j < entries(t).len() && entries(t)[j].0 == key,
        t.has(key) ==> 0 <= t.keys().index_of(key) < entries(t).len() && entries(t)[t.keys().index_of(
            key,
        )] == (key, t.at(key)@),
{
    if t.has(key) {
        let k = t.keys().index_of(key);
        assert(entries(t)[k].0 == key);
    }
    if exists|j: int| 0 <= j < entries(t).len() && entries(t)[j].0 == key {
        let j = choose|j: int| 0 <= j < entries(t).len() && entries(t)[j].0 == key;
        assert(t.keys()[j] == key);
    }
}

/// The places of the written headers named `Content-Length`.
pub open spec fn length_headers(written: Seq<(Seq<char>, Seq<char>)>) -> Set<int> {
    Set::new(|i: int| 0 <= i < written.len() && written[i].0 == "Content-Length"@)
}

/// Of a response whose own `Content-Length`, where it has one, is the
/// placeholder `0` or the true length, exactly one of two things is
/// written: a single `Content-Length` that equals the byte length of the
/// body and no chunked transfer, or chunked transfer and no
/// `Content-Length` at all.
pub proof fn lemma_framing(headers: &Table<String>, body: Body)
    requires
        headers.wf(),
        framable(headers, body),
        has_content_length(headers) ==> text_at(headers, "Content-Length"@) == Some("0"@) || text_at(
            headers,
            "Content-Length"@,
        ) == Some(decimal(body_size(body))),
    ensures
        ({
            let written = written_headers(headers, body_size(body));
            if is_chunked(headers) {
                length_headers(written) == Set::<int>::empty()
            } else {
                exists|i: int|
                    0 <= i < written.len() && written[i] == ("Content-Length"@, decimal(body_size(body)))
                        && length_headers(written) == set![i]
            }
        }),
{
    let len = body_size(body);
    let written = written_headers(headers, len);
    let given = entries(headers);
    lemma_table_lookup(headers, "Content-Length"@);
    if is_chunked(headers) {
        assert forall|i: int| !length_headers(written).contains(i) by {
            if 0 <= i < written.len() && written[i].0 == "Content-Length"@ {
                assert(given[i].0 == "Content-Length"@);
            }
        }
        assert(length_headers(written) == Set::<int>::empty());
    } else if has_content_length(headers) {
        let k = headers.keys().index_of("Content-Length"@);
        assert(written[k] == ("Content-Length"@, decimal(len)));
        assert forall|i: int| length_headers(written).contains(i) <==> i == k by {
            if 0 <= i < written.len() && written[i].0 == "Content-Length"@ {
                crate::table::lemma_index_of_distinct(headers.keys(), "Content-Length"@, i);
            }
        }
        assert(length_headers(written) == set![k]);
    } else {
        let k = given.len() as int;
        assert(written[k] == ("Content-Length"@, decimal(len)));
        assert forall|i: int| length_headers(written).contains(i) <==> i == k by {
            if 0 <= i < k && written[i].0 == "Content-Length"@ {
                assert(given[i].0 == "Content-Length"@);
            }
        }
        assert(length_headers(written) == set![k]);
    }
}

/// A response that declares the length `0` is written with the true
/// length of its body in that header's place.
pub proof fn lemma_content_length_substitution(headers: &Table<String>, len: nat)
    requires
        headers.wf(),
        text_at(headers, "Content-Length"@) == Some("0"@),
    ensures
        ({
            let at = headers.keys().index_of("Content-Length"@);
            let written = written_headers(headers, len);
            &&& 0 <= at < written.len()
            &&& written[at] == ("Content-Length"@, decimal(len))
            &&& forall|i: int|
                0 <= i < written.len() && written[i].0 == "Content-Length"@ ==> written[i].1 == decimal(len)
        }),
{
    let written = written_headers(headers, len);
    lemma_table_lookup(headers, "Content-Length"@);
    assert forall|i: int| 0 <= i < written.len() && written[i].0 == "Content-Length"@ implies written[i].1
        == decimal(len) by {
        crate::table::lemma_index_of_distinct(headers.keys(), "Content-Length"@, i);
    }
}

/// Whether `response` can be framed with its own body.
pub fn is_framable(response: &Response) -> (r: bool)
    ensures
        r == framable(&response.headers, response.body),
{
    let declared = response.headers.contains_key("Content-Length");
    let chunked = match response.headers.get("Transfer-Encoding") {
        Some(value) => str_eq(value.as_str(), "chunked"),
        None => false,
    };
    let fits = crate::body::checked_body_len(&response.body).is_some();
    fits && !(chunked && declared)
}

/// One pushed event as a chunk: its length in bytes in hexadecimal, a
/// line end, the event, a line end.
pub open spec fn chunk_text(event: Seq<char>) -> Seq<char> {
    upper_hex(vstd::utf8::encode_utf8(event).len()) + crlf() + event + crlf()
}

/// The chunk that carries `event`.
pub fn event_chunk(event: &str) -> (chunk: String)
    ensures
        chunk@ == chunk_text(event@),
{
    let size = event.as_bytes().len();
    let mut chunk = upper_hex_string(size as u64);
    chunk.append("\r\n");
    chunk.append(event);
    chunk.append("\r\n");
    proof {
        reveal_strlit("\r\n");
        assert("\r\n"@ =~= crlf());
    }
    chunk
}

/// The chunk of length zero that ends a chunked body.
pub fn last_chunk() -> (chunk: String)
    ensures
        chunk@ == seq!['0', '\r', '\n', '\r', '\n'],
{
    let chunk = "0\r\n\r\n".to_owned();
    proof {
        reveal_strlit("0\r\n\r\n");
        assert("0\r\n\r\n"@ =~= seq!['0', '\r', '\n', '\r', '\n']);
    }
    chunk
}

/// The empty line that ends the headers of a request stands at `at`.
pub open spec fn ends_headers(bytes: Seq<u8>, at: int) -> bool {
    &&& 0 <= at
    &&& at + 4 <= bytes.len()
    &&& bytes[at] == 13
    &&& bytes[at + 1] == 10
    &&& bytes[at + 2] == 13
    &&& bytes[at + 3] == 10
}

/// Whether what was read so far holds the empty line that ends the
/// headers of a request.
pub fn has_all_headers(bytes: &Vec<u8>) -> (r: bool)
    ensures
        r == exists|at: int| ends_headers(bytes@, at),
{
    let n = bytes.len();
    let mut at: usize = 0;
    while n - at >= 4
        invariant
            n == bytes.len(),
            at <= n,
            forall|i: int| 0 <= i < at ==> !ends_headers(bytes@, i),
        decreases n - at,
    {
        if bytes[at] == 13 && bytes[at + 1] == 10 && bytes[at + 2] == 13 && bytes[at + 3] == 10 {
            assert(ends_headers(bytes@, at as int));
            return true;
        }
        at += 1;
    }
    false
}

} // verus!
