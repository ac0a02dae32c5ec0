//! The payload of a response: text, bytes, or a sequence of payloads that
//! go out one after the other.
use vstd::prelude::*;
use vstd::string::*;
use vstd::utf8::*;

verus! {

/// The payload of a response.
pub enum Body {
    StringBody(String),
    BinaryBody(Vec<u8>),
    CompoundBody(Vec<Body>),
}

/// A body as a value of the mathematics: its texts and bytes by their
/// views.
pub enum BodyView {
    Text(Seq<char>),
    Bytes(Seq<u8>),
    Parts(Seq<BodyView>),
}

/// The view of `body`.
pub open spec fn body_view(body: Body) -> BodyView
    decreases body,
{
    match body {
        Body::StringBody(text) => BodyView::Text(text@),
        Body::BinaryBody(bytes) => BodyView::Bytes(bytes@),
        Body::CompoundBody(parts) => BodyView::Parts(parts_view(parts@, parts@.len() as int)),
    }
}

/// The views of the first `n` parts.
pub open spec fn parts_view(parts: Seq<Body>, n: int) -> Seq<BodyView>
    decreases parts, n,
{
    if n <= 0 || n > parts.len() {
        Seq::empty()
    } else {
        parts_view(parts, n - 1).push(body_view(parts[n - 1]))
    }
}

impl View for Body {
    type V = BodyView;

    open spec fn view(&self) -> BodyView {
        body_view(*self)
    }
}

/// The bytes that `body` puts on the wire: text in UTF-8, bytes as they
/// are, the parts of a compound one after the other.
pub open spec fn body_bytes(body: Body) -> Seq<u8>
    decreases body,
{
    match body {
        Body::StringBody(text) => encode_utf8(text@),
        Body::BinaryBody(bytes) => bytes@,
        Body::CompoundBody(parts) => parts_bytes(parts@, parts@.len() as int),
    }
}

/// The bytes of the first `n` parts.
pub open spec fn parts_bytes(parts: Seq<Body>, n: int) -> Seq<u8>
    decreases parts, n,
{
    if n <= 0 || n > parts.len() {
        Seq::empty()
    } else {
        parts_bytes(parts, n - 1) + body_bytes(parts[n - 1])
    }
}

/// The number of bytes that `body` puts on the wire.
pub open spec fn body_size(body: Body) -> nat {
    body_bytes(body).len()
}

/// The byte length of `body`: the sum over its leaves.
pub fn body_len(body: &Body) -> (n: usize)
    requires
        body_size(*body) <= usize::MAX,
    ensures
        n == body_size(*body),
    decreases *body, 0int,
{
    match body {
        Body::StringBody(text) => text.as_str().len(),
        Body::BinaryBody(bytes) => bytes.len(),
        Body::CompoundBody(parts) => parts_len(parts, parts.len()),
    }
}

/// The byte length of the first `n` parts.
fn parts_len(parts: &Vec<Body>, n: usize) -> (total: usize)
    requires
        n <= parts.len(),
        parts_bytes(parts@, n as int).len() <= usize::MAX,
    ensures
        total == parts_bytes(parts@, n as int).len(),
    decreases *parts, n,
{
    if n == 0 {
        0
    } else {
        let before = parts_len(parts, n - 1);
        let part = body_len(&parts[n - 1]);
        before + part
    }
}

/// The byte length of `body`, or `None` where it is more than a `usize`
/// can hold.
pub fn checked_body_len(body: &Body) -> (r: Option<usize>)
    ensures
        match r {
            Some(n) => n == body_size(*body),
            None => body_size(*body) > usize::MAX,
        },
    decreases *body, 0int,
{
    match body {
        Body::StringBody(text) => {
            let bytes = text.as_str().as_bytes();
            Some(bytes.len())
        },
        Body::BinaryBody(bytes) => Some(bytes.len()),
        Body::CompoundBody(parts) => checked_parts_len(parts, parts.len()),
    }
}

/// The byte length of the first `n` parts, or `None` where it is more
/// than a `usize` can hold.
fn checked_parts_len(parts: &Vec<Body>, n: usize) -> (r: Option<usize>)
    requires
        n <= parts.len(),
    ensures
        match r {
            Some(total) => total == parts_bytes(parts@, n as int).len(),
            None => parts_bytes(parts@, n as int).len() > usize::MAX,
        },
    decreases *parts, n,
{
    if n == 0 {
        Some(0)
    } else {
        match checked_parts_len(parts, n - 1) {
            Some(before) => match checked_body_len(&parts[n - 1]) {
                Some(part) => before.checked_add(part),
                None => None,
            },
            None => None,
        }
    }
}

/// Appends the wire bytes of `body` to `out`.
pub fn write_body(out: &mut Vec<u8>, body: &Body)
    ensures
        final(out)@ == old(out)@ + body_bytes(*body),
    decreases *body, 0int,
{
    match body {
        Body::StringBody(text) => {
            let bytes = text.as_str().as_bytes();
            let mut i: usize = 0;
            while i < bytes.len()
                invariant
                    i <= bytes.len(),
                    out@ == old(out)@ + bytes@.take(i as int),
                decreases bytes.len() - i,
            {
                out.push(bytes[i]);
                i += 1;
            }
            assert(bytes@.take(bytes.len() as int) == bytes@);
        },
        Body::BinaryBody(bytes) => {
            let mut i: usize = 0;
            while i < bytes.len()
                invariant
                    i <= bytes.len(),
                    out@ == old(out)@ + bytes@.take(i as int),
                decreases bytes.len() - i,
            {
                out.push(bytes[i]);
                i += 1;
            }
            assert(bytes@.take(bytes.len() as int) == bytes@);
        },
        Body::CompoundBody(parts) => {
            write_parts(out, parts, parts.len());
        },
    }
}

/// Appends the wire bytes of the first `n` parts to `out`.
fn write_parts(out: &mut Vec<u8>, parts: &Vec<Body>, n: usize)
    requires
        n <= parts.len(),
    ensures
        final(out)@ == old(out)@ + parts_bytes(parts@, n as int),
    decreases *parts, n,
{
    if n > 0 {
        write_parts(out, parts, n - 1);
        write_body(out, &parts[n - 1]);
    }
}

impl Body {
    /// A body of text.  Its length fits a `usize`, as that of every
    /// string does.
    pub fn text(text: String) -> (body: Body)
        ensures
            body == Body::StringBody(text),
            body@ == BodyView::Text(text@),
            body_size(body) <= usize::MAX,
    {
        let size = text.as_str().as_bytes().len();
        Body::StringBody(text)
    }

    /// A body of bytes.  Its length fits a `usize`, as that of every
    /// vector does.
    pub fn binary(bytes: Vec<u8>) -> (body: Body)
        ensures
            body == Body::BinaryBody(bytes),
            body@ == BodyView::Bytes(bytes@),
            body_size(body) <= usize::MAX,
    {
        let size = bytes.len();
        Body::BinaryBody(bytes)
    }

    /// The wire bytes of the body as text, where they are UTF-8.
    pub fn to_str(&self) -> (text: Option<String>)
        ensures
            text is Some <==> valid_utf8(body_bytes(*self)),
            text matches Some(t) ==> encode_utf8(t@) == body_bytes(*self),
    {
        match String::from_utf8(self.to_bytes()) {
            Ok(text) => Some(text),
            Err(_) => None,
        }
    }

    /// The wire bytes of the body, leaf after leaf.
    pub fn to_bytes(&self) -> (bytes: Vec<u8>)
        ensures
            bytes@ == body_bytes(*self),
    {
        let mut out: Vec<u8> = Vec::new();
        write_body(&mut out, self);
        out
    }
}

} // verus!
