//! Character-level building blocks shared by the parser, the dispatcher and
//! the response composer.  Contracts are stated over `Seq<char>`; executable
//! code works on `Vec<char>` and converts at the edges.
use vstd::prelude::*;
use vstd::string::*;

verus! {

/// `String::push` appends exactly one character.
pub assume_specification[ String::push ](s: &mut String, c: char)
    ensures
        final(s)@ == old(s)@.push(c),
;

/// The characters of a string slice, in order.
pub fn chars_of(s: &str) -> (v: Vec<char>)
    ensures
        v@ == s@,
{
    let mut v: Vec<char> = Vec::new();
    for c in it: s.chars()
        invariant
            v@ == it.seq().take(it.index() as int),
            it.seq() == s@,
    {
        v.push(c);
    }
    v
}

/// The string made of the characters `v[from..to]`.
pub fn string_of_range(v: &Vec<char>, from: usize, to: usize) -> (s: String)
    requires
        from <= to <= v.len(),
    ensures
        s@ == v@.subrange(from as int, to as int),
{
    let mut s = String::new();
    let mut i: usize = from;
    while i < to
        invariant
            from <= i <= to <= v.len(),
            s@ == v@.subrange(from as int, i as int),
        decreases to - i,
    {
        s.push(v[i]);
        i += 1;
    }
    s
}

/// The string made of all the characters of `v`.
pub fn string_of(v: &Vec<char>) -> (s: String)
    ensures
        s@ == v@,
{
    let s = string_of_range(v, 0, v.len());
    assert(v@.subrange(0, v.len() as int) == v@);
    s
}

/// Equality of two string slices, character by character.
pub fn str_eq(a: &str, b: &str) -> (r: bool)
    ensures
        r == (a@ == b@),
{
    let x = a.to_owned();
    let y = b.to_owned();
    x == y
}

/// Unicode `White_Space`, the set that `str::trim` strips.
pub open spec fn is_space(c: char) -> bool {
    ||| ('\u{9}' <= c && c <= '\u{d}')
    ||| c == ' '
    ||| c == '\u{85}'
    ||| c == '\u{a0}'
    ||| c == '\u{1680}'
    ||| ('\u{2000}' <= c && c <= '\u{200a}')
    ||| c == '\u{2028}'
    ||| c == '\u{2029}'
    ||| c == '\u{202f}'
    ||| c == '\u{205f}'
    ||| c == '\u{3000}'
}

/// Whether `c` is whitespace.
pub fn is_whitespace(c: char) -> (r: bool)
    ensures
        r == is_space(c),
{
    ('\u{9}' <= c && c <= '\u{d}') || c == ' ' || c == '\u{85}' || c == '\u{a0}' || c == '\u{1680}'
        || ('\u{2000}' <= c && c <= '\u{200a}') || c == '\u{2028}' || c == '\u{2029}' || c
        == '\u{202f}' || c == '\u{205f}' || c == '\u{3000}'
}

/// Number of whitespace characters at the front of `s`.
pub open spec fn leading_spaces(s: Seq<char>) -> nat
    decreases s.len(),
{
    if s.len() > 0 && is_space(s[0]) {
        1 + leading_spaces(s.drop_first())
    } else {
        0
    }
}

/// Number of whitespace characters at the back of `s`.
pub open spec fn trailing_spaces(s: Seq<char>) -> nat
    decreases s.len(),
{
    if s.len() > 0 && is_space(s.last()) {
        1 + trailing_spaces(s.drop_last())
    } else {
        0
    }
}

/// `s` without its leading and trailing whitespace.
pub open spec fn trim(s: Seq<char>) -> Seq<char> {
    let front = s.skip(leading_spaces(s) as int);
    front.take(front.len() - trailing_spaces(front))
}

/// Neither the first nor the last character of `s` is whitespace.
pub open spec fn is_trimmed(s: Seq<char>) -> bool {
    s.len() > 0 ==> !is_space(s[0]) && !is_space(s.last())
}

/// The leading whitespace is whitespace, and what follows it is not.
pub proof fn lemma_leading_spaces(s: Seq<char>)
    ensures
        leading_spaces(s) <= s.len(),
        forall|i: int| 0 <= i < leading_spaces(s) ==> is_space(#[trigger] s[i]),
        leading_spaces(s) < s.len() ==> !is_space(s[leading_spaces(s) as int]),
    decreases s.len(),
{
    if s.len() > 0 && is_space(s[0]) {
        let t = s.drop_first();
        lemma_leading_spaces(t);
        assert forall|i: int| 0 <= i < leading_spaces(s) implies is_space(#[trigger] s[i]) by {
            if i > 0 {
                assert(s[i] == t[i - 1]);
            }
        }
        if leading_spaces(s) < s.len() {
            assert(s[leading_spaces(s) as int] == t[leading_spaces(t) as int]);
        }
    }
}

/// The trailing whitespace is whitespace, and what stands before it is
/// not.
pub proof fn lemma_trailing_spaces(s: Seq<char>)
    ensures
        trailing_spaces(s) <= s.len(),
        forall|i: int| s.len() - trailing_spaces(s) <= i < s.len() ==> is_space(#[trigger] s[i]),
        trailing_spaces(s) < s.len() ==> !is_space(s[s.len() - trailing_spaces(s) - 1]),
    decreases s.len(),
{
    if s.len() > 0 && is_space(s.last()) {
        let t = s.drop_last();
        lemma_trailing_spaces(t);
        assert forall|i: int| s.len() - trailing_spaces(s) <= i < s.len() implies is_space(
            #[trigger] s[i],
        ) by {
            if i < s.len() - 1 {
                assert(s[i] == t[i]);
            }
        }
        if trailing_spaces(s) < s.len() {
            assert(s[s.len() - trailing_spaces(s) - 1] == t[t.len() - trailing_spaces(t) - 1]);
        }
    }
}

/// If the first `n` characters are whitespace and the next one is not (or
/// there is none), `n` is the number of leading whitespace characters.
pub proof fn lemma_leading_spaces_is(s: Seq<char>, n: int)
    requires
        0 <= n <= s.len(),
        forall|i: int| 0 <= i < n ==> is_space(#[trigger] s[i]),
        n < s.len() ==> !is_space(s[n]),
    ensures
        leading_spaces(s) == n,
    decreases s.len(),
{
    if n > 0 {
        let t = s.drop_first();
        assert forall|i: int| 0 <= i < n - 1 implies is_space(#[trigger] t[i]) by {
            assert(t[i] == s[i + 1]);
        }
        lemma_leading_spaces_is(t, n - 1);
    }
}

/// If the last `n` characters are whitespace and the one before them is
/// not (or there is none), `n` is the number of trailing whitespace
/// characters.
pub proof fn lemma_trailing_spaces_is(s: Seq<char>, n: int)
    requires
        0 <= n <= s.len(),
        forall|i: int| s.len() - n <= i < s.len() ==> is_space(#[trigger] s[i]),
        n < s.len() ==> !is_space(s[s.len() - n - 1]),
    ensures
        trailing_spaces(s) == n,
    decreases s.len(),
{
    if n > 0 {
        let t = s.drop_last();
        assert forall|i: int| t.len() - (n - 1) <= i < t.len() implies is_space(#[trigger] t[i]) by {
            assert(t[i] == s[i]);
        }
        lemma_trailing_spaces_is(t, n - 1);
    }
}

/// A trimmed string has whitespace at neither end, and trimming it again
/// changes nothing.
pub proof fn lemma_trim_is_trimmed(s: Seq<char>)
    ensures
        is_trimmed(trim(s)),
        trim(trim(s)) == trim(s),
{
    lemma_leading_spaces(s);
    let front = s.skip(leading_spaces(s) as int);
    lemma_trailing_spaces(front);
    let t = trim(s);
    if t.len() > 0 {
        assert(t[0] == front[0]);
        assert(front[0] == s[leading_spaces(s) as int]);
        assert(t.last() == front[front.len() - trailing_spaces(front) - 1]);
    }
    lemma_leading_spaces_is(t, 0);
    lemma_trailing_spaces_is(t, 0);
    assert(t.skip(0) == t);
    assert(t.take(t.len() as int) == t);
}

/// The bounds `[from, to)` of `trim(v[lo..hi])` inside `v`.
pub fn trim_bounds(v: &Vec<char>, lo: usize, hi: usize) -> (r: (usize, usize))
    requires
        lo <= hi <= v.len(),
    ensures
        lo <= r.0 <= r.1 <= hi,
        v@.subrange(r.0 as int, r.1 as int) == trim(v@.subrange(lo as int, hi as int)),
{
    let ghost s = v@.subrange(lo as int, hi as int);
    let mut from = lo;
    while from < hi && is_whitespace(v[from])
        invariant
            lo <= from <= hi <= v.len(),
            s == v@.subrange(lo as int, hi as int),
            forall|i: int| 0 <= i < from - lo ==> is_space(#[trigger] s[i]),
        decreases hi - from,
    {
        from += 1;
    }
    proof {
        lemma_leading_spaces_is(s, from - lo);
    }
    let ghost front = s.skip((from - lo) as int);
    assert(front == v@.subrange(from as int, hi as int));
    let mut to = hi;
    while to > from && is_whitespace(v[to - 1])
        invariant
            from <= to <= hi <= v.len(),
            front == v@.subrange(from as int, hi as int),
            forall|i: int| to - from <= i < front.len() ==> is_space(#[trigger] front[i]),
        decreases to - from,
    {
        to -= 1;
    }
    proof {
        lemma_trailing_spaces_is(front, hi - to);
        assert(front.take(front.len() - (hi - to)) == v@.subrange(from as int, to as int));
    }
    (from, to)
}

/// ASCII lower-casing of one character; every other character is kept.
pub open spec fn lower_char(c: char) -> char {
    if 'A' <= c && c <= 'Z' {
        ((c as u8) + 32) as char
    } else {
        c
    }
}

/// The small letter of an ASCII capital; any other character itself.
pub fn to_lower_char(c: char) -> (r: char)
    ensures
        r == lower_char(c),
{
    if 'A' <= c && c <= 'Z' {
        let b: u8 = c as u8;
        (b + 32) as char
    } else {
        c
    }
}

/// `s` with every ASCII capital replaced by its small letter.
pub open spec fn lower(s: Seq<char>) -> Seq<char> {
    s.map_values(|c: char| lower_char(c))
}

/// No ASCII capital occurs in `s`.
pub open spec fn is_lower(s: Seq<char>) -> bool {
    forall|i: int| 0 <= i < s.len() ==> !('A' <= #[trigger] s[i] && s[i] <= 'Z')
}

/// Lower-casing leaves no ASCII capital and keeps the length.
pub proof fn lemma_lower_is_lower(s: Seq<char>)
    ensures
        is_lower(lower(s)),
        lower(s).len() == s.len(),
{
}

/// The first index at or after `from` where `c` stands in `s`, or `s.len()`
/// where it stands nowhere from there on.
pub open spec fn find_from(s: Seq<char>, c: char, from: int) -> int
    decreases s.len() - from,
{
    if from >= s.len() {
        s.len() as int
    } else if s[from] == c {
        from
    } else {
        find_from(s, c, from + 1)
    }
}

/// `find_from` is the first place of `c` at or after `from`.
pub proof fn lemma_find_from(s: Seq<char>, c: char, from: int)
    requires
        0 <= from <= s.len(),
    ensures
        from <= find_from(s, c, from) <= s.len(),
        forall|i: int| from <= i < find_from(s, c, from) ==> #[trigger] s[i] != c,
        find_from(s, c, from) < s.len() ==> s[find_from(s, c, from)] == c,
    decreases s.len() - from,
{
    if from < s.len() && s[from] != c {
        lemma_find_from(s, c, from + 1);
    }
}

/// The first place of `c` at or after `from` is what `find_from` gives.
pub proof fn lemma_find_from_is(s: Seq<char>, c: char, from: int, at: int)
    requires
        0 <= from <= at <= s.len(),
        forall|i: int| from <= i < at ==> #[trigger] s[i] != c,
        at < s.len() ==> s[at] == c,
    ensures
        find_from(s, c, from) == at,
    decreases at - from,
{
    if from < at {
        lemma_find_from_is(s, c, from + 1, at);
    }
}

/// Searching in a suffix is searching in the whole, shifted.
pub proof fn lemma_find_from_skip(s: Seq<char>, c: char, k: int)
    requires
        0 <= k <= s.len(),
    ensures
        find_from(s.skip(k), c, 0) == find_from(s, c, k) - k,
{
    lemma_find_from(s, c, k);
    let at = find_from(s, c, k);
    let t = s.skip(k);
    assert forall|i: int| 0 <= i < at - k implies #[trigger] t[i] != c by {
        assert(t[i] == s[i + k]);
    }
    lemma_find_from_is(t, c, 0, at - k);
}

/// Executable `find_from`, restricted to `v[..hi]`.
pub fn find_char(v: &Vec<char>, c: char, from: usize, hi: usize) -> (at: usize)
    requires
        from <= hi <= v.len(),
    ensures
        at == find_from(v@.take(hi as int), c, from as int),
        from <= at <= hi,
{
    let ghost s = v@.take(hi as int);
    let mut i = from;
    while i < hi && v[i] != c
        invariant
            from <= i <= hi <= v.len(),
            s == v@.take(hi as int),
            forall|j: int| from <= j < i ==> #[trigger] s[j] != c,
        decreases hi - i,
    {
        i += 1;
    }
    proof {
        lemma_find_from_is(s, c, from as int, i as int);
    }
    i
}

/// The last index where `c` stands in `s`, or -1.
pub open spec fn find_last(s: Seq<char>, c: char) -> int
    decreases s.len(),
{
    if s.len() == 0 {
        -1
    } else if s.last() == c {
        s.len() - 1
    } else {
        find_last(s.drop_last(), c)
    }
}

/// `find_last` is the last place of `c`.
pub proof fn lemma_find_last(s: Seq<char>, c: char)
    ensures
        -1 <= find_last(s, c) < s.len(),
        forall|i: int| find_last(s, c) < i < s.len() ==> #[trigger] s[i] != c,
        find_last(s, c) >= 0 ==> s[find_last(s, c)] == c,
    decreases s.len(),
{
    if s.len() > 0 && s.last() != c {
        let t = s.drop_last();
        lemma_find_last(t, c);
        assert forall|i: int| find_last(s, c) < i < s.len() implies #[trigger] s[i] != c by {
            if i < t.len() {
                assert(s[i] == t[i]);
            }
        }
    }
}

/// The last place of `c` is what `find_last` gives.
pub proof fn lemma_find_last_is(s: Seq<char>, c: char, at: int)
    requires
        -1 <= at < s.len(),
        forall|i: int| at < i < s.len() ==> #[trigger] s[i] != c,
        at >= 0 ==> s[at] == c,
    ensures
        find_last(s, c) == at,
    decreases s.len(),
{
    if s.len() > 0 && at < s.len() - 1 {
        let t = s.drop_last();
        assert forall|i: int| at < i < t.len() implies #[trigger] t[i] != c by {
            assert(t[i] == s[i]);
        }
        lemma_find_last_is(t, c, at);
    }
}

/// Executable `find_last`: `None` where `c` does not occur.
pub fn rfind_char(v: &Vec<char>, c: char) -> (r: Option<usize>)
    ensures
        match r {
            Some(at) => at < v.len() && at as int == find_last(v@, c),
            None => find_last(v@, c) == -1,
        },
{
    let mut i = v.len();
    while i > 0 && v[i - 1] != c
        invariant
            i <= v.len(),
            forall|j: int| i <= j < v.len() ==> #[trigger] v@[j] != c,
        decreases i,
    {
        i -= 1;
    }
    proof {
        lemma_find_last_is(v@, c, i as int - 1);
    }
    if i == 0 {
        None
    } else {
        Some(i - 1)
    }
}

/// The pieces of `s` between occurrences of `sep`.  A string without `sep`
/// is one piece, so the result is never empty.
pub open spec fn split(s: Seq<char>, sep: char) -> Seq<Seq<char>>
    decreases s.len(),
{
    let at = find_from(s, sep, 0);
    if 0 <= at < s.len() {
        seq![s.take(at)] + split(s.skip(at + 1), sep)
    } else {
        seq![s]
    }
}

/// The deep view of a vector of character vectors.
pub open spec fn pieces_view(v: Seq<Vec<char>>) -> Seq<Seq<char>> {
    v.map_values(|p: Vec<char>| p@)
}

/// The characters `v[from..to]` as a vector of their own.
pub fn slice_of(v: &Vec<char>, from: usize, to: usize) -> (r: Vec<char>)
    requires
        from <= to <= v.len(),
    ensures
        r@ == v@.subrange(from as int, to as int),
{
    let mut r: Vec<char> = Vec::new();
    let mut i = from;
    while i < to
        invariant
            from <= i <= to <= v.len(),
            r@ == v@.subrange(from as int, i as int),
        decreases to - i,
    {
        r.push(v[i]);
        i += 1;
    }
    r
}

/// Executable `split`.
pub fn split_char(v: &Vec<char>, sep: char) -> (r: Vec<Vec<char>>)
    ensures
        pieces_view(r@) == split(v@, sep),
        r.len() >= 1,
{
    let mut r: Vec<Vec<char>> = Vec::new();
    let mut start: usize = 0;
    proof {
        assert(v@.skip(0) == v@);
        assert(pieces_view(r@) + split(v@, sep) == split(v@, sep));
    }
    loop
        invariant_except_break
            start <= v.len(),
            split(v@, sep) == pieces_view(r@) + split(v@.skip(start as int), sep),
        ensures
            pieces_view(r@) == split(v@, sep),
            r.len() >= 1,
        decreases v.len() - start,
    {
        let at = find_char(v, sep, start, v.len());
        proof {
            assert(v@.take(v.len() as int) == v@);
            lemma_find_from_skip(v@, sep, start as int);
        }
        let piece = slice_of(v, start, at);
        let ghost before = pieces_view(r@);
        let ghost rest = v@.skip(start as int);
        assert(rest.take(at - start) == v@.subrange(start as int, at as int));
        r.push(piece);
        assert(pieces_view(r@) == before.push(piece@));
        if at < v.len() {
            assert(rest.skip(at - start + 1) == v@.skip(at + 1));
            start = at + 1;
        } else {
            assert(split(rest, sep) == seq![rest]);
            break;
        }
    }
    r
}

/// The decimal digit for `d < 10`.
pub open spec fn digit_char(d: int) -> char {
    ((48 + d) as u8) as char
}

/// The decimal numeral of `n`, without leading zeros.
pub open spec fn decimal(n: nat) -> Seq<char>
    decreases n,
{
    if n < 10 {
        seq![digit_char(n as int)]
    } else {
        decimal(n / 10).push(digit_char((n % 10) as int))
    }
}

/// The hexadecimal digit for `d < 16`, in capitals.
pub open spec fn hex_digit_char(d: int) -> char {
    if d < 10 {
        ((48 + d) as u8) as char
    } else {
        ((55 + d) as u8) as char
    }
}

/// The hexadecimal numeral of `n` in capitals, without leading zeros.
pub open spec fn upper_hex(n: nat) -> Seq<char>
    decreases n,
{
    if n < 16 {
        seq![hex_digit_char(n as int)]
    } else {
        upper_hex(n / 16).push(hex_digit_char((n % 16) as int))
    }
}

/// Appends the numeral of `n` in base 10 to `out`.
pub fn push_decimal(out: &mut Vec<char>, n: u64)
    ensures
        final(out)@ == old(out)@ + decimal(n as nat),
    decreases n,
{
    if n >= 10 {
        push_decimal(out, n / 10);
    }
    let d: u8 = (n % 10) as u8;
    out.push((48 + d) as char);
    proof {
        if n < 10 {
            assert(final(out)@ == old(out)@ + seq![digit_char(n as int)]);
        } else {
            assert(final(out)@ == old(out)@ + decimal((n / 10) as nat).push(digit_char((n % 10) as int)));
        }
    }
}

/// Appends the numeral of `n` in base 16 to `out`.
pub fn push_upper_hex(out: &mut Vec<char>, n: u64)
    ensures
        final(out)@ == old(out)@ + upper_hex(n as nat),
    decreases n,
{
    if n >= 16 {
        push_upper_hex(out, n / 16);
    }
    let d: u8 = (n % 16) as u8;
    if d < 10 {
        out.push((48 + d) as char);
    } else {
        out.push((55 + d) as char);
    }
    proof {
        if n < 16 {
            assert(final(out)@ == old(out)@ + seq![hex_digit_char(n as int)]);
        } else {
            assert(final(out)@ == old(out)@ + upper_hex((n / 16) as nat).push(
                hex_digit_char((n % 16) as int),
            ));
        }
    }
}

/// The decimal numeral of `n` as a string.
pub fn decimal_string(n: u64) -> (s: String)
    ensures
        s@ == decimal(n as nat),
{
    let mut v: Vec<char> = Vec::new();
    push_decimal(&mut v, n);
    string_of(&v)
}

/// The capital hexadecimal numeral of `n` as a string.
pub fn upper_hex_string(n: u64) -> (s: String)
    ensures
        s@ == upper_hex(n as nat),
{
    let mut v: Vec<char> = Vec::new();
    push_upper_hex(&mut v, n);
    string_of(&v)
}

/// `pattern` stands in `s` at index `at`.
pub open spec fn occurs_at(s: Seq<char>, pattern: Seq<char>, at: int) -> bool {
    0 <= at && at + pattern.len() <= s.len() && s.subrange(at, at + pattern.len()) == pattern
}

/// `v[at..]` begins with `pattern`.
pub fn matches_at(v: &Vec<char>, pattern: &Vec<char>, at: usize) -> (r: bool)
    ensures
        r == occurs_at(v@, pattern@, at as int),
{
    if at > v.len() || pattern.len() > v.len() - at {
        return false;
    }
    let mut i: usize = 0;
    while i < pattern.len()
        invariant
            i <= pattern.len(),
            at + pattern.len() <= v.len(),
            v@.subrange(at as int, at + i) == pattern@.take(i as int),
        decreases pattern.len() - i,
    {
        if v[at + i] != pattern[i] {
            proof {
                let w = v@.subrange(at as int, at + pattern.len());
                assert(w[i as int] != pattern@[i as int]);
            }
            return false;
        }
        assert(v@.subrange(at as int, at + i + 1) == v@.subrange(at as int, at + i).push(v@[at + i]));
        assert(pattern@.take(i + 1) == pattern@.take(i as int).push(pattern@[i as int]));
        i += 1;
    }
    assert(pattern@.take(pattern.len() as int) == pattern@);
    true
}

/// `s` begins with `prefix`.
pub open spec fn has_prefix(s: Seq<char>, prefix: Seq<char>) -> bool {
    occurs_at(s, prefix, 0)
}

} // verus!
