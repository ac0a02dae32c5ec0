//! Matching a request path against a route template.
use crate::table::{bind, entries, set_text, Table};
use crate::text::{chars_of, matches_at, pieces_view, split, split_char, string_of, string_of_range};
use vstd::prelude::*;
use vstd::string::*;

verus! {

/// A template segment of the form `{name}`.
pub open spec fn is_placeholder(segment: Seq<char>) -> bool {
    segment.len() >= 2 && segment[0] == '{' && segment.last() == '}'
}

/// The name between the braces of a placeholder.
pub open spec fn placeholder_name(segment: Seq<char>) -> Seq<char> {
    segment.subrange(1, segment.len() - 1)
}

/// A placeholder matches every segment that is not empty; any other
/// template segment matches itself only.
pub open spec fn segment_matches(pattern: Seq<char>, segment: Seq<char>) -> bool {
    if is_placeholder(pattern) {
        segment.len() > 0
    } else {
        pattern == segment
    }
}

/// Path and template have the same number of segments and each segment of
/// the path is matched by the segment of the template in its place.
pub open spec fn template_matches(path: Seq<char>, template: Seq<char>) -> bool {
    let have = split(path, '/');
    let want = split(template, '/');
    &&& have.len() == want.len()
    &&& forall|i: int| 0 <= i < want.len() ==> segment_matches(#[trigger] want[i], have[i])
}

/// `start` with the placeholders among the first `n` template segments
/// bound, in order, to the path segments in their places.
pub open spec fn bind_placeholders(
    have: Seq<Seq<char>>,
    want: Seq<Seq<char>>,
    n: int,
    start: Seq<(Seq<char>, Seq<char>)>,
) -> Seq<(Seq<char>, Seq<char>)>
    decreases n,
{
    if n <= 0 {
        start
    } else {
        let before = bind_placeholders(have, want, n - 1, start);
        if is_placeholder(want[n - 1]) {
            bind(before, placeholder_name(want[n - 1]), have[n - 1])
        } else {
            before
        }
    }
}

/// What a match yields: the whole path under `fullpath`, then each
/// placeholder's name with the segment it matched.  Nothing where the
/// template does not match, so a match is never empty.
pub open spec fn match_entries(path: Seq<char>, template: Seq<char>) -> Seq<(Seq<char>, Seq<char>)> {
    if template_matches(path, template) {
        bind_placeholders(
            split(path, '/'),
            split(template, '/'),
            split(template, '/').len() as int,
            seq![("fullpath"@, path)],
        )
    } else {
        Seq::empty()
    }
}

/// Binding never empties a list.
pub proof fn lemma_bind_placeholders_nonempty(
    have: Seq<Seq<char>>,
    want: Seq<Seq<char>>,
    n: int,
    start: Seq<(Seq<char>, Seq<char>)>,
)
    requires
        start.len() > 0,
    ensures
        bind_placeholders(have, want, n, start).len() > 0,
    decreases n,
{
    if n > 0 {
        lemma_bind_placeholders_nonempty(have, want, n - 1, start);
    }
}

/// A template matches exactly where the match is not empty.
pub proof fn lemma_match_nonempty(path: Seq<char>, template: Seq<char>)
    ensures
        template_matches(path, template) <==> match_entries(path, template).len() > 0,
{
    if template_matches(path, template) {
        lemma_bind_placeholders_nonempty(
            split(path, '/'),
            split(template, '/'),
            split(template, '/').len() as int,
            seq![("fullpath"@, path)],
        );
    }
}

/// Whether two texts are the same.
fn same_chars(a: &Vec<char>, b: &Vec<char>) -> (r: bool)
    ensures
        r == (a@ == b@),
{
    let r = a.len() == b.len() && matches_at(a, b, 0);
    proof {
        assert(a@.subrange(0, a.len() as int) == a@);
    }
    r
}

/// The bindings of the match of `path` against `template`; empty where
/// the template does not match.
pub fn match_template(path: &str, template: &str) -> (found: Table<String>)
    ensures
        found.wf(),
        entries(&found) == match_entries(path@, template@),
{
    let have = split_char(&chars_of(path), '/');
    let want = split_char(&chars_of(template), '/');
    let mut found: Table<String> = Table::new();
    if have.len() != want.len() {
        assert(entries(&found) =~= Seq::<(Seq<char>, Seq<char>)>::empty());
        return found;
    }
    set_text(&mut found, "fullpath", path.to_owned());
    let ghost start = seq![("fullpath"@, path@)];
    proof {
        assert(entries(&found) =~= start);
    }
    let mut i: usize = 0;
    while i < want.len()
        invariant
            i <= want.len(),
            have.len() == want.len(),
            found.wf(),
            pieces_view(have@) == split(path@, '/'),
            pieces_view(want@) == split(template@, '/'),
            entries(&found) == bind_placeholders(pieces_view(have@), pieces_view(want@), i as int, start),
            forall|j: int|
                0 <= j < i ==> segment_matches(#[trigger] pieces_view(want@)[j], pieces_view(have@)[j]),
        decreases want.len() - i,
    {
        let pattern = &want[i];
        let segment = &have[i];
        assert(pieces_view(want@)[i as int] == pattern@);
        assert(pieces_view(have@)[i as int] == segment@);
        let n = pattern.len();
        if n >= 2 && pattern[0] == '{' && pattern[n - 1] == '}' {
            if segment.len() == 0 {
                let none: Table<String> = Table::new();
                assert(entries(&none) =~= Seq::<(Seq<char>, Seq<char>)>::empty());
                assert(!segment_matches(split(template@, '/')[i as int], split(path@, '/')[i as int]));
                return none;
            }
            let name = string_of_range(pattern, 1, n - 1);
            let value = string_of(segment);
            set_text(&mut found, name.as_str(), value);
        } else if !same_chars(pattern, segment) {
            let none: Table<String> = Table::new();
            assert(entries(&none) =~= Seq::<(Seq<char>, Seq<char>)>::empty());
            assert(!segment_matches(split(template@, '/')[i as int], split(path@, '/')[i as int]));
            return none;
        }
        i += 1;
    }
    found
}

} // verus!
