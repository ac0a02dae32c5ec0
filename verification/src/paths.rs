//! Resource paths: joining a url to the resources root, lexical
//! normalisation, the test that a path is still under the root, and the
//! extension of a path.  Nothing here touches the file system.
use crate::text::{
    chars_of, find_from, find_last, has_prefix, matches_at, pieces_view, rfind_char, slice_of, split,
    split_char, string_of,
};
use vstd::prelude::*;
use vstd::string::*;

verus! {

/// The component that stands for the directory itself.
pub open spec fn dot() -> Seq<char> {
    seq!['.']
}

/// The component that stands for the directory above.
pub open spec fn dot_dot() -> Seq<char> {
    seq!['.', '.']
}

/// What one component does to the components kept so far.  An empty
/// component and `.` change nothing.  `..` takes the last component away;
/// where there is none to take, it is dropped from a rooted path and kept
/// in a relative one.  Any other component is kept.
pub open spec fn step(kept: Seq<Seq<char>>, part: Seq<char>, rooted: bool) -> Seq<Seq<char>> {
    if part.len() == 0 || part == dot() {
        kept
    } else if part == dot_dot() {
        if kept.len() > 0 && kept.last() != dot_dot() {
            kept.drop_last()
        } else if rooted {
            kept
        } else {
            kept.push(part)
        }
    } else {
        kept.push(part)
    }
}

/// The components that are left of `parts` after every step.
pub open spec fn resolve(parts: Seq<Seq<char>>, rooted: bool) -> Seq<Seq<char>>
    decreases parts.len(),
{
    if parts.len() == 0 {
        Seq::empty()
    } else {
        step(resolve(parts.drop_last(), rooted), parts.last(), rooted)
    }
}

/// `parts` with a slash between each two.
pub open spec fn join(parts: Seq<Seq<char>>) -> Seq<char>
    decreases parts.len(),
{
    if parts.len() == 0 {
        Seq::empty()
    } else if parts.len() == 1 {
        parts[0]
    } else {
        join(parts.drop_last()) + seq!['/'] + parts.last()
    }
}

/// The path begins with a slash.
pub open spec fn is_rooted(path: Seq<char>) -> bool {
    path.len() > 0 && path[0] == '/'
}

/// `path` without empty components, `.` and the `..` that can be resolved.
pub open spec fn normalize(path: Seq<char>) -> Seq<char> {
    let rooted = is_rooted(path);
    let rest = join(resolve(split(path, '/'), rooted));
    if rooted {
        seq!['/'] + rest
    } else {
        rest
    }
}

/// The path of the resource that `url` names under `root`.
pub open spec fn resource_path(root: Seq<char>, url: Seq<char>) -> Seq<char> {
    normalize(root + seq!['/'] + url)
}

/// `path` is under `root`: it begins with it.
pub open spec fn under_root(root: Seq<char>, path: Seq<char>) -> bool {
    has_prefix(path, root)
}

/// The extension of `path`: what follows the last dot, the dot included.
pub open spec fn extension(path: Seq<char>) -> Option<Seq<char>> {
    let at = find_last(path, '.');
    if at < 0 {
        None
    } else {
        Some(path.skip(at))
    }
}

/// Whether `part` is `.`.
fn is_dot(part: &Vec<char>) -> (r: bool)
    ensures
        r == (part@ == dot()),
{
    let r = part.len() == 1 && part[0] == '.';
    proof {
        if r {
            assert(part@ =~= dot());
        }
    }
    r
}

/// Whether `part` is `..`.
fn is_dot_dot(part: &Vec<char>) -> (r: bool)
    ensures
        r == (part@ == dot_dot()),
{
    let r = part.len() == 2 && part[0] == '.' && part[1] == '.';
    proof {
        if r {
            assert(part@ =~= dot_dot());
        }
    }
    r
}

/// Executable `normalize`.
pub fn normalize_chars(path: &Vec<char>) -> (out: Vec<char>)
    ensures
        out@ == normalize(path@),
{
    let rooted = path.len() > 0 && path[0] == '/';
    let parts = split_char(path, '/');
    let mut kept: Vec<Vec<char>> = Vec::new();
    let mut i: usize = 0;
    proof {
        assert(pieces_view(parts@).take(0) =~= Seq::<Seq<char>>::empty());
        assert(pieces_view(kept@) =~= Seq::<Seq<char>>::empty());
    }
    while i < parts.len()
        invariant
            i <= parts.len(),
            pieces_view(kept@) == resolve(pieces_view(parts@).take(i as int), rooted),
        decreases parts.len() - i,
    {
        let part = &parts[i];
        let ghost before = pieces_view(kept@);
        proof {
            let upto = pieces_view(parts@).take(i + 1);
            assert(upto.drop_last() == pieces_view(parts@).take(i as int));
            assert(upto.last() == part@);
        }
        if part.len() == 0 || is_dot(part) {
        } else if is_dot_dot(part) {
            if kept.len() > 0 && !is_dot_dot(&kept[kept.len() - 1]) {
                assert(before.last() == kept@[kept.len() - 1]@);
                kept.pop();
                assert(pieces_view(kept@) == before.drop_last());
            } else if !rooted {
                if kept.len() > 0 {
                    assert(before.last() == kept@[kept.len() - 1]@);
                }
                let copy = slice_of(part, 0, part.len());
                assert(copy@ == part@);
                kept.push(copy);
                assert(pieces_view(kept@) == before.push(part@));
            } else {
                if kept.len() > 0 {
                    assert(before.last() == kept@[kept.len() - 1]@);
                }
            }
        } else {
            let copy = slice_of(part, 0, part.len());
            assert(copy@ == part@);
            kept.push(copy);
            assert(pieces_view(kept@) == before.push(part@));
        }
        i += 1;
    }
    assert(pieces_view(parts@).take(parts.len() as int) == pieces_view(parts@));
    let mut out: Vec<char> = Vec::new();
    if rooted {
        out.push('/');
    }
    let ghost lead = out@;
    let mut j: usize = 0;
    proof {
        assert(pieces_view(kept@).take(0) =~= Seq::<Seq<char>>::empty());
    }
    while j < kept.len()
        invariant
            j <= kept.len(),
            out@ == lead + join(pieces_view(kept@).take(j as int)),
        decreases kept.len() - j,
    {
        let ghost upto = pieces_view(kept@).take(j + 1);
        proof {
            assert(upto.drop_last() == pieces_view(kept@).take(j as int));
            assert(upto.last() == kept@[j as int]@);
        }
        if j > 0 {
            out.push('/');
        }
        let part = &kept[j];
        let ghost start = out@;
        let mut k: usize = 0;
        while k < part.len()
            invariant
                k <= part.len(),
                out@ == start + part@.take(k as int),
            decreases part.len() - k,
        {
            out.push(part[k]);
            k += 1;
        }
        proof {
            assert(part@.take(part.len() as int) == part@);
            if j == 0 {
                assert(upto.len() == 1);
                assert(join(upto) == part@);
                assert(join(pieces_view(kept@).take(0)) =~= Seq::<char>::empty());
                assert(out@ =~= lead + join(upto));
            } else {
                assert(out@ =~= lead + join(upto));
            }
        }
        j += 1;
    }
    assert(pieces_view(kept@).take(kept.len() as int) == pieces_view(kept@));
    proof {
        if !rooted {
            assert(lead + join(pieces_view(kept@)) =~= join(pieces_view(kept@)));
        }
    }
    out
}

/// The normalised path of the resource that `url` names under `root`.
pub fn url_to_path(root: &str, url: &str) -> (path: String)
    ensures
        path@ == resource_path(root@, url@),
{
    let mut joined = chars_of(root);
    joined.push('/');
    let tail = chars_of(url);
    let mut i: usize = 0;
    let ghost start = joined@;
    while i < tail.len()
        invariant
            i <= tail.len(),
            joined@ == start + tail@.take(i as int),
        decreases tail.len() - i,
    {
        joined.push(tail[i]);
        i += 1;
    }
    proof {
        assert(tail@.take(tail.len() as int) == tail@);
        assert(joined@ =~= root@ + seq!['/'] + url@);
    }
    let out = normalize_chars(&joined);
    string_of(&out)
}

/// Whether `path` begins with `root`.
pub fn is_under_root(root: &str, path: &str) -> (r: bool)
    ensures
        r == under_root(root@, path@),
{
    let p = chars_of(path);
    let r = chars_of(root);
    matches_at(&p, &r, 0)
}

/// The extension of `path`, dot included, where it has one.
pub fn path_extension(path: &str) -> (r: Option<String>)
    ensures
        match r {
            Some(e) => extension(path@) == Some(e@),
            None => extension(path@) is None,
        },
{
    let p = chars_of(path);
    match rfind_char(&p, '.') {
        Some(at) => {
            let e = crate::text::string_of_range(&p, at, p.len());
            assert(p@.subrange(at as int, p.len() as int) == p@.skip(at as int));
            Some(e)
        },
        None => None,
    }
}

/// A text without the separator is a single piece.
proof fn lemma_split_single(piece: Seq<char>, sep: char)
    requires
        !piece.contains(sep),
    ensures
        split(piece, sep) == seq![piece],
{
    crate::text::lemma_find_from(piece, sep, 0);
    let at = find_from(piece, sep, 0);
    if at < piece.len() {
        assert(piece.contains(piece[at]));
    }
}

/// Splitting what ends in a separator and a last piece gives the pieces
/// of what stands before, and the last piece.
proof fn lemma_split_last(front: Seq<char>, last: Seq<char>, sep: char)
    requires
        !last.contains(sep),
    ensures
        split(front + seq![sep] + last, sep) == split(front, sep).push(last),
    decreases front.len(),
{
    let whole = front + seq![sep] + last;
    crate::text::lemma_find_from(front, sep, 0);
    let at = find_from(front, sep, 0);
    assert forall|i: int| 0 <= i < at implies #[trigger] whole[i] != sep by {
        assert(whole[i] == front[i]);
    }
    if at < front.len() {
        assert(whole[at] == front[at]);
        crate::text::lemma_find_from_is(whole, sep, 0, at);
        let rest = front.skip(at + 1);
        assert(whole.skip(at + 1) =~= rest + seq![sep] + last);
        assert(whole.take(at) =~= front.take(at));
        lemma_split_last(rest, last, sep);
        assert(split(whole, sep) =~= split(front, sep).push(last));
    } else {
        assert(whole[at] == sep);
        crate::text::lemma_find_from_is(whole, sep, 0, at);
        assert(whole.take(at) =~= front);
        assert(whole.skip(at + 1) =~= last);
        lemma_split_single(last, sep);
        assert(split(whole, sep) =~= split(front, sep).push(last));
    }
}

/// No piece of a split text holds the separator.
proof fn lemma_split_pieces(text: Seq<char>, sep: char)
    ensures
        split(text, sep).len() >= 1,
        forall|i: int| 0 <= i < split(text, sep).len() ==> !(#[trigger] split(text, sep)[i]).contains(sep),
    decreases text.len(),
{
    crate::text::lemma_find_from(text, sep, 0);
    let at = find_from(text, sep, 0);
    let pieces = split(text, sep);
    if 0 <= at < text.len() {
        let rest = split(text.skip(at + 1), sep);
        lemma_split_pieces(text.skip(at + 1), sep);
        assert forall|i: int| 0 <= i < pieces.len() implies !(#[trigger] pieces[i]).contains(sep) by {
            if i == 0 {
                assert(pieces[0] == text.take(at));
                if pieces[0].contains(sep) {
                    let k = pieces[0].index_of(sep);
                    assert(text[k] == sep);
                }
            } else {
                assert(pieces[i] == rest[i - 1]);
            }
        }
    } else {
        assert(pieces[0] == text);
        if text.contains(sep) {
            let k = text.index_of(sep);
            assert(text[k] == sep);
        }
    }
}

/// What `resolve` keeps: components that are not empty, hold no slash
/// and are not `.`; and `..` only at the front of a relative path.
pub open spec fn is_resolved(kept: Seq<Seq<char>>, rooted: bool) -> bool {
    &&& forall|i: int|
        0 <= i < kept.len() ==> (#[trigger] kept[i]).len() > 0 && !kept[i].contains('/') && kept[i] != dot()
    &&& forall|i: int, j: int|
        0 <= j < i < kept.len() && #[trigger] kept[i] == dot_dot() ==> !rooted && #[trigger] kept[j]
            == dot_dot()
    &&& forall|i: int| 0 <= i < kept.len() && #[trigger] kept[i] == dot_dot() ==> !rooted
}

/// Whatever is resolved comes out in the form that `resolve` keeps.
proof fn lemma_resolve_form(parts: Seq<Seq<char>>, rooted: bool)
    requires
        forall|i: int| 0 <= i < parts.len() ==> !(#[trigger] parts[i]).contains('/'),
    ensures
        is_resolved(resolve(parts, rooted), rooted),
    decreases parts.len(),
{
    if parts.len() > 0 {
        let before = parts.drop_last();
        assert forall|i: int| 0 <= i < before.len() implies !(#[trigger] before[i]).contains('/') by {
            assert(before[i] == parts[i]);
        }
        lemma_resolve_form(before, rooted);
        let kept = resolve(before, rooted);
        let part = parts.last();
        let now = step(kept, part, rooted);
        if part.len() == 0 || part == dot() {
        } else if part == dot_dot() {
            if kept.len() > 0 && kept.last() != dot_dot() {
                assert forall|i: int| 0 <= i < now.len() implies now[i] == kept[i] by {}
            } else if !rooted {
                assert forall|i: int, j: int|
                    0 <= j < i < now.len() && #[trigger] now[i] == dot_dot() implies !rooted && #[trigger] now[j]
                    == dot_dot() by {
                    if i == kept.len() {
                        assert(kept[kept.len() - 1] == dot_dot());
                        if j < kept.len() - 1 {
                            assert(kept[j] == dot_dot());
                        }
                    } else {
                        assert(now[i] == kept[i] && now[j] == kept[j]);
                    }
                }
            }
        } else {
            assert forall|i: int, j: int|
                0 <= j < i < now.len() && #[trigger] now[i] == dot_dot() implies !rooted && #[trigger] now[j]
                == dot_dot() by {
                assert(now[i] == kept[i] && now[j] == kept[j]);
            }
        }
    }
}

/// Resolving what is resolved changes nothing, also behind an empty
/// component.
proof fn lemma_resolve_fixed(front: Seq<Seq<char>>, kept: Seq<Seq<char>>, rooted: bool)
    requires
        is_resolved(kept, rooted),
        front.len() == 0 || front == seq![Seq::<char>::empty()],
    ensures
        resolve(front + kept, rooted) == kept,
    decreases kept.len(),
{
    let all = front + kept;
    if kept.len() == 0 {
        assert(all =~= front);
        if front.len() > 0 {
            assert(front.drop_last() =~= Seq::<Seq<char>>::empty());
            assert(resolve(front.drop_last(), rooted) == Seq::<Seq<char>>::empty());
        }
        assert(resolve(all, rooted) =~= kept);
    } else {
        let before = kept.drop_last();
        assert forall|i: int, j: int|
            0 <= j < i < before.len() && #[trigger] before[i] == dot_dot() implies !rooted && #[trigger] before[j]
            == dot_dot() by {
            assert(before[i] == kept[i] && before[j] == kept[j]);
        }
        assert(is_resolved(before, rooted)) by {
            assert forall|i: int| 0 <= i < before.len() implies (#[trigger] before[i]).len() > 0
                && !before[i].contains('/') && before[i] != dot() by {
                assert(before[i] == kept[i]);
            }
            assert forall|i: int| 0 <= i < before.len() && #[trigger] before[i] == dot_dot() implies !rooted by {
                assert(before[i] == kept[i]);
            }
        }
        lemma_resolve_fixed(front, before, rooted);
        assert(all.drop_last() =~= front + before);
        assert(all.last() == kept.last());
        let part = kept.last();
        assert(part == kept[kept.len() - 1]);
        if part == dot_dot() {
            if before.len() > 0 {
                assert(kept[kept.len() - 2] == dot_dot());
                assert(before.last() == kept[kept.len() - 2]);
            }
        }
        assert(step(before, part, rooted) =~= kept);
    }
}

/// A joined path begins with its first component.
proof fn lemma_join_begins(kept: Seq<Seq<char>>)
    requires
        kept.len() > 0,
        kept[0].len() > 0,
    ensures
        join(kept).len() > 0,
        join(kept)[0] == kept[0][0],
    decreases kept.len(),
{
    if kept.len() > 1 {
        let before = kept.drop_last();
        assert(before[0] == kept[0]);
        lemma_join_begins(before);
    }
}

/// Splitting a joined path gives its components.
proof fn lemma_split_join(kept: Seq<Seq<char>>)
    requires
        kept.len() > 0,
        forall|i: int| 0 <= i < kept.len() ==> !(#[trigger] kept[i]).contains('/'),
    ensures
        split(join(kept), '/') == kept,
    decreases kept.len(),
{
    if kept.len() == 1 {
        lemma_split_single(kept[0], '/');
        assert(kept =~= seq![kept[0]]);
    } else {
        let before = kept.drop_last();
        assert forall|i: int| 0 <= i < before.len() implies !(#[trigger] before[i]).contains('/') by {
            assert(before[i] == kept[i]);
        }
        lemma_split_join(before);
        lemma_split_last(join(before), kept.last(), '/');
        assert(before.push(kept.last()) =~= kept);
    }
}

/// Normalising a second time changes nothing.
pub proof fn lemma_normalize_twice(path: Seq<char>)
    ensures
        normalize(normalize(path)) == normalize(path),
{
    let rooted = is_rooted(path);
    lemma_split_pieces(path, '/');
    lemma_resolve_form(split(path, '/'), rooted);
    let kept = resolve(split(path, '/'), rooted);
    let once = normalize(path);
    let none = Seq::<Seq<char>>::empty();
    let blank = seq![Seq::<char>::empty()];
    if rooted {
        assert(once == seq!['/'] + join(kept));
        assert(is_rooted(once));
        crate::text::lemma_find_from_is(once, '/', 0, 0);
        assert(once.take(0) =~= Seq::<char>::empty());
        assert(once.skip(1) =~= join(kept));
        if kept.len() == 0 {
            lemma_split_single(join(kept), '/');
            assert(split(once, '/') =~= blank + blank);
            lemma_resolve_fixed(blank, none, rooted);
            assert(blank + none =~= blank);
            assert((blank + blank).drop_last() =~= blank);
            assert(resolve(blank + blank, rooted) == none);
        } else {
            lemma_split_join(kept);
            assert(split(once, '/') =~= blank + kept);
            lemma_resolve_fixed(blank, kept, rooted);
        }
    } else {
        assert(once == join(kept));
        if kept.len() == 0 {
            lemma_split_single(once, '/');
            assert(split(once, '/') =~= blank + none);
            lemma_resolve_fixed(blank, none, false);
        } else {
            lemma_join_begins(kept);
            assert(kept[0].contains(kept[0][0]));
            assert(!is_rooted(once));
            lemma_split_join(kept);
            assert(none + kept =~= kept);
            lemma_resolve_fixed(none, kept, false);
        }
    }
}

/// A name that is a single component of a path, and neither `.` nor
/// `..`.
pub open spec fn is_plain_name(name: Seq<char>) -> bool {
    name.len() > 0 && !name.contains('/') && name != dot() && name != dot_dot()
}

/// Under a root that is normalised, the resource that a plain name
/// names is under the root.
pub proof fn lemma_plain_name_stays_under_root(root: Seq<char>, name: Seq<char>)
    requires
        normalize(root) == root,
        is_plain_name(name),
    ensures
        under_root(root, resource_path(root, name)),
{
    let whole = root + seq!['/'] + name;
    lemma_split_last(root, name, '/');
    let parts = split(root, '/');
    let rooted = is_rooted(whole);
    assert(parts.push(name).drop_last() =~= parts);
    let kept = resolve(parts, rooted);
    assert(resolve(parts.push(name), rooted) == kept.push(name));
    assert(kept.push(name).drop_last() =~= kept);
    let found = normalize(whole);
    if root.len() == 0 {
        assert(found.subrange(0, 0) =~= root);
    } else {
        assert(whole[0] == root[0]);
        assert(rooted == is_rooted(root));
        let lead: Seq<char> = if rooted {
            seq!['/']
        } else {
            Seq::empty()
        };
        assert(root == lead + join(kept));
        if kept.len() == 0 {
            assert(join(kept.push(name)) == name);
            assert(found == lead + name);
            assert(found.subrange(0, root.len() as int) =~= root);
        } else {
            assert(join(kept.push(name)) == join(kept) + seq!['/'] + name);
            assert(found =~= root + seq!['/'] + name);
            assert(found.subrange(0, root.len() as int) =~= root);
        }
    }
}

} // verus!
