//! The values that a template can refer to, and the test that a name
//! resolves to nothing that the engine cannot write.
use crate::table::Table;
use crate::text::pieces_view;
use vstd::prelude::*;
use vstd::string::*;

verus! {

/// A value of the context of a response: nothing, a text, a truth value,
/// a list of values, or names with their values.  In a map the last of
/// two entries with one name counts.
#[derive(Debug, PartialEq, Eq)]
pub enum Value {
    Null,
    Text(String),
    Bool(bool),
    List(Vec<Value>),
    Dict(Vec<(String, Value)>),
}

/// A value as a value of the mathematics.
pub enum ValueView {
    Null,
    Text(Seq<char>),
    Bool(bool),
    List(Seq<ValueView>),
    Dict(Seq<(Seq<char>, ValueView)>),
}

/// The view of `value`.
pub open spec fn value_view(value: Value) -> ValueView
    decreases value,
{
    match value {
        Value::Null => ValueView::Null,
        Value::Text(text) => ValueView::Text(text@),
        Value::Bool(b) => ValueView::Bool(b),
        Value::List(items) => ValueView::List(items_view(items@, items@.len() as int)),
        Value::Dict(pairs) => ValueView::Dict(pairs_view(pairs@, pairs@.len() as int)),
    }
}

/// The views of the first `n` items.
pub open spec fn items_view(items: Seq<Value>, n: int) -> Seq<ValueView>
    decreases items, n,
{
    if n <= 0 || n > items.len() {
        Seq::empty()
    } else {
        items_view(items, n - 1).push(value_view(items[n - 1]))
    }
}

/// The views of the first `n` entries.
pub open spec fn pairs_view(pairs: Seq<(String, Value)>, n: int) -> Seq<(Seq<char>, ValueView)>
    decreases pairs, n,
{
    if n <= 0 || n > pairs.len() {
        Seq::empty()
    } else {
        pairs_view(pairs, n - 1).push((pairs[n - 1].0@, value_view(pairs[n - 1].1)))
    }
}

impl View for Value {
    type V = ValueView;

    open spec fn view(&self) -> ValueView {
        value_view(*self)
    }
}

/// The view of a list has the view of each item in its place.
pub proof fn lemma_items_view(items: Seq<Value>, n: int)
    requires
        0 <= n <= items.len(),
    ensures
        items_view(items, n).len() == n,
        forall|i: int| 0 <= i < n ==> #[trigger] items_view(items, n)[i] == value_view(items[i]),
    decreases n,
{
    if n > 0 {
        lemma_items_view(items, n - 1);
    }
}

/// The view of a map has the view of each entry in its place.
pub proof fn lemma_pairs_view(pairs: Seq<(String, Value)>, n: int)
    requires
        0 <= n <= pairs.len(),
    ensures
        pairs_view(pairs, n).len() == n,
        forall|i: int|
            0 <= i < n ==> #[trigger] pairs_view(pairs, n)[i] == (pairs[i].0@, value_view(pairs[i].1)),
    decreases n,
{
    if n > 0 {
        lemma_pairs_view(pairs, n - 1);
    }
}

/// The context of a response as names with their values.
pub open spec fn context_entries(context: &Table<Value>) -> Seq<(Seq<char>, ValueView)> {
    Seq::new(context.keys().len(), |i: int| (context.keys()[i], context.values()[i]@))
}

/// What a variable of a template can be replaced by: nothing or a text.
pub open spec fn can_be_written(value: ValueView) -> bool {
    value is Null || value is Text
}

/// Following `path` from `value` ends at what can be written, or
/// nowhere.  A name is looked up in a map only; of anything else nothing
/// is found.
pub open spec fn walk_is_safe(value: ValueView, path: Seq<Seq<char>>) -> bool
    decreases value,
{
    if path.len() == 0 {
        can_be_written(value)
    } else {
        match value {
            ValueView::Dict(entries) => walk_finds_safe(entries, entries.len() as int, path),
            _ => true,
        }
    }
}

/// Following `path` from any of the first `n` entries that carries its
/// first name ends at what can be written, or nowhere.
pub open spec fn walk_finds_safe(entries: Seq<(Seq<char>, ValueView)>, n: int, path: Seq<Seq<char>>) -> bool
    decreases entries, n,
{
    if n <= 0 || n > entries.len() || path.len() == 0 {
        true
    } else {
        &&& walk_finds_safe(entries, n - 1, path)
        &&& entries[n - 1].0 == path[0] ==> walk_is_safe(entries[n - 1].1, path.skip(1))
    }
}

/// In no map inside `value` does `path` lead to what cannot be written.
pub open spec fn inside_is_safe(value: ValueView, path: Seq<Seq<char>>) -> bool
    decreases value,
{
    match value {
        ValueView::Dict(entries) => map_is_safe(entries, entries.len() as int, path),
        ValueView::List(items) => list_is_safe(items, items.len() as int, path),
        _ => true,
    }
}

/// Neither in the map of the first `n` entries nor in any map inside
/// them does `path` lead to what cannot be written.
pub open spec fn map_is_safe(entries: Seq<(Seq<char>, ValueView)>, n: int, path: Seq<Seq<char>>) -> bool
    decreases entries, n,
{
    if n <= 0 || n > entries.len() {
        true
    } else {
        &&& map_is_safe(entries, n - 1, path)
        &&& path.len() > 0 && entries[n - 1].0 == path[0] ==> walk_is_safe(entries[n - 1].1, path.skip(1))
        &&& inside_is_safe(entries[n - 1].1, path)
    }
}

/// In no map inside the first `n` items does `path` lead to what cannot
/// be written.
pub open spec fn list_is_safe(items: Seq<ValueView>, n: int, path: Seq<Seq<char>>) -> bool
    decreases items, n,
{
    if n <= 0 || n > items.len() {
        true
    } else {
        list_is_safe(items, n - 1, path) && inside_is_safe(items[n - 1], path)
    }
}

/// Wherever a template stands in its sections, a variable with the name
/// `path` is replaced by nothing or by a text: in no map of the context,
/// at whatever depth, does the path lead to a truth value, a list or a
/// map.
pub open spec fn name_is_safe(context: Seq<(Seq<char>, ValueView)>, path: Seq<Seq<char>>) -> bool {
    map_is_safe(context, context.len() as int, path)
}

/// Whether a stored name is the name of a path.
fn is_name(stored: &String, name: &Vec<char>) -> (r: bool)
    ensures
        r == (stored@ == name@),
{
    let given = crate::text::chars_of(stored.as_str());
    let r = given.len() == name.len() && crate::text::matches_at(&given, name, 0);
    proof {
        assert(given@.subrange(0, given.len() as int) == given@);
    }
    r
}

/// Executable `walk_is_safe`, for the path from its `from`-th name on.
fn check_walk(value: &Value, path: &Vec<Vec<char>>, from: usize) -> (r: bool)
    requires
        from <= path.len(),
    ensures
        r == walk_is_safe(value@, pieces_view(path@).skip(from as int)),
    decreases *value, 0int,
{
    if from == path.len() {
        match value {
            Value::Null => true,
            Value::Text(_) => true,
            _ => false,
        }
    } else {
        match value {
            Value::Dict(pairs) => {
                proof {
                    lemma_pairs_view(pairs@, pairs@.len() as int);
                }
                check_walk_finds(pairs, pairs.len(), path, from)
            },
            _ => true,
        }
    }
}

/// Executable `walk_finds_safe`.
fn check_walk_finds(pairs: &Vec<(String, Value)>, n: usize, path: &Vec<Vec<char>>, from: usize) -> (r: bool)
    requires
        n <= pairs.len(),
        from < path.len(),
    ensures
        r == walk_finds_safe(
            pairs_view(pairs@, pairs@.len() as int),
            n as int,
            pieces_view(path@).skip(from as int),
        ),
    decreases *pairs, n,
{
    if n == 0 {
        return true;
    }
    let ghost entries = pairs_view(pairs@, pairs@.len() as int);
    let ghost rest = pieces_view(path@).skip(from as int);
    proof {
        lemma_pairs_view(pairs@, pairs@.len() as int);
        assert(entries[n - 1] == (pairs@[n - 1].0@, value_view(pairs@[n - 1].1)));
        assert(rest[0] == path@[from as int]@);
        assert(rest.skip(1) =~= pieces_view(path@).skip(from + 1));
    }
    if !check_walk_finds(pairs, n - 1, path, from) {
        return false;
    }
    let entry = &pairs[n - 1];
    if is_name(&entry.0, &path[from]) {
        check_walk(&entry.1, path, from + 1)
    } else {
        true
    }
}

/// Executable `inside_is_safe`.
fn check_inside(value: &Value, path: &Vec<Vec<char>>) -> (r: bool)
    ensures
        r == inside_is_safe(value@, pieces_view(path@)),
    decreases *value, 0int,
{
    match value {
        Value::Dict(pairs) => {
            proof {
                lemma_pairs_view(pairs@, pairs@.len() as int);
            }
            check_map(pairs, pairs.len(), path)
        },
        Value::List(items) => {
            proof {
                lemma_items_view(items@, items@.len() as int);
            }
            check_list(items, items.len(), path)
        },
        _ => true,
    }
}

/// Executable `map_is_safe`.
fn check_map(pairs: &Vec<(String, Value)>, n: usize, path: &Vec<Vec<char>>) -> (r: bool)
    requires
        n <= pairs.len(),
    ensures
        r == map_is_safe(pairs_view(pairs@, pairs@.len() as int), n as int, pieces_view(path@)),
    decreases *pairs, n,
{
    if n == 0 {
        return true;
    }
    let ghost entries = pairs_view(pairs@, pairs@.len() as int);
    proof {
        lemma_pairs_view(pairs@, pairs@.len() as int);
        assert(entries[n - 1] == (pairs@[n - 1].0@, value_view(pairs@[n - 1].1)));
        assert(pieces_view(path@).skip(0) =~= pieces_view(path@));
        if path.len() > 0 {
            assert(pieces_view(path@)[0] == path@[0]@);
        }
    }
    if !check_map(pairs, n - 1, path) {
        return false;
    }
    let entry = &pairs[n - 1];
    if path.len() > 0 && is_name(&entry.0, &path[0]) {
        if !check_walk(&entry.1, path, 1) {
            return false;
        }
    }
    check_inside(&entry.1, path)
}

/// Executable `list_is_safe`.
fn check_list(items: &Vec<Value>, n: usize, path: &Vec<Vec<char>>) -> (r: bool)
    requires
        n <= items.len(),
    ensures
        r == list_is_safe(items_view(items@, items@.len() as int), n as int, pieces_view(path@)),
    decreases *items, n,
{
    if n == 0 {
        return true;
    }
    proof {
        lemma_items_view(items@, items@.len() as int);
    }
    if !check_list(items, n - 1, path) {
        return false;
    }
    check_inside(&items[n - 1], path)
}

/// Whether a variable with the name `path` is safe in `context`.
pub fn check_name(context: &Table<Value>, path: &Vec<Vec<char>>) -> (r: bool)
    ensures
        r == name_is_safe(context_entries(context), pieces_view(path@)),
{
    proof {
        use_type_invariant(context);
        context.lemma_wf();
    }
    let n = context.len();
    let ghost entries = context_entries(context);
    let mut i: usize = 0;
    while i < n
        invariant
            i <= n,
            n == context.keys().len(),
            context.wf(),
            entries == context_entries(context),
            map_is_safe(entries, i as int, pieces_view(path@)),
        decreases n - i,
    {
        let name = context.key_at(i);
        let value = context.value_at(i);
        proof {
            assert(entries[i as int] == (name@, value@));
            assert(pieces_view(path@).skip(0) =~= pieces_view(path@));
            if path.len() > 0 {
                assert(pieces_view(path@)[0] == path@[0]@);
            }
        }
        if path.len() > 0 && is_name(name, &path[0]) {
            if !check_walk(value, path, 1) {
                proof {
                    lemma_map_unsafe_grows(entries, i as int + 1, n as int, pieces_view(path@));
                }
                return false;
            }
        }
        if !check_inside(value, path) {
            proof {
                lemma_map_unsafe_grows(entries, i as int + 1, n as int, pieces_view(path@));
            }
            return false;
        }
        i += 1;
    }
    true
}

/// What is not safe among the first entries is not safe among more.
proof fn lemma_map_unsafe_grows(entries: Seq<(Seq<char>, ValueView)>, n: int, m: int, path: Seq<Seq<char>>)
    requires
        0 <= n <= m <= entries.len(),
        !map_is_safe(entries, n, path),
    ensures
        !map_is_safe(entries, m, path),
    decreases m - n,
{
    if n < m {
        lemma_map_unsafe_grows(entries, n, m - 1, path);
    }
}

/// Binds `name` to `value` in a context.
pub fn set_value(context: &mut Table<Value>, name: &str, value: Value)
    ensures
        final(context).wf(),
        context_entries(final(context)) == crate::table::bind(context_entries(old(context)), name@, value@),
{
    proof {
        use_type_invariant(&*context);
        context.lemma_wf();
    }
    let ghost before = context_entries(context);
    let ghost keys_before = context.keys();
    assert(before.map_values(|e: (Seq<char>, ValueView)| e.0) =~= keys_before);
    let added = context.insert(name.to_owned(), value);
    proof {
        if added {
            assert(context_entries(context) =~= before.push((name@, value@)));
        } else {
            assert(context_entries(context) =~= before.update(keys_before.index_of(name@), (name@, value@)));
        }
    }
}

/// Binds `name` to the text `text` in a context.
pub fn set_context_text(context: &mut Table<Value>, name: &str, text: String)
    ensures
        final(context).wf(),
        context_entries(final(context)) == crate::table::bind(
            context_entries(old(context)),
            name@,
            ValueView::Text(text@),
        ),
{
    set_value(context, name, Value::Text(text));
}

} // verus!
