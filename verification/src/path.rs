//! Path handles and the table that hands them out.

use indexmap::IndexSet;
use vstd::prelude::*;

verus! {

/// A path id that is used to identify a path.
///
/// The handle is a strictly positive integer; zero is kept free to stand for
/// "no path".
#[derive(Debug, Clone, Copy, PartialEq, Eq, Hash, Structural)]
pub struct PathId(usize);

impl View for PathId {
    type V = usize;

    closed spec fn view(&self) -> usize {
        self.0
    }
}

impl PathId {
    #[verifier::type_invariant]
    spec fn positive(self) -> bool {
        self.0 > 0
    }

    /// The handle whose number is `raw`.
    pub closed spec fn of(raw: usize) -> PathId {
        PathId(raw)
    }

    /// A handle is its number: `of` and the view are inverse to each other.
    pub broadcast proof fn lemma_of_view(raw: usize)
        ensures
            (#[trigger] PathId::of(raw))@ == raw,
    {
    }

    /// Two handles with the same number are the same handle.
    pub broadcast proof fn lemma_view_of(id: PathId)
        ensures
            PathId::of(#[trigger] id@) == id,
    {
    }

    /// The number behind the handle.
    pub fn into_raw(self) -> (raw: usize)
        ensures
            raw == self@,
            raw > 0,
    {
        proof {
            use_type_invariant(&self);
        }
        self.0
    }

    /// Creates a new `PathId` instance.
    pub fn from_raw(id: usize) -> (r: Self)
        requires
            id > 0,
        ensures
            r == PathId::of(id),
    {
        PathId(id)
    }
}

/// Whether a character is one of the ten decimal digits.
pub open spec fn is_digit(c: char) -> bool {
    '0' <= c <= '9'
}

/// The number that a string of decimal digits writes.
pub open spec fn decimal_value(digits: Seq<char>) -> nat
    decreases digits.len(),
{
    if digits.len() == 0 {
        0
    } else {
        decimal_value(digits.drop_last()) * 10 + (digits.last() as u32 - '0' as u32) as nat
    }
}

/// A written number without the plus sign that may stand before it.
pub open spec fn unsigned(raw: Seq<char>) -> Seq<char> {
    if raw.len() > 0 && raw[0] == '+' {
        raw.skip(1)
    } else {
        raw
    }
}

/// The number of the handle that `raw` writes: decimal digits, at least one,
/// after at most one plus sign, for a number that is not zero and that a
/// handle can hold. Anything else writes no handle.
pub open spec fn parsed(raw: Seq<char>) -> Option<usize> {
    let digits = unsigned(raw);
    if digits.len() > 0 && (forall|i: int| 0 <= i < digits.len() ==> is_digit(#[trigger] digits[i]))
        && 0 < decimal_value(digits) <= usize::MAX {
        Some(decimal_value(digits) as usize)
    } else {
        None
    }
}

/// A string of digits writes no less than any of its beginnings.
proof fn lemma_decimal_value_grows(digits: Seq<char>, n: int)
    requires
        0 <= n <= digits.len(),
        forall|i: int| 0 <= i < digits.len() ==> is_digit(#[trigger] digits[i]),
    ensures
        decimal_value(digits.take(n)) <= decimal_value(digits),
    decreases digits.len() - n,
{
    if n == digits.len() {
        assert(digits.take(n) =~= digits);
    } else {
        lemma_decimal_value_grows(digits, n + 1);
        assert(digits.take(n + 1).drop_last() =~= digits.take(n));
        assert(is_digit(digits[n]));
        assert(digits.take(n + 1).last() == digits[n]);
    }
}

impl PathId {
    /// Reads a handle from its written number: see `parsed`.
    pub fn parse(raw: &str) -> (id: Option<PathId>)
        ensures
            match id {
                Some(id) => parsed(raw@) == Some(id@),
                None => parsed(raw@) is None,
            },
    {
        let len = raw.unicode_len();
        let start: usize = if len > 0 && raw.get_char(0) == '+' {
            1
        } else {
            0
        };
        let ghost digits = unsigned(raw@);
        if start == len {
            return None;
        }
        let mut value: usize = 0;
        let mut i: usize = start;
        while i < len
            invariant
                start <= i <= len,
                len == raw@.len(),
                digits == unsigned(raw@),
                digits == raw@.skip(start as int),
                forall|j: int| 0 <= j < i - start ==> is_digit(#[trigger] digits[j]),
                value == decimal_value(digits.take(i - start)),
            decreases len - i,
        {
            let c = raw.get_char(i);
            assert(c == digits[i - start]);
            if !('0' <= c && c <= '9') {
                assert(!is_digit(digits[i - start]));
                return None;
            }
            let d = (c as u32 - '0' as u32) as usize;
            assert(digits.take(i - start + 1).drop_last() =~= digits.take(i - start));
            assert(digits.take(i - start + 1).last() == c);
            if value > (usize::MAX - d) / 10 {
                proof {
                    if forall|j: int| 0 <= j < digits.len() ==> is_digit(#[trigger] digits[j]) {
                        lemma_decimal_value_grows(digits, i - start + 1);
                    }
                }
                return None;
            }
            value = value * 10 + d;
            i += 1;
        }
        assert(digits.take(i - start) =~= digits);
        if value == 0 {
            None
        } else {
            Some(PathId::from_raw(value))
        }
    }
}

/// The insertion-ordered set of an outside crate, made known to the verifier.
#[verifier::external_type_specification]
#[verifier::external_body]
#[verifier::reject_recursive_types(T)]
#[verifier::reject_recursive_types(S)]
pub struct ExIndexSet<T, S>(IndexSet<T, S>);

/// The strings that an `IndexSet` holds, in the order of their indices.
pub uninterp spec fn index_set_items(set: IndexSet<String>) -> Seq<Seq<char>>;

/// `IndexSet::new`: the set it makes holds nothing.
#[verifier::external_body]
fn index_set_new() -> (set: IndexSet<String>)
    ensures
        index_set_items(set) == Seq::<Seq<char>>::empty(),
{
    IndexSet::new()
}

/// `IndexSet::insert_full`: where an equal string is in the set already, the
/// set stays as it is and the call gives that string's index and `false`;
/// else the string is put last and the call gives its index and `true`.
/// Being a set, it holds no string twice afterwards, and the number of strings
/// held is one that `IndexSet::len` can return.
#[verifier::external_body]
fn index_set_insert_full(set: &mut IndexSet<String>, value: String) -> (r: (usize, bool))
    ensures
        index_set_items(*final(set)).no_duplicates(),
        index_set_items(*final(set)).len() <= usize::MAX,
        index_set_items(*old(set)).contains(value@) ==> {
            &&& !r.1
            &&& r.0 < index_set_items(*old(set)).len()
            &&& index_set_items(*old(set))[r.0 as int] == value@
            &&& index_set_items(*final(set)) == index_set_items(*old(set))
        },
        !index_set_items(*old(set)).contains(value@) ==> {
            &&& r.1
            &&& r.0 == index_set_items(*old(set)).len()
            &&& index_set_items(*final(set)) == index_set_items(*old(set)).push(value@)
        },
{
    set.insert_full(value)
}

/// `IndexSet::get_index`: a copy of the string at `index`, and nothing where
/// `index` is not below the number of strings held.
#[verifier::external_body]
fn index_set_get_index(set: &IndexSet<String>, index: usize) -> (r: Option<String>)
    ensures
        match r {
            Some(s) => index < index_set_items(*set).len() && s@ == index_set_items(*set)[
                index as int
            ],
            None => index >= index_set_items(*set).len(),
        },
{
    set.get_index(index).cloned()
}

/// The table after `path` was interned into `items`: unchanged where it holds
/// the path already, else longer by that path.
pub open spec fn interned(items: Seq<Seq<char>>, path: Seq<char>) -> Seq<Seq<char>> {
    if items.contains(path) {
        items
    } else {
        items.push(path)
    }
}

/// The number of the handle that `items` has for `path`: its place in the
/// table, counted from one.
pub open spec fn id_in(items: Seq<Seq<char>>, path: Seq<char>) -> int {
    items.index_of(path) + 1
}

/// The path that `items` has for the handle numbered `raw`, if any.
pub open spec fn resolved(items: Seq<Seq<char>>, raw: int) -> Option<Seq<char>> {
    if 1 <= raw <= items.len() {
        Some(items[raw - 1])
    } else {
        None
    }
}

/// Interning keeps what the table held, each path at its place, and keeps the
/// table free of repetitions.
pub proof fn lemma_interned_extends(items: Seq<Seq<char>>, path: Seq<char>)
    requires
        items.no_duplicates(),
    ensures
        items.is_prefix_of(interned(items, path)),
        interned(items, path).no_duplicates(),
        interned(items, path).contains(path),
        resolved(interned(items, path), id_in(interned(items, path), path)) == Some(path),
{
    let after = interned(items, path);
    if !items.contains(path) {
        assert(after[items.len() as int] == path);
    }
    assert(after.contains(path));
    let i = after.index_of(path);
    assert(0 <= i < after.len() && after[i] == path);
}

/// A path that the table holds keeps its id whatever is interned after it.
pub proof fn lemma_id_stable(items: Seq<Seq<char>>, later: Seq<Seq<char>>, path: Seq<char>)
    requires
        items.contains(path),
        items.is_prefix_of(later),
        later.no_duplicates(),
    ensures
        later.contains(path),
        id_in(later, path) == id_in(items, path),
{
    let i = items.index_of(path);
    assert(0 <= i < items.len() && items[i] == path);
    assert(later[i] == path);
    assert(later.contains(path));
    let j = later.index_of(path);
    assert(0 <= j < later.len() && later[j] == path);
}

/// Interning the same path twice gives the same id both times, whatever was
/// interned in between, and the second call leaves the table as it found it.
pub proof fn lemma_intern_twice(items: Seq<Seq<char>>, between: Seq<Seq<char>>, path: Seq<char>)
    requires
        items.no_duplicates(),
        between.no_duplicates(),
        interned(items, path).is_prefix_of(between),
    ensures
        interned(between, path) == between,
        id_in(interned(between, path), path) == id_in(interned(items, path), path),
{
    lemma_interned_extends(items, path);
    lemma_id_stable(interned(items, path), between, path);
}

/// A path interner that stores the paths and provides path ids.
pub struct PathInterner {
    /// The paths, each at the place that its id names.
    paths: IndexSet<String>,
}

impl View for PathInterner {
    type V = Seq<Seq<char>>;

    closed spec fn view(&self) -> Seq<Seq<char>> {
        index_set_items(self.paths)
    }
}

impl PathInterner {
    /// An interner that knows no path yet.
    pub fn new() -> (r: Self)
        ensures
            r@ == Seq::<Seq<char>>::empty(),
    {
        PathInterner { paths: index_set_new() }
    }

    /// Interns a path.
    pub fn intern(&mut self, path: &str) -> (id: PathId)
        ensures
            final(self)@ == interned(old(self)@, path@),
            final(self)@.no_duplicates(),
            final(self)@.len() <= usize::MAX,
            id@ == id_in(final(self)@, path@),
            resolved(final(self)@, id@ as int) == Some(path@),
    {
        let ghost before = self@;
        let (index, _) = index_set_insert_full(&mut self.paths, path.to_owned());
        proof {
            let after = index_set_items(self.paths);
            assert(after == interned(before, path@));
            assert(after.no_duplicates());
            assert(after[index as int] == path@);
            assert(after.contains(path@));
            assert(after.index_of(path@) == index);
        }
        PathId::from_raw(index + 1)
    }

    /// Gets the path by id.
    pub fn get(&self, id: PathId) -> (r: Option<String>)
        ensures
            match r {
                Some(path) => resolved(self@, id@ as int) == Some(path@),
                None => resolved(self@, id@ as int) is None,
            },
    {
        let raw = id.into_raw();
        index_set_get_index(&self.paths, raw - 1)
    }
}

} // verus!
