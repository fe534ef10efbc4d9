//! The name interner: a compact, stable handle for every identifier string.
//!
//! The store is append-only: a handle, once issued, is never reused or
//! invalidated, and equal strings always receive the same handle. The handles
//! are dense indices into the sequence of distinct strings in the order they
//! were first interned; [`interner_strings`] names that sequence, and the
//! model operations [`spec_intern`] and [`spec_resolve`] describe interning
//! and resolution over it.

use string_interner::Symbol;
use vstd::prelude::*;

verus! {

/// A string interner backed by a dense-symbol string arena.
#[verifier::external_body]
pub struct Interner {
    inner: string_interner::DefaultStringInterner,
}

/// The distinct strings an interner holds, in the order their handles were
/// issued; the handle of a string is its index here.
pub uninterp spec fn interner_strings(i: Interner) -> Seq<Seq<char>>;

/// The first index of `s` in `v` at or after `i`, or `v.len()` if there is
/// none.
pub open spec fn string_index(v: Seq<Seq<char>>, s: Seq<char>, i: int) -> int
    decreases v.len() - i,
{
    if i < 0 || i >= v.len() {
        v.len() as int
    } else if v[i] == s {
        i
    } else {
        string_index(v, s, i + 1)
    }
}

/// The model of interning: the handle of `s` and the store afterwards. An
/// already-present string keeps the store and returns its index; a new one is
/// appended and returns the fresh index.
pub open spec fn spec_intern(v: Seq<Seq<char>>, s: Seq<char>) -> (int, Seq<Seq<char>>) {
    let j = string_index(v, s, 0);
    if j < v.len() {
        (j, v)
    } else {
        (v.len() as int, v.push(s))
    }
}

/// The model of resolution: the string at an issued handle.
pub open spec fn spec_resolve(v: Seq<Seq<char>>, n: int) -> Option<Seq<char>> {
    if 0 <= n < v.len() {
        Some(v[n])
    } else {
        None
    }
}

impl Interner {
    /// Relies on `StringInterner::new`: a fresh interner holds no strings.
    #[verifier::external_body]
    pub(crate) fn new() -> (r: Interner)
        ensures
            interner_strings(r) == Seq::<Seq<char>>::empty(),
    {
        Interner { inner: string_interner::StringInterner::new() }
    }

    /// Relies on `StringInterner::len` with the default string backend: the
    /// number of distinct interned strings.
    #[verifier::external_body]
    pub(crate) fn len(&self) -> (r: usize)
        ensures
            r as nat == interner_strings(*self).len(),
    {
        self.inner.len()
    }

    /// Relies on `StringInterner::get_or_intern` with the default string
    /// backend: an equal string receives the symbol it already has, a new
    /// string is appended and receives the next dense index. It panics only
    /// when the `u32` symbol space is exhausted, which the precondition
    /// keeps out.
    #[verifier::external_body]
    pub(crate) fn get_or_intern(&mut self, s: &str) -> (r: u32)
        requires
            interner_strings(*old(self)).len() < u32::MAX as nat,
        ensures
            r as int == spec_intern(interner_strings(*old(self)), s@).0,
            interner_strings(*final(self)) == spec_intern(interner_strings(*old(self)), s@).1,
    {
        self.inner.get_or_intern(s).to_usize() as u32
    }

    /// Relies on `StringInterner::resolve` and `Symbol::try_from_usize` with
    /// the default string backend: the string at an issued dense index, and
    /// `None` past the end of the store.
    #[verifier::external_body]
    pub(crate) fn resolve(&self, n: u32) -> (r: Option<String>)
        ensures
            n < u32::MAX && (n as int) < interner_strings(*self).len() ==> r is Some
                && r->0@ == interner_strings(*self)[n as int],
            (n as int) >= interner_strings(*self).len() ==> r is None,
    {
        match string_interner::DefaultSymbol::try_from_usize(n as usize) {
            Some(sym) => self.inner.resolve(sym).map(|s| s.to_string()),
            None => None,
        }
    }
}

/// Scanning past a pushed element: the first index of `s` is unchanged when
/// `s` already occurs, is the old length when the pushed element is `s`
/// itself, and lies past the end otherwise.
proof fn lemma_string_index_push(v: Seq<Seq<char>>, x: Seq<char>, s: Seq<char>, i: int)
    requires
        0 <= i <= v.len(),
    ensures
        string_index(v.push(x), s, i) == if string_index(v, s, i) < v.len() {
            string_index(v, s, i)
        } else if s == x {
            v.len() as int
        } else {
            v.len() + 1int
        },
    decreases v.len() - i,
{
    if i < v.len() {
        assert(v.push(x)[i] == v[i]);
        lemma_string_index_push(v, x, s, i + 1);
    } else {
        assert(v.push(x)[v.len() as int] == x);
        if s == x {
        } else {
            assert(string_index(v.push(x), s, i + 1) == v.len() + 1int);
        }
    }
}

/// A found index holds the string; a result at the end means no occurrence.
pub proof fn lemma_string_index_found_public(v: Seq<Seq<char>>, s: Seq<char>, i: int)
    requires
        0 <= i <= v.len(),
    ensures
        i <= string_index(v, s, i) <= v.len(),
        string_index(v, s, i) < v.len() ==> v[string_index(v, s, i)] == s,
    decreases v.len() - i,
{
    if i < v.len() && v[i] != s {
        lemma_string_index_found_public(v, s, i + 1);
    }
}

/// Interner idempotence, first half: interning the same string twice returns
/// the same handle and leaves the store unchanged the second time.
pub proof fn lemma_intern_idempotent(v: Seq<Seq<char>>, s: Seq<char>)
    ensures
        spec_intern(spec_intern(v, s).1, s).0 == spec_intern(v, s).0,
        spec_intern(spec_intern(v, s).1, s).1 == spec_intern(v, s).1,
{
    let j = string_index(v, s, 0);
    lemma_string_index_found_public(v, s, 0);
    if j < v.len() {
    } else {
        lemma_string_index_push(v, s, s, 0);
    }
}

/// Interner idempotence, second half: resolving a freshly interned handle
/// returns the interned string.
pub proof fn lemma_resolve_intern(v: Seq<Seq<char>>, s: Seq<char>)
    ensures
        spec_resolve(spec_intern(v, s).1, spec_intern(v, s).0) == Some(s),
{
    let j = string_index(v, s, 0);
    lemma_string_index_found_public(v, s, 0);
    if j < v.len() {
    } else {
        assert(v.push(s)[v.len() as int] == s);
    }
}

/// Whether a store holds no string twice; every store the interner builds is
/// of this shape, since interning never appends a string already present.
pub open spec fn strings_distinct(v: Seq<Seq<char>>) -> bool {
    forall|i: int, j: int| 0 <= i < j < v.len() ==> v[i] != v[j]
}

/// In a distinct store, interning a string already present returns its handle
/// and leaves the store unchanged.
pub proof fn lemma_intern_present(v: Seq<Seq<char>>, k: int)
    requires
        strings_distinct(v),
        0 <= k < v.len(),
    ensures
        spec_intern(v, v[k]) == (k, v),
{
    lemma_string_index_unique(v, k, 0);
}

/// In a distinct store, the scan for a present string settles on its one
/// index.
proof fn lemma_string_index_unique(v: Seq<Seq<char>>, k: int, i: int)
    requires
        strings_distinct(v),
        0 <= i <= k < v.len(),
    ensures
        string_index(v, v[k], i) == k,
    decreases k - i,
{
    if i < k {
        assert(v[i] != v[k]);
        lemma_string_index_unique(v, k, i + 1);
    }
}

/// Interning preserves distinctness: a string is only appended when absent.
pub proof fn lemma_intern_preserves_distinct(v: Seq<Seq<char>>, s: Seq<char>)
    requires
        strings_distinct(v),
    ensures
        strings_distinct(spec_intern(v, s).1),
{
    let j = string_index(v, s, 0);
    lemma_string_index_found_public(v, s, 0);
    if j >= v.len() {
        lemma_string_index_no_occurrence(v, s, 0);
        let v2 = v.push(s);
        assert forall|a: int, b: int| 0 <= a < b < v2.len() implies v2[a] != v2[b] by {
            if b == v.len() {
                assert(v2[a] == v[a]);
            }
        }
    }
}

/// A scan that reaches the end found no occurrence at or after `i`.
proof fn lemma_string_index_no_occurrence(v: Seq<Seq<char>>, s: Seq<char>, i: int)
    requires
        0 <= i <= v.len(),
        string_index(v, s, i) == v.len(),
    ensures
        forall|j: int| i <= j < v.len() ==> v[j] != s,
    decreases v.len() - i,
{
    if i < v.len() {
        lemma_string_index_no_occurrence(v, s, i + 1);
    }
}

} // verus!
