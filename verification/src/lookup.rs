//! An indexed structure of scopes that allows quick point lookup.
//!
//! [`ScopeIndex::new`] sorts the extracted scope entries by start offset
//! (stably, so ties keep traversal order), interns the rendered names into a
//! deduplicated name table, and keeps a flat list of `(start, id)` pairs.
//! [`ScopeIndex::lookup`] binary-searches that list for the last entry
//! starting at or before an offset.  The treatment of scopes as a
//! left-to-right sequence rather than a nesting tree is deliberate: it
//! matches how browsers attribute a stack-trace column to the innermost
//! function starting at or before that column.

use indexmap::IndexSet;
use std::collections::hash_map::RandomState;
use vstd::prelude::*;

verus! {

use crate::scope_name::SourceSpan;

/// Name id used to denote the unknown/global scope.
pub const GLOBAL_SCOPE_SENTINEL: u32 = u32::MAX;

/// Name id used to denote an anonymous scope.
pub const ANONYMOUS_SCOPE_SENTINEL: u32 = u32::MAX - 1;

/// An error that can happen when building a [`ScopeIndex`]: the number of
/// distinct names exceeds what the id width can represent once the two
/// sentinel values are reserved.
#[derive(Debug)]
pub struct ScopeIndexError(());

impl ScopeIndexError {
    /// A description of the failure.
    pub fn message(&self) -> (r: &'static str)
        ensures
            r@ == "too many distinct scope names for the index"@,
    {
        "too many distinct scope names for the index"
    }
}

/// The result of a scope lookup.
#[derive(Debug, Clone, PartialEq, Eq)]
pub enum ScopeLookupResult {
    /// A named function scope.
    NamedScope(String),
    /// An anonymous function scope for which no name was inferred.
    AnonymousScope,
    /// The lookup did not result in any scope match.
    ///
    /// This most likely means that the offset belongs to the "global" scope.
    Unknown,
}

/// The mathematical value of a [`ScopeLookupResult`].
pub enum ScopeLookupModel {
    /// A named scope with the rendered name.
    Named(Seq<char>),
    /// An anonymous scope.
    Anonymous,
    /// No scope match.
    Unknown,
}

impl View for ScopeLookupResult {
    type V = ScopeLookupModel;

    open spec fn view(&self) -> ScopeLookupModel {
        match self {
            ScopeLookupResult::NamedScope(s) => ScopeLookupModel::Named(s@),
            ScopeLookupResult::AnonymousScope => ScopeLookupModel::Anonymous,
            ScopeLookupResult::Unknown => ScopeLookupModel::Unknown,
        }
    }
}

} // verus!

verus! {

// ---------------------------------------------------------------------------
// Trusted surface: the `indexmap::IndexSet` collection and its operations.
// ---------------------------------------------------------------------------

/// The order-preserving deduplicating set of the `indexmap` crate, which the
/// index uses as its name table.
#[verifier::external_type_specification]
#[verifier::external_body]
#[verifier::reject_recursive_types(T)]
#[verifier::reject_recursive_types(S)]
pub struct ExIndexSet<T, S>(IndexSet<T, S>);

/// What an [`IndexSet`] of strings holds: the values in insertion order.
pub uninterp spec fn iset_contents(s: IndexSet<String, RandomState>) -> Seq<Seq<char>>;

/// Relies on `IndexSet::new`: the new set is empty.
#[verifier::external_body]
pub(crate) fn iset_new() -> (r: IndexSet<String, RandomState>)
    ensures
        iset_contents(r) == Seq::<Seq<char>>::empty(),
{
    IndexSet::new()
}

/// Relies on `IndexSet::insert_full`: a value already present leaves the set
/// unchanged and yields its index; a new value is appended at the end.  The
/// boolean says whether the value was inserted.
#[verifier::external_body]
pub(crate) fn iset_insert_full(s: &mut IndexSet<String, RandomState>, v: String) -> (r: (usize, bool))
    ensures
        (exists|k: int|
            0 <= k < iset_contents(*old(s)).len() && iset_contents(*old(s))[k] == v@) ==> (!r.1
            && iset_contents(*final(s)) == iset_contents(*old(s)) && 0 <= r.0 < iset_contents(
            *old(s),
        ).len() && iset_contents(*old(s))[r.0 as int] == v@),
        !(exists|k: int|
            0 <= k < iset_contents(*old(s)).len() && iset_contents(*old(s))[k] == v@) ==> (r.1
            && iset_contents(*final(s)) == iset_contents(*old(s)).push(v@) && r.0
            == iset_contents(*old(s)).len()),
{
    s.insert_full(v)
}

/// Relies on `IndexSet::get_index`: the value at an index, in insertion
/// order, cloned out of the set.
#[verifier::external_body]
pub(crate) fn iset_get_index(s: &IndexSet<String, RandomState>, i: usize) -> (r: Option<String>)
    ensures
        (r is Some) == (i < iset_contents(*s).len()),
        i < iset_contents(*s).len() ==> r->0@ == iset_contents(*s)[i as int],
{
    s.get_index(i).cloned()
}

} // verus!

verus! {

// ---------------------------------------------------------------------------
// The index model: stable sorting, interning, and rightmost-start lookup.
// ---------------------------------------------------------------------------

/// One input entry as a mathematical value: the span and the rendered name.
pub type EntryModel = (SourceSpan, Option<Seq<char>>);

/// The view of one input entry.
pub open spec fn entry_view(e: (SourceSpan, Option<String>)) -> EntryModel {
    (
        e.0,
        match e.1 {
            Some(s) => Some(s@),
            None => None,
        },
    )
}

/// Inserts `x` after every entry whose start is at or before its own:
/// the insertion step of a stable insertion sort on the start offset.
pub open spec fn insert_sorted(s: Seq<EntryModel>, x: EntryModel) -> Seq<EntryModel>
    decreases s.len(),
{
    if s.len() == 0 {
        seq![x]
    } else if s.last().0.start <= x.0.start {
        s.push(x)
    } else {
        insert_sorted(s.drop_last(), x).push(s.last())
    }
}

/// The stable sort of the entries by start offset: ties keep their order.
pub open spec fn sort_model(s: Seq<EntryModel>) -> Seq<EntryModel>
    decreases s.len(),
{
    if s.len() == 0 {
        s
    } else {
        insert_sorted(sort_model(s.drop_last()), s.last())
    }
}

/// Whether the entries are sorted by start offset.
pub open spec fn sorted_by_start(s: Seq<EntryModel>) -> bool {
    forall|i: int, j: int| 0 <= i < j < s.len() ==> (#[trigger] s[i]).0.start <= (#[trigger] s[j]).0.start
}

/// Whether the `(start, id)` pairs are sorted by start.
pub open spec fn sorted_ranges(s: Seq<(u32, u32)>) -> bool {
    forall|i: int, j: int| 0 <= i < j < s.len() ==> (#[trigger] s[i]).0 <= (#[trigger] s[j]).0
}

/// No value occurs twice.
pub open spec fn no_dup(s: Seq<Seq<char>>) -> bool {
    forall|i: int, j: int| 0 <= i < j < s.len() ==> (#[trigger] s[i]) != (#[trigger] s[j])
}

/// The index of the first occurrence of `v`.
pub open spec fn seq_index_of(s: Seq<Seq<char>>, v: Seq<char>) -> int
    decreases s.len(),
{
    if s.len() == 0 {
        0
    } else if s[0] == v {
        0
    } else {
        1 + seq_index_of(s.drop_first(), v)
    }
}

/// The result of interning the first `n` sorted entries: the name table in
/// first-use order and the `(start, id)` pairs, or `None` when the table
/// outgrew the id space.
pub open spec fn intern_model(s: Seq<EntryModel>, n: int) -> Option<
    (Seq<Seq<char>>, Seq<(u32, u32)>),
>
    decreases n,
    when n >= 0
{
    if n <= 0 {
        Some((Seq::<Seq<char>>::empty(), Seq::<(u32, u32)>::empty()))
    } else {
        match intern_model(s, n - 1) {
            None => None,
            Some((names, ranges)) => {
                let e = s[n - 1];
                match e.1 {
                    None => Some((names, ranges.push((e.0.start, ANONYMOUS_SCOPE_SENTINEL)))),
                    Some(text) => {
                        if exists|k: int| 0 <= k < names.len() && names[k] == text {
                            Some(
                                (
                                    names,
                                    ranges.push(
                                        (e.0.start, seq_index_of(names, text) as u32),
                                    ),
                                ),
                            )
                        } else if names.len() >= ANONYMOUS_SCOPE_SENTINEL as int {
                            None
                        } else {
                            Some(
                                (
                                    names.push(text),
                                    ranges.push((e.0.start, names.len() as u32)),
                                ),
                            )
                        }
                    },
                }
            },
        }
    }
}

/// The index of the last range starting at or before `offset`.
pub open spec fn found_idx(ranges: Seq<(u32, u32)>, offset: u32) -> Option<int>
    decreases ranges.len(),
{
    if ranges.len() == 0 {
        None
    } else if ranges.last().0 <= offset {
        Some(ranges.len() - 1)
    } else {
        found_idx(ranges.drop_last(), offset)
    }
}

/// How a stored id resolves against the name table.
pub open spec fn resolve_model(names: Seq<Seq<char>>, id: u32) -> ScopeLookupModel {
    if id == GLOBAL_SCOPE_SENTINEL {
        ScopeLookupModel::Unknown
    } else if id == ANONYMOUS_SCOPE_SENTINEL {
        ScopeLookupModel::Anonymous
    } else if id < names.len() {
        ScopeLookupModel::Named(names[id as int])
    } else {
        ScopeLookupModel::Unknown
    }
}

/// What a lookup returns: the resolution of the last range starting at or
/// before the offset, or unknown when every range starts after it.
pub open spec fn lookup_model(
    names: Seq<Seq<char>>,
    ranges: Seq<(u32, u32)>,
    offset: u32,
) -> ScopeLookupModel {
    match found_idx(ranges, offset) {
        None => ScopeLookupModel::Unknown,
        Some(i) => resolve_model(names, ranges[i].1),
    }
}

// ---------------------------------------------------------------------------
// Supporting lemmas.
// ---------------------------------------------------------------------------

/// Inserting into a sorted sequence at the boundary position `p` (everything
/// before is at or below `x`, everything from `p` on is above) is what
/// `insert_sorted` does.
proof fn lemma_insert_sorted_split(s: Seq<EntryModel>, x: EntryModel, p: int)
    requires
        0 <= p <= s.len(),
        forall|k: int| 0 <= k < p ==> (#[trigger] s[k]).0.start <= x.0.start,
        forall|k: int| p <= k < s.len() ==> (#[trigger] s[k]).0.start > x.0.start,
    ensures
        insert_sorted(s, x) == s.take(p) + seq![x] + s.skip(p),
    decreases s.len(),
{
    if s.len() == 0 {
        assert(insert_sorted(s, x) =~= s.take(p) + seq![x] + s.skip(p));
    } else if s.last().0.start <= x.0.start {
        assert(p == s.len());
        assert(s.take(p) =~= s);
        assert(insert_sorted(s, x) =~= s.take(p) + seq![x] + s.skip(p));
    } else {
        lemma_insert_sorted_split(s.drop_last(), x, p);
        assert(s.drop_last().take(p) =~= s.take(p));
        assert(insert_sorted(s, x) =~= s.take(p) + seq![x] + s.skip(p));
    }
}

/// The first occurrence of a present value is within bounds and matches, and
/// under `no_dup` every occurrence is the first.
proof fn lemma_seq_index_of(s: Seq<Seq<char>>, v: Seq<char>, k: int)
    requires
        0 <= k < s.len(),
        s[k] == v,
        no_dup(s),
    ensures
        seq_index_of(s, v) == k,
    decreases s.len(),
{
    if s[0] == v {
        assert(k == 0) by {
            if k > 0 {
                assert(s[0] == s[k]);
            }
        }
    } else {
        assert(k >= 1);
        assert(no_dup(s.drop_first())) by {
            assert(forall|i: int, j: int|
                0 <= i < j < s.drop_first().len() ==> (#[trigger] s.drop_first()[i])
                    != (#[trigger] s.drop_first()[j])) by {
                assert(forall|i: int|
                    0 <= i < s.drop_first().len() ==> (#[trigger] s.drop_first()[i]) == s[i
                        + 1]);
            }
        }
        assert(s.drop_first()[k - 1] == v);
        lemma_seq_index_of(s.drop_first(), v, k - 1);
    }
}

/// Characterizes `found_idx`: an index whose start is at or before the
/// offset, with everything after it starting later, is the one found.
proof fn lemma_found_idx_at(ranges: Seq<(u32, u32)>, offset: u32, i: int)
    requires
        0 <= i < ranges.len(),
        ranges[i].0 <= offset,
        forall|k: int| i < k < ranges.len() ==> (#[trigger] ranges[k]).0 > offset,
    ensures
        found_idx(ranges, offset) == Some(i),
    decreases ranges.len(),
{
    if i == ranges.len() - 1 {
    } else {
        assert(ranges.last().0 > offset);
        assert(forall|k: int|
            i < k < ranges.drop_last().len() ==> (#[trigger] ranges.drop_last()[k]).0
                > offset) by {
            assert(forall|k: int|
                0 <= k < ranges.drop_last().len() ==> (#[trigger] ranges.drop_last()[k])
                    == ranges[k]);
        }
        lemma_found_idx_at(ranges.drop_last(), offset, i);
    }
}

/// When every range starts after the offset, nothing is found.
proof fn lemma_found_idx_none(ranges: Seq<(u32, u32)>, offset: u32)
    requires
        forall|k: int| 0 <= k < ranges.len() ==> (#[trigger] ranges[k]).0 > offset,
    ensures
        found_idx(ranges, offset) is None,
    decreases ranges.len(),
{
    if ranges.len() > 0 {
        lemma_found_idx_none(ranges.drop_last(), offset);
    }
}

/// Inserting one entry grows the sequence by one.
proof fn lemma_insert_sorted_len(s: Seq<EntryModel>, x: EntryModel)
    ensures
        insert_sorted(s, x).len() == s.len() + 1,
    decreases s.len(),
{
    if s.len() > 0 && !(s.last().0.start <= x.0.start) {
        lemma_insert_sorted_len(s.drop_last(), x);
    }
}

/// Sorting preserves the number of entries.
pub proof fn lemma_sort_len(s: Seq<EntryModel>)
    ensures
        sort_model(s).len() == s.len(),
    decreases s.len(),
{
    if s.len() > 0 {
        lemma_sort_len(s.drop_last());
        lemma_insert_sorted_len(sort_model(s.drop_last()), s.last());
    }
}

/// Interning cannot overflow while the entries are fewer than the id space:
/// the name table grows by at most one name per entry.
pub proof fn lemma_intern_small(s: Seq<EntryModel>, n: int)
    requires
        0 <= n < ANONYMOUS_SCOPE_SENTINEL as int,
    ensures
        intern_model(s, n) is Some,
        (intern_model(s, n)->0).0.len() <= n,
    decreases n,
{
    if n > 0 {
        lemma_intern_small(s, n - 1);
    }
}

/// Once interning has overflowed, it stays overflowed.
proof fn lemma_intern_none_persists(s: Seq<EntryModel>, n: int, m: int)
    requires
        0 <= n <= m,
        intern_model(s, n) is None,
    ensures
        intern_model(s, m) is None,
    decreases m - n,
{
    if m > n {
        lemma_intern_none_persists(s, n, m - 1);
    }
}

// ---------------------------------------------------------------------------
// The index itself.
// ---------------------------------------------------------------------------

/// An indexed structure of scopes that allows quick lookup by offset.
pub struct ScopeIndex {
    names: IndexSet<String, RandomState>,
    /// start offset -> index into `names`, or one of the sentinels.
    ranges: Vec<(u32, u32)>,
}

impl ScopeIndex {
    /// The interned name table, in first-use order.
    pub closed spec fn names_spec(&self) -> Seq<Seq<char>> {
        iset_contents(self.names)
    }

    /// The `(start, id)` pairs, sorted by start.
    pub closed spec fn ranges_spec(&self) -> Seq<(u32, u32)> {
        self.ranges@
    }

    /// Well-formedness: the name table has no duplicates, the ranges are
    /// sorted by start, and every stored id is a sentinel or a table index.
    pub open spec fn wf(&self) -> bool {
        &&& no_dup(self.names_spec())
        &&& sorted_ranges(self.ranges_spec())
        &&& self.names_spec().len() <= ANONYMOUS_SCOPE_SENTINEL as int
        &&& (forall|k: int|
            0 <= k < self.ranges_spec().len() ==> ((#[trigger] self.ranges_spec()[k]).1
                == ANONYMOUS_SCOPE_SENTINEL || self.ranges_spec()[k].1
                < self.names_spec().len()))
    }

    /// Creates a new scope index from the given list of scopes.
    ///
    /// The entries are sorted by start offset, stably, and the rendered
    /// names are interned.  Fails exactly when the number of distinct names
    /// exceeds what the id width can represent beside the two sentinels.
    #[verifier::loop_isolation(false)]
    pub fn new(scopes: Vec<(SourceSpan, Option<String>)>) -> (r: Result<
        ScopeIndex,
        ScopeIndexError,
    >)
        ensures
            ({
                let sorted = sort_model(
                    scopes@.map_values(|e: (SourceSpan, Option<String>)| entry_view(e)),
                );
                match r {
                    Ok(ix) => ix.wf() && (intern_model(sorted, sorted.len() as int) matches Some(
                        m,
                    ) && ix.names_spec() == m.0 && ix.ranges_spec() == m.1),
                    Err(_) => intern_model(sorted, sorted.len() as int) is None,
                }
            }),
    {
        let ghost entries0 = scopes@.map_values(
            |e: (SourceSpan, Option<String>)| entry_view(e),
        );

        // Stable insertion sort by start offset.
        let mut sorted: Vec<(SourceSpan, Option<String>)> = Vec::new();
        let mut i: usize = 0;
        while i < scopes.len()
            invariant
                i <= scopes@.len(),
                sorted@.map_values(|e: (SourceSpan, Option<String>)| entry_view(e))
                    == sort_model(entries0.take(i as int)),
                sorted_by_start(
                    sorted@.map_values(|e: (SourceSpan, Option<String>)| entry_view(e)),
                ),
            decreases scopes@.len() - i,
        {
            let ghost svm = sorted@.map_values(
                |e: (SourceSpan, Option<String>)| entry_view(e),
            );
            let x = (scopes[i].0, clone_opt_string(&scopes[i].1));
            let ghost xv = entry_view(x);
            proof {
                assert(xv == entries0[i as int]);
            }
            let mut p: usize = sorted.len();
            while p > 0 && sorted[p - 1].0.start > x.0.start
                invariant
                    p <= sorted@.len(),
                    forall|k: int|
                        p <= k < sorted@.len() ==> (#[trigger] sorted@[k]).0.start > x.0.start,
                decreases p,
            {
                p = p - 1;
            }
            proof {
                assert(forall|k: int|
                    0 <= k < p ==> (#[trigger] svm[k]).0.start <= xv.0.start) by {
                    if p > 0 {
                        assert(sorted@[p - 1].0.start <= x.0.start);
                        assert(forall|k: int|
                            0 <= k < p ==> (#[trigger] svm[k]).0.start <= svm[p - 1].0.start);
                    }
                }
                assert(forall|k: int|
                    p <= k < svm.len() ==> (#[trigger] svm[k]).0.start > xv.0.start);
                lemma_insert_sorted_split(svm, xv, p as int);
            }
            sorted.insert(p, x);
            proof {
                assert(sorted@.map_values(|e: (SourceSpan, Option<String>)| entry_view(e)) =~= (
                svm.take(p as int) + seq![xv] + svm.skip(p as int)));
                assert(entries0.take(i + 1).drop_last() =~= entries0.take(i as int));
                assert(entries0.take(i + 1).last() == entries0[i as int]);
                assert(sort_model(entries0.take(i + 1)) == insert_sorted(
                    sort_model(entries0.take(i as int)),
                    entries0[i as int],
                ));
                let merged = svm.take(p as int) + seq![xv] + svm.skip(p as int);
                assert(sorted_by_start(merged)) by {
                    assert(forall|k: int|
                        0 <= k < p ==> (#[trigger] merged[k]) == svm[k]);
                    assert(merged[p as int] == xv);
                    assert(forall|k: int|
                        p < k < merged.len() ==> (#[trigger] merged[k]) == svm[k - 1]);
                }
            }
            i = i + 1;
        }
        proof {
            assert(entries0.take(entries0.len() as int) =~= entries0);
        }

        // Intern the names, in sorted order.
        let ghost sortedv = sort_model(entries0);
        let mut names = iset_new();
        let mut ranges: Vec<(u32, u32)> = Vec::new();
        let mut j: usize = 0;
        while j < sorted.len()
            invariant
                j <= sorted@.len(),
                sorted@.map_values(|e: (SourceSpan, Option<String>)| entry_view(e)) == sortedv,
                intern_model(sortedv, j as int) matches Some(m) && iset_contents(names) == m.0
                    && ranges@ == m.1,
                no_dup(iset_contents(names)),
                iset_contents(names).len() <= ANONYMOUS_SCOPE_SENTINEL as int,
                ranges@.len() == j,
                forall|k: int|
                    0 <= k < ranges@.len() ==> ((#[trigger] ranges@[k]).1
                        == ANONYMOUS_SCOPE_SENTINEL || ranges@[k].1 < iset_contents(
                        names,
                    ).len()),
                sorted_ranges(ranges@),
                forall|k: int|
                    0 <= k < ranges@.len() ==> (#[trigger] ranges@[k]).0 == sortedv[k].0.start,
                sorted_by_start(sortedv),
            decreases sorted@.len() - j,
        {
            let ghost names_pre = iset_contents(names);
            let entry = &sorted[j];
            let start = entry.0.start;
            proof {
                assert(entry_view(sorted@[j as int]) == sortedv[j as int]);
            }
            match clone_opt_string(&entry.1) {
                None => {
                    ranges.push((start, ANONYMOUS_SCOPE_SENTINEL));
                },
                Some(text) => {
                    let ghost textv = text@;
                    let limit = sentinel_limit();
                    let (idx, inserted) = iset_insert_full(&mut names, text);
                    if inserted {
                        if idx >= limit {
                            // The table outgrew the id space.  The value was
                            // appended, so the model's overflow case applies.
                            proof {
                                assert(names_pre.len() >= ANONYMOUS_SCOPE_SENTINEL as int);
                                assert(intern_model(sortedv, j + 1) is None);
                                lemma_intern_none_persists(
                                    sortedv,
                                    j + 1,
                                    sortedv.len() as int,
                                );
                            }
                            return Err(ScopeIndexError(()));
                        }
                        proof {
                            assert(no_dup(iset_contents(names))) by {
                                assert(forall|k: int|
                                    0 <= k < names_pre.len() ==> (#[trigger] iset_contents(
                                        names,
                                    )[k]) == names_pre[k]);
                            }
                        }
                        ranges.push((start, idx as u32));
                    } else {
                        proof {
                            lemma_seq_index_of(names_pre, textv, idx as int);
                        }
                        ranges.push((start, idx as u32));
                    }
                },
            }
            proof {
                assert(ranges@[j as int].0 == sortedv[j as int].0.start);
                assert(forall|k: int|
                    0 <= k < ranges@.len() ==> (#[trigger] ranges@[k]).0
                        == sortedv[k].0.start);
                assert(sorted_ranges(ranges@)) by {
                    assert(forall|a: int, b: int|
                        0 <= a < b < ranges@.len() ==> (#[trigger] sortedv[a]).0.start
                            <= (#[trigger] sortedv[b]).0.start);
                }
            }
            j = j + 1;
        }
        proof {
            assert(intern_model(sortedv, sortedv.len() as int) matches Some(m)
                && iset_contents(names) == m.0 && ranges@ == m.1);
        }
        Ok(ScopeIndex { names, ranges })
    }

    /// Looks up the scope corresponding to the given `offset`: the last
    /// entry starting at or before it, resolved against the name table.
    #[verifier::loop_isolation(false)]
    pub fn lookup(&self, offset: u32) -> (r: ScopeLookupResult)
        ensures
            self.wf() ==> r@ == lookup_model(self.names_spec(), self.ranges_spec(), offset),
    {
        // Binary search for the first entry starting after `offset`.
        let mut lo: usize = 0;
        let mut hi: usize = self.ranges.len();
        while lo < hi
            invariant
                lo <= hi <= self.ranges@.len(),
                self.wf() ==> (forall|k: int|
                    0 <= k < lo ==> (#[trigger] self.ranges@[k]).0 <= offset),
                self.wf() ==> (forall|k: int|
                    hi <= k < self.ranges@.len() ==> (#[trigger] self.ranges@[k]).0 > offset),
            decreases hi - lo,
        {
            let mid = lo + (hi - lo) / 2;
            if self.ranges[mid].0 <= offset {
                lo = mid + 1;
            } else {
                hi = mid;
            }
        }
        if lo == 0 {
            proof {
                if self.wf() {
                    lemma_found_idx_none(self.ranges@, offset);
                }
            }
            return ScopeLookupResult::Unknown;
        }
        let idx = lo - 1;
        proof {
            if self.wf() {
                lemma_found_idx_at(self.ranges@, offset, idx as int);
            }
        }
        let name_idx = self.ranges[idx].1;
        self.resolve_scope(name_idx)
    }

    /// Resolves a stored id: a sentinel or an index into the name table.
    fn resolve_scope(&self, name_idx: u32) -> (r: ScopeLookupResult)
        ensures
            self.wf() ==> r@ == resolve_model(self.names_spec(), name_idx),
    {
        if name_idx == GLOBAL_SCOPE_SENTINEL {
            ScopeLookupResult::Unknown
        } else if name_idx == ANONYMOUS_SCOPE_SENTINEL {
            ScopeLookupResult::AnonymousScope
        } else {
            match iset_get_index(&self.names, name_idx as usize) {
                Some(name) => ScopeLookupResult::NamedScope(name),
                None => ScopeLookupResult::Unknown,
            }
        }
    }

    /// The `(start, id)` pairs, resolved: every entry of the index with its
    /// scope result, sorted by start offset.
    #[verifier::loop_isolation(false)]
    pub fn entries(&self) -> (r: Vec<(u32, ScopeLookupResult)>)
        ensures
            r@.len() == self.ranges_spec().len(),
            self.wf() ==> (forall|k: int|
                0 <= k < r@.len() ==> (#[trigger] r@[k]).0 == self.ranges_spec()[k].0
                    && r@[k].1@ == resolve_model(self.names_spec(), self.ranges_spec()[k].1)),
    {
        let mut out: Vec<(u32, ScopeLookupResult)> = Vec::new();
        let mut k: usize = 0;
        while k < self.ranges.len()
            invariant
                k <= self.ranges@.len(),
                out@.len() == k,
                self.wf() ==> (forall|m: int|
                    0 <= m < out@.len() ==> (#[trigger] out@[m]).0 == self.ranges_spec()[m].0
                        && out@[m].1@ == resolve_model(
                        self.names_spec(),
                        self.ranges_spec()[m].1,
                    )),
            decreases self.ranges@.len() - k,
        {
            let pair = self.ranges[k];
            out.push((pair.0, self.resolve_scope(pair.1)));
            k = k + 1;
        }
        out
    }
}

/// The anonymous sentinel as a table-size limit.
fn sentinel_limit() -> (r: usize)
    ensures
        r == ANONYMOUS_SCOPE_SENTINEL as usize,
        r == ANONYMOUS_SCOPE_SENTINEL as int,
{
    ANONYMOUS_SCOPE_SENTINEL as usize
}

/// Clones an optional string.
fn clone_opt_string(s: &Option<String>) -> (r: Option<String>)
    ensures
        (s matches Some(v) ==> r matches Some(w) && w@ == v@),
        (s is None ==> r is None),
{
    match s {
        Some(v) => Some(v.as_str().to_owned()),
        None => None,
    }
}

// ---------------------------------------------------------------------------
// Lookup monotonicity.
// ---------------------------------------------------------------------------

/// Lookup monotonicity: for any offset at or after the start of the entry at
/// position `i` of the index, provided no later entry starts at or before
/// that offset, the lookup resolves exactly that entry — its interned name,
/// or the anonymous scope when the entry has none.
pub proof fn lemma_lookup_monotonic(ix: ScopeIndex, i: int, offset: u32)
    requires
        ix.wf(),
        0 <= i < ix.ranges_spec().len(),
        ix.ranges_spec()[i].0 <= offset,
        forall|k: int| i < k < ix.ranges_spec().len() ==> (#[trigger] ix.ranges_spec()[k]).0 > offset,
    ensures
        lookup_model(ix.names_spec(), ix.ranges_spec(), offset) == resolve_model(
            ix.names_spec(),
            ix.ranges_spec()[i].1,
        ),
        ix.ranges_spec()[i].1 == ANONYMOUS_SCOPE_SENTINEL ==> lookup_model(
            ix.names_spec(),
            ix.ranges_spec(),
            offset,
        ) == ScopeLookupModel::Anonymous,
        ix.ranges_spec()[i].1 < ix.names_spec().len() ==> lookup_model(
            ix.names_spec(),
            ix.ranges_spec(),
            offset,
        ) == ScopeLookupModel::Named(ix.names_spec()[ix.ranges_spec()[i].1 as int]),
{
    lemma_found_idx_at(ix.ranges_spec(), offset, i);
}

} // verus!
