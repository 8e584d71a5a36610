//! A cache for resolving minified source positions to original locations.
//!
//! [`SmCache`] combines everything in this crate: it extracts the scope names
//! of the minified source, resolves them through the source map, and indexes
//! every source-map token by its minified position for point lookup.  The
//! submodules hold the binary form of the same data: [`writer`] serializes
//! it, [`lookup`] reads it back and answers lookups directly from the bytes.

pub mod lookup;
pub mod raw;
pub mod writer;

use indexmap::IndexSet;
use std::collections::hash_map::RandomState;
use vstd::prelude::*;

verus! {

use crate::Scopes;
use crate::lookup::ANONYMOUS_SCOPE_SENTINEL;
use crate::lookup::GLOBAL_SCOPE_SENTINEL;
use crate::lookup::ScopeIndex;
use crate::lookup::ScopeIndexError;
use crate::lookup::ScopeLookupModel;
use crate::lookup::ScopeLookupResult;
use crate::lookup::iset_contents;
use crate::lookup::iset_get_index;
use crate::lookup::iset_insert_full;
use crate::lookup::iset_new;
use crate::lookup::no_dup;
use crate::name_resolver::NameResolver;
use crate::scope_name::SourceSpan;
use crate::source::SourceContext;
use crate::source::SourceContextError;
use crate::source::SourcePosition;

use vstd::string::StrSliceExecFns;
use vstd::string::StringSliceAdditionalSpecFns;

// ---------------------------------------------------------------------------
// Trusted surface: decoding a source map and walking its tokens.
// ---------------------------------------------------------------------------

/// One source-map token as plain values: its minified line and column, its
/// original file, and its original line.
pub type TokenRow = (u32, u32, Option<String>, u32);

/// The mathematical value of one token row.
pub open spec fn token_row_view(t: TokenRow) -> (u32, u32, Option<Seq<char>>, u32) {
    (
        t.0,
        t.1,
        match t.2 {
            Some(s) => Some(s@),
            None => None,
        },
        t.3,
    )
}

/// Whether a byte string decodes — flattening an index map — to a usable
/// source map.  `decode_slice` and `flatten` read nothing but the bytes, so
/// success is a function of them.
pub uninterp spec fn decode_flat_ok(bytes: Seq<u8>) -> bool;

/// The token rows of the decoded, flattened map of a byte string, in the
/// map's order: a function of the bytes alone.
pub uninterp spec fn decoded_rows(bytes: Seq<u8>) -> Seq<(u32, u32, Option<Seq<char>>, u32)>;

/// What a decoded map holds: its token rows, in the map's order.
pub uninterp spec fn map_rows_of(map: sourcemap::DecodedMap) -> Seq<
    (u32, u32, Option<Seq<char>>, u32),
>;

/// Relies on `sourcemap::decode_slice` and `SourceMapIndex::flatten`:
/// decodes a source map from its JSON bytes, flattening an index map so its
/// tokens can be iterated; a failure comes back as the decoder's message.
/// Both read nothing but the bytes: success is [`decode_flat_ok`] of them,
/// and the decoded map holds exactly [`decoded_rows`] of them.
#[verifier::external_body]
pub(crate) fn decode_flat(bytes: &[u8]) -> (r: Result<sourcemap::DecodedMap, String>)
    ensures
        (r is Ok) == decode_flat_ok(bytes@),
        r matches Ok(m) ==> map_rows_of(m) == decoded_rows(bytes@),
{
    match sourcemap::decode_slice(bytes) {
        Ok(sourcemap::DecodedMap::Regular(sm)) => Ok(sourcemap::DecodedMap::Regular(sm)),
        Ok(sourcemap::DecodedMap::Index(smi)) => match smi.flatten() {
            Ok(sm) => Ok(sourcemap::DecodedMap::Regular(sm)),
            Err(e) => Err(e.to_string()),
        },
        Ok(sourcemap::DecodedMap::Hermes(smh)) => Ok(sourcemap::DecodedMap::Hermes(smh)),
        Err(e) => Err(e.to_string()),
    }
}

/// Relies on `sourcemap::SourceMap::tokens` and the token getters
/// `get_dst_line`, `get_dst_col`, `get_source` and `get_src_line`: every
/// token of the map, in the map's order, converted to plain values — what
/// the map holds, [`map_rows_of`] it.  An index map that was not flattened
/// has no iterable tokens and yields none.
#[verifier::external_body]
pub(crate) fn map_token_rows(map: &sourcemap::DecodedMap) -> (r: Vec<TokenRow>)
    ensures
        r@.map_values(|t: TokenRow| token_row_view(t)) == map_rows_of(*map),
{
    let tokens = match map {
        sourcemap::DecodedMap::Regular(sm) => sm.tokens(),
        sourcemap::DecodedMap::Hermes(smh) => smh.tokens(),
        sourcemap::DecodedMap::Index(_) => return Vec::new(),
    };
    tokens
        .map(|t| (
            t.get_dst_line(),
            t.get_dst_col(),
            t.get_source().map(|s| s.to_owned()),
            t.get_src_line(),
        ))
        .collect()
}

} // verus!

verus! {

// ---------------------------------------------------------------------------
// Scope lookup over position-indexed entries.
// ---------------------------------------------------------------------------

/// Whether position `a` is at or before position `b`, line first.
pub open spec fn sp_leq(a: SourcePosition, b: SourcePosition) -> bool {
    a.line < b.line || (a.line == b.line && a.column <= b.column)
}

/// The index of the last entry at or before `sp`.
pub open spec fn sp_found_idx(ps: Seq<SourcePosition>, sp: SourcePosition) -> Option<int>
    decreases ps.len(),
{
    if ps.len() == 0 {
        None
    } else if sp_leq(ps.last(), sp) {
        Some(ps.len() - 1)
    } else {
        sp_found_idx(ps.drop_last(), sp)
    }
}

/// Whether the entry positions are sorted.
pub open spec fn sorted_sps(ps: Seq<SourcePosition>) -> bool {
    forall|i: int, j: int| 0 <= i < j < ps.len() ==> sp_leq(#[trigger] ps[i], #[trigger] ps[j])
}

/// Characterizes `sp_found_idx` the way the binary search finds it.
proof fn lemma_sp_found_at(ps: Seq<SourcePosition>, sp: SourcePosition, i: int)
    requires
        0 <= i < ps.len(),
        sp_leq(ps[i], sp),
        forall|k: int| i < k < ps.len() ==> !sp_leq(#[trigger] ps[k], sp),
    ensures
        sp_found_idx(ps, sp) == Some(i),
    decreases ps.len(),
{
    if i == ps.len() - 1 {
    } else {
        assert(!sp_leq(ps.last(), sp));
        assert(forall|k: int|
            i < k < ps.drop_last().len() ==> !sp_leq(#[trigger] ps.drop_last()[k], sp)) by {
            assert(forall|k: int|
                0 <= k < ps.drop_last().len() ==> (#[trigger] ps.drop_last()[k]) == ps[k]);
        }
        lemma_sp_found_at(ps.drop_last(), sp, i);
    }
}

/// When every entry is after `sp`, nothing is found.
proof fn lemma_sp_found_none(ps: Seq<SourcePosition>, sp: SourcePosition)
    requires
        forall|k: int| 0 <= k < ps.len() ==> !sp_leq(#[trigger] ps[k], sp),
    ensures
        sp_found_idx(ps, sp) is None,
    decreases ps.len(),
{
    if ps.len() > 0 {
        lemma_sp_found_none(ps.drop_last(), sp);
    }
}

/// Copies a scope lookup result.
pub(crate) fn clone_scope_result(s: &ScopeLookupResult) -> (r: ScopeLookupResult)
    ensures
        r@ == s@,
{
    match s {
        ScopeLookupResult::NamedScope(n) => ScopeLookupResult::NamedScope(n.as_str().to_owned()),
        ScopeLookupResult::AnonymousScope => ScopeLookupResult::AnonymousScope,
        ScopeLookupResult::Unknown => ScopeLookupResult::Unknown,
    }
}

/// Inserts a record into a position-sorted list, keeping it sorted: the
/// record lands after every entry at or before its position.
#[verifier::loop_isolation(false)]
pub(crate) fn insert_by_pos<T: Copy>(v: &mut Vec<(SourcePosition, T)>, x: (SourcePosition, T))
    requires
        sorted_sps(old(v)@.map_values(|e: (SourcePosition, T)| e.0)),
    ensures
        sorted_sps(final(v)@.map_values(|e: (SourcePosition, T)| e.0)),
        final(v)@.len() == old(v)@.len() + 1,
        exists|p: int| 0 <= p <= old(v)@.len() && final(v)@ == old(v)@.insert(p, x),
{
    let ghost ps = v@.map_values(|e: (SourcePosition, T)| e.0);
    let mut p: usize = v.len();
    while p > 0 && (v[p - 1].0.line > x.0.line || (v[p - 1].0.line == x.0.line && v[p
        - 1].0.column > x.0.column))
        invariant
            p <= v@.len(),
            forall|k: int| p <= k < ps.len() ==> !sp_leq(#[trigger] ps[k], x.0),
        decreases p,
    {
        proof {
            assert(ps[p - 1] == v@[p - 1].0);
        }
        p = p - 1;
    }
    proof {
        if p > 0 {
            assert(ps[p - 1] == v@[p - 1].0);
            assert(sp_leq(ps[p - 1], x.0));
            assert(forall|k: int| 0 <= k < p ==> sp_leq(#[trigger] ps[k], ps[p - 1]));
        }
    }
    let ghost pre = v@;
    v.insert(p, x);
    proof {
        let post = v@.map_values(|e: (SourcePosition, T)| e.0);
        assert(post =~= ps.insert(p as int, x.0)) by {
            assert(forall|k: int|
                0 <= k < post.len() ==> (#[trigger] post[k]) == v@[k].0);
        }
        assert forall|i: int, j: int|
            0 <= i < j < post.len() implies sp_leq(#[trigger] post[i], #[trigger] post[j]) by {
            if j < p {
                assert(post[i] == ps[i] && post[j] == ps[j]);
            } else if i > p {
                assert(post[i] == ps[i - 1] && post[j] == ps[j - 1]);
            } else if i < p && j == p {
                assert(post[i] == ps[i] && post[j] == x.0);
                assert(sp_leq(ps[i], ps[p - 1]));
            } else if i == p && j > p {
                assert(post[i] == x.0 && post[j] == ps[j - 1]);
                assert(!sp_leq(ps[j - 1], x.0));
            } else if i < p && j > p {
                assert(post[i] == ps[i] && post[j] == ps[j - 1]);
                if p < ps.len() {
                    assert(!sp_leq(ps[j - 1], x.0));
                }
                if i < p - 1 || p == 0 {
                }
                assert(sp_leq(post[i], post[j])) by {
                    if i <= p - 1 && p - 1 < j - 1 {
                        assert(sp_leq(ps[i], ps[j - 1]));
                    } else {
                        assert(i == j - 1);
                        assert(sp_leq(ps[i], ps[i]));
                    }
                }
            }
        }
        assert(v@ == pre.insert(p as int, x));
    }
}

/// Finds the scope covering `sp`: the entry of the last position at or
/// before it, or the first entry when `sp` precedes them all, or unknown
/// when there are no entries at all.
#[verifier::loop_isolation(false)]
pub(crate) fn lookup_scope(
    scope_index: &Vec<(SourcePosition, ScopeLookupResult)>,
    sp: SourcePosition,
) -> (r: ScopeLookupResult)
    ensures
        sorted_sps(scope_index@.map_values(|e: (SourcePosition, ScopeLookupResult)| e.0)) ==> ({
            let ps = scope_index@.map_values(|e: (SourcePosition, ScopeLookupResult)| e.0);
            match sp_found_idx(ps, sp) {
                Some(i) => r@ == scope_index@[i].1@,
                None => if scope_index@.len() > 0 {
                    r@ == scope_index@[0].1@
                } else {
                    r@ is Unknown
                },
            }
        }),
{
    let ghost ps = scope_index@.map_values(|e: (SourcePosition, ScopeLookupResult)| e.0);
    let ghost sorted = sorted_sps(ps);
    let mut lo: usize = 0;
    let mut hi: usize = scope_index.len();
    while lo < hi
        invariant
            lo <= hi <= scope_index@.len(),
            sorted ==> (forall|k: int| 0 <= k < lo ==> sp_leq(#[trigger] ps[k], sp)),
            sorted ==> (forall|k: int|
                hi <= k < ps.len() ==> !sp_leq(#[trigger] ps[k], sp)),
        decreases hi - lo,
    {
        let mid = lo + (hi - lo) / 2;
        let p = scope_index[mid].0;
        proof {
            assert(ps[mid as int] == p);
        }
        if p.line < sp.line || (p.line == sp.line && p.column <= sp.column) {
            proof {
                if sorted {
                    assert forall|k: int| 0 <= k < mid + 1 implies sp_leq(
                        #[trigger] ps[k],
                        sp,
                    ) by {
                        if k < mid {
                            assert(sp_leq(ps[k], ps[mid as int]));
                        }
                    }
                }
            }
            lo = mid + 1;
        } else {
            proof {
                if sorted {
                    assert forall|k: int| mid <= k < ps.len() implies !sp_leq(
                        #[trigger] ps[k],
                        sp,
                    ) by {
                        if k > mid {
                            assert(sp_leq(ps[mid as int], ps[k]));
                        }
                    }
                }
            }
            hi = mid;
        }
    }
    let idx = if lo == 0 {
        proof {
            if sorted {
                lemma_sp_found_none(ps, sp);
            }
        }
        0
    } else {
        proof {
            if sorted {
                lemma_sp_found_at(ps, sp, lo - 1);
            }
        }
        lo - 1
    };
    if idx < scope_index.len() {
        clone_scope_result(&scope_index[idx].1)
    } else {
        ScopeLookupResult::Unknown
    }
}

// ---------------------------------------------------------------------------
// The in-memory cache.
// ---------------------------------------------------------------------------

/// A resolved source location with file, line and scope information.
#[derive(Debug, Clone, PartialEq, Eq)]
pub struct SourceLocation {
    /// The source file this location belongs to.
    pub file: Option<String>,
    /// The source line.
    pub line: u32,
    /// The scope containing this source location.
    pub scope: ScopeLookupResult,
}

/// One record of the cache: indices into the interned tables.
#[derive(Clone, Copy, Debug, PartialEq, Eq, Structural)]
pub struct RawSourceLocation {
    /// Index into the file table, or [`NO_FILE_SENTINEL`].
    pub file_idx: u32,
    /// The original line.
    pub line: u32,
    /// Index into the scope table, or a scope sentinel.
    pub scope_idx: u32,
}

/// Index value used to denote a token without a file.
pub const NO_FILE_SENTINEL: u32 = u32::MAX;

/// An error that can happen when building an [`SmCache`]: the source map
/// cannot be decoded, the source is too large for a source context, or the
/// scope index cannot be built.
#[derive(Debug)]
pub struct SmCacheError(SmCacheErrorInner);

#[derive(Debug)]
enum SmCacheErrorInner {
    SourceMap(String),
    ScopeIndex(ScopeIndexError),
    SourceContext(SourceContextError),
}

impl SmCacheError {
    /// Wraps a source-map decoding error.
    pub(crate) fn from_sourcemap(e: String) -> SmCacheError {
        SmCacheError(SmCacheErrorInner::SourceMap(e))
    }

    /// Wraps a scope-index construction error.
    pub(crate) fn from_scope_index(e: ScopeIndexError) -> SmCacheError {
        SmCacheError(SmCacheErrorInner::ScopeIndex(e))
    }

    /// Wraps a source-context construction error.
    pub(crate) fn from_source_context(e: SourceContextError) -> SmCacheError {
        SmCacheError(SmCacheErrorInner::SourceContext(e))
    }
}

/// A structure that allows quick resolution of minified source positions to
/// the original source location they map to.
pub struct SmCache {
    files: IndexSet<String, RandomState>,
    scopes: IndexSet<String, RandomState>,
    ranges: Vec<(SourcePosition, RawSourceLocation)>,
}

impl SmCache {
    /// The interned file names.
    pub closed spec fn files_spec(&self) -> Seq<Seq<char>> {
        iset_contents(self.files)
    }

    /// The interned scope names.
    pub closed spec fn scopes_spec(&self) -> Seq<Seq<char>> {
        iset_contents(self.scopes)
    }

    /// The per-token records.
    pub closed spec fn ranges_spec(&self) -> Seq<(SourcePosition, RawSourceLocation)> {
        self.ranges@
    }

    /// The positions of the records.
    pub closed spec fn positions_spec(&self) -> Seq<SourcePosition> {
        self.ranges@.map_values(|e: (SourcePosition, RawSourceLocation)| e.0)
    }

    /// Well-formedness: the tables are deduplicated and every stored index
    /// is a sentinel or points into its table.
    pub open spec fn wf(&self) -> bool {
        &&& no_dup(self.files_spec())
        &&& no_dup(self.scopes_spec())
        &&& (forall|k: int|
            0 <= k < self.ranges_spec().len() ==> ({
                let sl = (#[trigger] self.ranges_spec()[k]).1;
                &&& (sl.file_idx == NO_FILE_SENTINEL || sl.file_idx
                    < self.files_spec().len())
                &&& (sl.scope_idx == GLOBAL_SCOPE_SENTINEL || sl.scope_idx
                    == ANONYMOUS_SCOPE_SENTINEL || sl.scope_idx < self.scopes_spec().len())
            }))
    }

    /// Constructs a new cache from a minified source file and its
    /// corresponding source map.
    ///
    /// The source map is decoded (flattening an index map so its tokens can
    /// be iterated), the scopes of the source are extracted and resolved to
    /// their original names, and every token is recorded with its original
    /// file, line and enclosing scope, interned into the two name tables.
    /// Consecutive tokens resolving to the same location collapse into one
    /// record.  Fails when the map cannot be decoded, when the source is too
    /// large for its offsets to be representable, or when the scope index
    /// cannot be built.  A source that does not parse yields an empty scope
    /// list rather than an error.
    #[verifier::loop_isolation(false)]
    pub fn new(source: &str, sourcemap: &str) -> (r: Result<SmCache, SmCacheError>)
        ensures
            source.spec_bytes().len() > u32::MAX ==> r is Err,
            !decode_flat_ok(sourcemap.spec_bytes()) ==> r is Err,
            (decode_flat_ok(sourcemap.spec_bytes()) && source.spec_bytes().len() <= u32::MAX
                && crate::extract_model(source@, source.spec_bytes().len() as u32).len()
                < ANONYMOUS_SCOPE_SENTINEL) ==> r is Ok,
            r matches Ok(c) ==> c.wf() && sorted_sps(c.positions_spec()) && decode_flat_ok(
                sourcemap.spec_bytes(),
            ),
            r matches Ok(c) ==> records_from_rows(
                c.ranges_spec(),
                decoded_rows(sourcemap.spec_bytes()),
            ),
    {
        let ghost mlen = crate::extract_model(
            source@,
            source.spec_bytes().len() as u32,
        ).len();
        let sm = match decode_flat(sourcemap.as_bytes()) {
            Ok(sm) => sm,
            Err(e) => {
                return Err(SmCacheError::from_sourcemap(e));
            },
        };

        let ctx = match SourceContext::new(source) {
            Ok(ctx) => ctx,
            Err(e) => {
                return Err(SmCacheError::from_source_context(e));
            },
        };

        // Extract the scopes and resolve them to original names.
        let scopes: Scopes = match crate::extract_scope_names(source) {
            Ok(scopes) => scopes,
            Err(_) => Vec::new(),
        };
        proof {
            assert(scopes@.len() == mlen || scopes@.len() == 0);
        }
        let resolver = NameResolver::new(&ctx, &sm);
        let mut resolved: Vec<(SourceSpan, Option<String>)> = Vec::new();
        let mut i: usize = 0;
        while i < scopes.len()
            invariant
                i <= scopes@.len(),
                resolved@.len() == i,
            decreases scopes@.len() - i,
        {
            let (span, name) = &scopes[i];
            let resolved_name = match name {
                Some(n) => Some(resolver.resolve_name(n)),
                None => None,
            };
            resolved.push((*span, resolved_name));
            i = i + 1;
        }

        // Convert the offset index to a source-position index.
        let index = match ScopeIndex::new(resolved) {
            Ok(index) => index,
            Err(e) => {
                // Interning cannot have overflowed: the entries are fewer
                // than the id space.
                proof {
                    if mlen < ANONYMOUS_SCOPE_SENTINEL {
                        let entriesv = resolved@.map_values(
                            |e: (SourceSpan, Option<String>)| crate::lookup::entry_view(e),
                        );
                        crate::lookup::lemma_sort_len(entriesv);
                        crate::lookup::lemma_intern_small(
                            crate::lookup::sort_model(entriesv),
                            crate::lookup::sort_model(entriesv).len() as int,
                        );
                        assert(false);
                    }
                }
                return Err(SmCacheError::from_scope_index(e));
            },
        };
        let entries = index.entries();
        let mut scope_index: Vec<(SourcePosition, ScopeLookupResult)> = Vec::new();
        let mut j: usize = 0;
        while j < entries.len()
            decreases entries@.len() - j,
        {
            let (offset, result) = &entries[j];
            match ctx.offset_to_position(*offset) {
                Some(pos) => {
                    scope_index.push((pos, clone_scope_result(result)));
                },
                None => (),
            }
            j = j + 1;
        }

        // Iterate over the tokens and build the record list.
        let rows = map_token_rows(&sm);
        let ghost rowsv = rows@.map_values(|t: TokenRow| token_row_view(t));
        let ghost mut origins: Seq<int> = Seq::empty();
        let mut files = iset_new();
        let mut scopes_tab = iset_new();
        let mut ranges: Vec<(SourcePosition, RawSourceLocation)> = Vec::new();
        let mut last: Option<RawSourceLocation> = None;
        let mut t: usize = 0;
        while t < rows.len()
            invariant
                t <= rows@.len(),
                rowsv == rows@.map_values(|x: TokenRow| token_row_view(x)),
                ranges@.len() <= t,
                t > 0 ==> ranges@.len() > 0,
                last is Some ==> ranges@.len() > 0,
                origins_ok(ranges@, origins, rowsv, t as int),
                no_dup(iset_contents(files)),
                no_dup(iset_contents(scopes_tab)),
                sorted_sps(ranges@.map_values(|e: (SourcePosition, RawSourceLocation)| e.0)),
                forall|k: int|
                    0 <= k < ranges@.len() ==> ({
                        let sl = (#[trigger] ranges@[k]).1;
                        &&& (sl.file_idx == NO_FILE_SENTINEL || sl.file_idx < iset_contents(
                            files,
                        ).len())
                        &&& (sl.scope_idx == GLOBAL_SCOPE_SENTINEL || sl.scope_idx
                            == ANONYMOUS_SCOPE_SENTINEL || sl.scope_idx < iset_contents(
                            scopes_tab,
                        ).len())
                    }),
            decreases rows@.len() - t,
        {
            let row: &TokenRow = &rows[t];
            proof {
                assert(rowsv[t as int] == token_row_view(rows@[t as int]));
            }
            let sp = SourcePosition::new(row.0, row.1);
            let scope = lookup_scope(&scope_index, sp);

            let ghost files_pre = iset_contents(files);
            let file_idx = match &row.2 {
                Some(file) => {
                    let (idx, inserted) = iset_insert_full(&mut files, file.as_str().to_owned());
                    proof {
                        if inserted {
                            assert(no_dup(iset_contents(files))) by {
                                assert(forall|k: int|
                                    0 <= k < files_pre.len() ==> (#[trigger] iset_contents(
                                        files,
                                    )[k]) == files_pre[k]);
                            }
                        }
                    }
                    if idx < (NO_FILE_SENTINEL - 1) as usize {
                        idx as u32
                    } else {
                        NO_FILE_SENTINEL
                    }
                },
                None => NO_FILE_SENTINEL,
            };

            let ghost scopes_pre = iset_contents(scopes_tab);
            let scope_idx = match &scope {
                ScopeLookupResult::NamedScope(name) => {
                    let (idx, inserted) = iset_insert_full(
                        &mut scopes_tab,
                        name.as_str().to_owned(),
                    );
                    proof {
                        if inserted {
                            assert(no_dup(iset_contents(scopes_tab))) by {
                                assert(forall|k: int|
                                    0 <= k < scopes_pre.len() ==> (#[trigger] iset_contents(
                                        scopes_tab,
                                    )[k]) == scopes_pre[k]);
                            }
                        }
                    }
                    if idx < (ANONYMOUS_SCOPE_SENTINEL - 1) as usize {
                        idx as u32
                    } else {
                        GLOBAL_SCOPE_SENTINEL
                    }
                },
                ScopeLookupResult::AnonymousScope => ANONYMOUS_SCOPE_SENTINEL,
                ScopeLookupResult::Unknown => GLOBAL_SCOPE_SENTINEL,
            };

            let sl = RawSourceLocation { file_idx, line: row.3, scope_idx };

            let skip = match &last {
                Some(prev) => *prev == sl,
                None => false,
            };
            if !skip {
                let ghost pre = ranges@;
                let ghost origins_pre = origins;
                proof {
                    assert(record_from_row(rowsv[t as int], (sp, sl)));
                }
                insert_by_pos(&mut ranges, (sp, sl));
                proof {
                    let p = choose|p: int|
                        0 <= p <= pre.len() && ranges@ == pre.insert(p, (sp, sl));
                    assert forall|k: int| 0 <= k < ranges@.len() implies ({
                        let slk = (#[trigger] ranges@[k]).1;
                        &&& (slk.file_idx == NO_FILE_SENTINEL || slk.file_idx < iset_contents(
                            files,
                        ).len())
                        &&& (slk.scope_idx == GLOBAL_SCOPE_SENTINEL || slk.scope_idx
                            == ANONYMOUS_SCOPE_SENTINEL || slk.scope_idx < iset_contents(
                            scopes_tab,
                        ).len())
                    }) by {
                        if k < p {
                            assert(ranges@[k] == pre[k]);
                        } else if k > p {
                            assert(ranges@[k] == pre[k - 1]);
                        }
                    }
                    origins = origins_pre.insert(p, t as int);
                    assert(origins_ok(ranges@, origins, rowsv, t + 1)) by {
                        assert forall|k: int|
                            0 <= k < ranges@.len() implies 0 <= origins[k] < t + 1
                            && record_from_row(
                            rowsv[origins[k]],
                            #[trigger] ranges@[k],
                        ) by {
                            if k < p {
                                assert(ranges@[k] == pre[k]);
                                assert(origins[k] == origins_pre[k]);
                                assert(0 <= origins_pre[k] < t && record_from_row(
                                    rowsv[origins_pre[k]],
                                    pre[k],
                                ));
                            } else if k > p {
                                assert(ranges@[k] == pre[k - 1]);
                                assert(origins[k] == origins_pre[k - 1]);
                                assert(0 <= origins_pre[k - 1] < t && record_from_row(
                                    rowsv[origins_pre[k - 1]],
                                    pre[k - 1],
                                ));
                            } else {
                                assert(ranges@[k] == (sp, sl));
                                assert(origins[k] == t as int);
                                assert(record_from_row(rowsv[t as int], ranges@[k]));
                            }
                        }
                    }
                }
                last = Some(sl);
            } else {
                proof {
                    lemma_origins_ok_widen(ranges@, origins, rowsv, t as int, t + 1);
                }
            }
            t = t + 1;
        }

        proof {
            assert(origins_ok(ranges@, origins, rowsv, t as int));
            assert(t == rows@.len());
            assert(rowsv.len() == rows@.len());
            assert(records_from_rows(ranges@, rowsv)) by {
                assert(ranges@.len() <= rowsv.len());
                assert((ranges@.len() == 0) == (rowsv.len() == 0));
                lemma_origins_ok_widen(ranges@, origins, rowsv, t as int, rowsv.len() as int);
                assert(origins_ok(ranges@, origins, rowsv, rowsv.len() as int));
            }
            assert(rowsv == decoded_rows(sourcemap.spec_bytes()));
        }
        let cache = SmCache { files, scopes: scopes_tab, ranges };
        proof {
            assert(records_from_rows(
                cache.ranges_spec(),
                decoded_rows(sourcemap.spec_bytes()),
            ));
        }
        Ok(cache)
    }

    /// Looks up a minified source position and resolves it to the original
    /// source location: the record of the last position at or before it (the
    /// first record when the position precedes them all).
    #[verifier::loop_isolation(false)]
    pub fn lookup(&self, sp: SourcePosition) -> (r: Option<SourceLocation>)
        ensures
            self.wf() && sorted_sps(self.positions_spec()) ==> ({
                let idx = match sp_found_idx(self.positions_spec(), sp) {
                    Some(i) => i,
                    None => 0,
                };
                &&& (r is Some) == (idx < self.ranges_spec().len())
                &&& (r matches Some(loc) ==> ({
                    let sl = self.ranges_spec()[idx].1;
                    &&& loc.line == sl.line
                    &&& (sl.file_idx == NO_FILE_SENTINEL ==> loc.file is None)
                    &&& (sl.file_idx != NO_FILE_SENTINEL && sl.file_idx
                        < self.files_spec().len() ==> (loc.file matches Some(f) && f@
                        == self.files_spec()[sl.file_idx as int]))
                    &&& loc.scope@ == scope_resolution(self.scopes_spec(), sl.scope_idx)
                }))
            }),
    {
        let ghost ps = self.positions_spec();
        let ghost good = self.wf() && sorted_sps(ps);
        let mut lo: usize = 0;
        let mut hi: usize = self.ranges.len();
        while lo < hi
            invariant
                lo <= hi <= self.ranges@.len(),
                good ==> (forall|k: int| 0 <= k < lo ==> sp_leq(#[trigger] ps[k], sp)),
                good ==> (forall|k: int| hi <= k < ps.len() ==> !sp_leq(#[trigger] ps[k], sp)),
            decreases hi - lo,
        {
            let mid = lo + (hi - lo) / 2;
            let p = self.ranges[mid].0;
            proof {
                assert(ps[mid as int] == p);
            }
            if p.line < sp.line || (p.line == sp.line && p.column <= sp.column) {
                proof {
                    if good {
                        assert forall|k: int| 0 <= k < mid + 1 implies sp_leq(
                            #[trigger] ps[k],
                            sp,
                        ) by {
                            if k < mid {
                                assert(sp_leq(ps[k], ps[mid as int]));
                            }
                        }
                    }
                }
                lo = mid + 1;
            } else {
                proof {
                    if good {
                        assert forall|k: int| mid <= k < ps.len() implies !sp_leq(
                            #[trigger] ps[k],
                            sp,
                        ) by {
                            if k > mid {
                                assert(sp_leq(ps[mid as int], ps[k]));
                            }
                        }
                    }
                }
                hi = mid;
            }
        }
        let idx = if lo == 0 {
            proof {
                if good {
                    lemma_sp_found_none(ps, sp);
                }
            }
            0
        } else {
            proof {
                if good {
                    lemma_sp_found_at(ps, sp, lo - 1);
                }
            }
            lo - 1
        };

        if idx >= self.ranges.len() {
            return None;
        }
        let range = self.ranges[idx];
        proof {
            assert(self.ranges_spec()[idx as int] == range);
        }

        let file = if range.1.file_idx == NO_FILE_SENTINEL {
            None
        } else {
            iset_get_index(&self.files, range.1.file_idx as usize)
        };
        let line = range.1.line;
        let scope = self.resolve_scope(range.1.scope_idx);
        Some(SourceLocation { file, line, scope })
    }

    /// Resolves a stored scope id: a sentinel or an index into the table.
    fn resolve_scope(&self, scope_idx: u32) -> (r: ScopeLookupResult)
        ensures
            self.wf() ==> r@ == scope_resolution(self.scopes_spec(), scope_idx),
    {
        if scope_idx == GLOBAL_SCOPE_SENTINEL {
            ScopeLookupResult::Unknown
        } else if scope_idx == ANONYMOUS_SCOPE_SENTINEL {
            ScopeLookupResult::AnonymousScope
        } else {
            match iset_get_index(&self.scopes, scope_idx as usize) {
                Some(name) => ScopeLookupResult::NamedScope(name),
                None => ScopeLookupResult::Unknown,
            }
        }
    }
}

/// Whether a cache record could have come from a token row: the row's
/// minified position and original line, and a file reference only when the
/// row names a file.
pub open spec fn record_from_row(
    row: (u32, u32, Option<Seq<char>>, u32),
    rec: (SourcePosition, RawSourceLocation),
) -> bool {
    &&& rec.0.line == row.0 && rec.0.column == row.1
    &&& rec.1.line == row.3
    &&& (row.2 is None ==> rec.1.file_idx == NO_FILE_SENTINEL)
}

/// Every record's recorded origin: the ghost witness list maps each record
/// to a row before `t` that it carries the position, line and file presence
/// of.
pub open spec fn origins_ok(
    recs: Seq<(SourcePosition, RawSourceLocation)>,
    origins: Seq<int>,
    rows: Seq<(u32, u32, Option<Seq<char>>, u32)>,
    t: int,
) -> bool {
    &&& origins.len() == recs.len()
    &&& (forall|k: int|
        0 <= k < recs.len() ==> 0 <= #[trigger] origins[k] < t && record_from_row(
            rows[origins[k]],
            recs[k],
        ))
}

/// A witness list for a smaller bound works for a larger one.
proof fn lemma_origins_ok_widen(
    recs: Seq<(SourcePosition, RawSourceLocation)>,
    origins: Seq<int>,
    rows: Seq<(u32, u32, Option<Seq<char>>, u32)>,
    t1: int,
    t2: int,
)
    requires
        origins_ok(recs, origins, rows, t1),
        t1 <= t2,
    ensures
        origins_ok(recs, origins, rows, t2),
{
    assert forall|k: int|
        0 <= k < recs.len() implies 0 <= origins[k] < t2 && record_from_row(
        rows[origins[k]],
        #[trigger] recs[k],
    ) by {
        assert(0 <= origins[k] < t1 && record_from_row(rows[origins[k]], recs[k]));
    }
}

/// Whether a record list originates in a token-row list: no more records
/// than rows, records exactly when there are rows, and some assignment of
/// rows to records under which every record carries its row's position,
/// line and file presence.
pub open spec fn records_from_rows(
    recs: Seq<(SourcePosition, RawSourceLocation)>,
    rows: Seq<(u32, u32, Option<Seq<char>>, u32)>,
) -> bool {
    &&& recs.len() <= rows.len()
    &&& ((recs.len() == 0) == (rows.len() == 0))
    &&& (exists|origins: Seq<int>| origins_ok(recs, origins, rows, rows.len() as int))
}

/// How a stored scope id resolves against the scope-name table.
pub open spec fn scope_resolution(names: Seq<Seq<char>>, id: u32) -> ScopeLookupModel {
    if id == GLOBAL_SCOPE_SENTINEL {
        ScopeLookupModel::Unknown
    } else if id == ANONYMOUS_SCOPE_SENTINEL {
        ScopeLookupModel::Anonymous
    } else if id < names.len() {
        ScopeLookupModel::Named(names[id as int])
    } else {
        ScopeLookupModel::Unknown
    }
}

} // verus!
