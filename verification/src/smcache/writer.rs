//! Writing the binary cache: interning strings into an LEB128-prefixed
//! table and serializing the header, the record arrays and the table.

use vstd::prelude::*;

verus! {

use vstd::string::StrSliceExecFns;
use vstd::string::StringExecFns;
use vstd::string::StringSliceAdditionalSpecFns;
use vstd::utf8::encode_utf8;

use crate::Scopes;
use crate::lookup::ScopeIndex;
use crate::lookup::ScopeLookupResult;
use crate::name_resolver::NameResolver;
use crate::scope_name::SourceSpan;
use crate::smcache::SmCacheError;
use crate::smcache::TokenRow;
use crate::smcache::clone_scope_result;
use crate::lookup::ANONYMOUS_SCOPE_SENTINEL;
use crate::smcache::decode_flat;
use crate::smcache::decode_flat_ok;
use crate::smcache::decoded_rows;
use crate::smcache::token_row_view;
use crate::smcache::insert_by_pos;
use crate::smcache::sorted_sps;
use crate::smcache::lookup_scope;
use crate::smcache::map_token_rows;
use crate::smcache::raw;
use crate::smcache::raw::OriginalSourceLocation;
use crate::smcache::lookup::get_string_model;
use crate::smcache::lookup::leb_decode;
use crate::smcache::lookup::pad8;
use crate::smcache::lookup::read_u32_le;
use crate::source::SourceContext;
use crate::source::SourcePosition;
use crate::text_util::str_eq;

// ---------------------------------------------------------------------------
// Encoding models.
// ---------------------------------------------------------------------------

/// The little-endian bytes of a `u32`.
pub open spec fn u32_le_model(x: u32) -> Seq<u8> {
    seq![
        (x % 0x100) as u8,
        ((x / 0x100) % 0x100) as u8,
        ((x / 0x10000) % 0x100) as u8,
        ((x / 0x1000000) % 0x100) as u8,
    ]
}

/// `n` zero bytes.
pub open spec fn zero_bytes(n: int) -> Seq<u8> {
    Seq::new(n as nat, |i: int| 0u8)
}

/// The unsigned LEB128 encoding of a value.
pub open spec fn leb_encode(v: nat) -> Seq<u8>
    decreases v,
{
    if v < 128 {
        seq![v as u8]
    } else {
        seq![(v % 128 + 128) as u8] + leb_encode(v / 128)
    }
}

/// The serialized minified source positions of the first `n` ranges.
pub open spec fn pos_bytes(rs: Seq<(SourcePosition, OriginalSourceLocation)>, n: int) -> Seq<u8>
    decreases n,
    when n >= 0
{
    if n <= 0 {
        Seq::<u8>::empty()
    } else {
        pos_bytes(rs, n - 1) + u32_le_model(rs[n - 1].0.line) + u32_le_model(rs[n - 1].0.column)
    }
}

/// The serialized original source locations of the first `n` ranges.
pub open spec fn loc_bytes(rs: Seq<(SourcePosition, OriginalSourceLocation)>, n: int) -> Seq<u8>
    decreases n,
    when n >= 0
{
    if n <= 0 {
        Seq::<u8>::empty()
    } else {
        loc_bytes(rs, n - 1) + u32_le_model(rs[n - 1].1.file_idx) + u32_le_model(
            rs[n - 1].1.line,
        ) + u32_le_model(rs[n - 1].1.scope_idx)
    }
}

/// The whole serialized cache: header, positions, locations, padding, and
/// the string table.
pub open spec fn serialize_model(
    sb: Seq<u8>,
    rs: Seq<(SourcePosition, OriginalSourceLocation)>,
) -> Seq<u8> {
    u32_le_model(raw::SMCACHE_MAGIC) + u32_le_model(raw::SMCACHE_VERSION) + u32_le_model(
        rs.len() as u32,
    ) + u32_le_model(sb.len() as u32) + zero_bytes(16) + pos_bytes(rs, rs.len() as int)
        + loc_bytes(rs, rs.len() as int) + zero_bytes(pad8(32 + 20 * rs.len() as int)) + sb
}

/// Every interned string's stored offset decodes back to its bytes.
pub open spec fn table_wf(bs: Seq<u8>, map: Seq<(String, u32)>) -> bool {
    forall|k: int|
        0 <= k < map.len() ==> get_string_model(bs, (#[trigger] map[k]).1 as int) == Some(
            encode_utf8(map[k].0@),
        )
}

/// Whether a writer record could have come from a token row: the row's
/// minified position and original line, and a file reference only when the
/// row names a file.
pub open spec fn loc_from_row(
    row: (u32, u32, Option<Seq<char>>, u32),
    rec: (SourcePosition, OriginalSourceLocation),
) -> bool {
    &&& rec.0.line == row.0 && rec.0.column == row.1
    &&& rec.1.line == row.3
    &&& (row.2 is None ==> rec.1.file_idx == raw::NO_FILE_SENTINEL)
}

/// Every record's recorded origin: the ghost witness list maps each record
/// to a row before `t` that it carries the position, line and file presence
/// of.
pub open spec fn loc_origins_ok(
    recs: Seq<(SourcePosition, OriginalSourceLocation)>,
    origins: Seq<int>,
    rows: Seq<(u32, u32, Option<Seq<char>>, u32)>,
    t: int,
) -> bool {
    &&& origins.len() == recs.len()
    &&& (forall|k: int|
        0 <= k < recs.len() ==> 0 <= #[trigger] origins[k] < t && loc_from_row(
            rows[origins[k]],
            recs[k],
        ))
}

/// A witness list for a smaller bound works for a larger one.
proof fn lemma_loc_origins_ok_widen(
    recs: Seq<(SourcePosition, OriginalSourceLocation)>,
    origins: Seq<int>,
    rows: Seq<(u32, u32, Option<Seq<char>>, u32)>,
    t1: int,
    t2: int,
)
    requires
        loc_origins_ok(recs, origins, rows, t1),
        t1 <= t2,
    ensures
        loc_origins_ok(recs, origins, rows, t2),
{
    assert forall|k: int|
        0 <= k < recs.len() implies 0 <= #[trigger] origins[k] < t2 && loc_from_row(
        rows[origins[k]],
        recs[k],
    ) by {
        assert(0 <= origins[k] < t1 && loc_from_row(rows[origins[k]], recs[k]));
    }
}

/// Whether a record list originates in a token-row list: no more records
/// than rows, records exactly when there are rows, and some assignment of
/// rows to records under which every record carries its row's position,
/// line and file presence.
pub open spec fn locs_from_rows(
    recs: Seq<(SourcePosition, OriginalSourceLocation)>,
    rows: Seq<(u32, u32, Option<Seq<char>>, u32)>,
) -> bool {
    &&& recs.len() <= rows.len()
    &&& ((recs.len() == 0) == (rows.len() == 0))
    &&& (exists|origins: Seq<int>| loc_origins_ok(recs, origins, rows, rows.len() as int))
}

// ---------------------------------------------------------------------------
// LEB128 encode/decode lemmas.
// ---------------------------------------------------------------------------

/// Decoding right after a prefix reads back exactly the encoded value.
proof fn lemma_leb_roundtrip(prefix: Seq<u8>, v: nat, tail: Seq<u8>)
    ensures
        leb_decode(prefix + leb_encode(v) + tail, prefix.len() as int) == Some(
            (v, prefix.len() + leb_encode(v).len() as int),
        ),
    decreases v,
{
    let whole = prefix + leb_encode(v) + tail;
    if v < 128 {
        assert(whole[prefix.len() as int] == v as u8);
    } else {
        let b = (v % 128 + 128) as u8;
        assert(whole[prefix.len() as int] == b);
        lemma_leb_roundtrip(prefix + seq![b], v / 128, tail);
        assert((prefix + seq![b]) + leb_encode(v / 128) + tail =~= whole);
        assert(b >= 0x80);
        assert((b - 0x80) as nat + 128 * (v / 128) == v) by {
            assert(v % 128 + 128 * (v / 128) == v) by (nonlinear_arith);
        }
    }
}

/// The encoding of a value below `pow2(7 * d)` takes at most `d` bytes.
proof fn lemma_leb_len(v: nat, d: nat)
    requires
        d >= 1,
        v < vstd::arithmetic::power2::pow2(7 * d),
    ensures
        leb_encode(v).len() <= d,
    decreases d,
{
    vstd::arithmetic::power2::lemma2_to64();
    if v < 128 {
    } else {
        assert(d >= 2) by {
            if d == 1 {
                assert(vstd::arithmetic::power2::pow2(7) == 128);
            }
        }
        let d1 = (d - 1) as nat;
        assert(vstd::arithmetic::power2::pow2(7 * d) == vstd::arithmetic::power2::pow2(7 * d1)
            * 128) by {
            vstd::arithmetic::power2::lemma_pow2_adds(7 * d1, 7);
            assert(vstd::arithmetic::power2::pow2(7) == 128);
        }
        assert(v / 128 < vstd::arithmetic::power2::pow2(7 * d1)) by (nonlinear_arith)
            requires
                v < vstd::arithmetic::power2::pow2(7 * d1) * 128,
        ;
        lemma_leb_len(v / 128, d1);
    }
}

/// A 64-bit value encodes in at most ten bytes.
proof fn lemma_leb_len_u64(v: u64)
    ensures
        leb_encode(v as nat).len() <= 10,
{
    vstd::arithmetic::power2::lemma2_to64();
    assert((v as nat) < vstd::arithmetic::power2::pow2(70)) by {
        vstd::arithmetic::power2::lemma_pow2_strictly_increases(64, 70);
    }
    lemma_leb_len(v as nat, 10);
}

/// `u32::MAX` as a `usize`.
fn u32_max_usize() -> (r: usize)
    ensures
        r == u32::MAX,
{
    u32::MAX as usize
}

/// A sequence is a prefix of itself.
proof fn lemma_prefix_reflexive(s: Seq<u8>)
    ensures
        s.is_prefix_of(s),
{
    assert(s.subrange(0, s.len() as int) =~= s);
}

/// A successful decode only looks at bytes before its end, so extending the
/// buffer changes nothing.
proof fn lemma_leb_decode_prefix(bs: Seq<u8>, ext: Seq<u8>, pos: int)
    requires
        pos >= 0,
        leb_decode(bs, pos) is Some,
    ensures
        pos < (leb_decode(bs, pos)->0).1 <= bs.len(),
        leb_decode(bs + ext, pos) == leb_decode(bs, pos),
    decreases bs.len() - pos,
{
    assert(pos < bs.len());
    assert((bs + ext)[pos] == bs[pos]);
    if bs[pos] < 0x80 {
    } else {
        lemma_leb_decode_prefix(bs, ext, pos + 1);
    }
}

/// A stored string survives appending more bytes to the table.
proof fn lemma_get_string_prefix(bs: Seq<u8>, ext: Seq<u8>, off: int)
    requires
        off >= 0,
        get_string_model(bs, off) is Some,
    ensures
        get_string_model(bs + ext, off) == get_string_model(bs, off),
{
    lemma_leb_decode_prefix(bs, ext, off);
    let p = leb_decode(bs, off)->0;
    assert((bs + ext).subrange(p.1, p.1 + p.0) =~= bs.subrange(p.1, p.1 + p.0));
}

// ---------------------------------------------------------------------------
// The writer.
// ---------------------------------------------------------------------------

/// Appends the unsigned LEB128 encoding of a value.
fn leb_append(out: &mut Vec<u8>, value: u64)
    ensures
        final(out)@ == old(out)@ + leb_encode(value as nat),
    decreases value,
{
    if value < 128 {
        out.push(value as u8);
        proof {
            assert(final(out)@ =~= old(out)@ + leb_encode(value as nat));
        }
    } else {
        let b = (value % 128 + 128) as u8;
        out.push(b);
        leb_append(out, value / 128);
        proof {
            assert(final(out)@ =~= old(out)@ + leb_encode(value as nat));
        }
    }
}

/// Whether the table already holds a string with these characters.
pub open spec fn table_contains(map: Seq<(String, u32)>, s: Seq<char>) -> bool {
    exists|k: int| 0 <= k < map.len() && (#[trigger] map[k]).0@ == s
}

/// The first table entry holding these characters.
pub open spec fn table_index_of(map: Seq<(String, u32)>, s: Seq<char>) -> int
    decreases map.len(),
{
    if map.len() == 0 {
        0
    } else if map[0].0@ == s {
        0
    } else {
        1 + table_index_of(map.drop_first(), s)
    }
}

/// A match with nothing equal before it is the first.
proof fn lemma_table_index_at(map: Seq<(String, u32)>, s: Seq<char>, i: int)
    requires
        0 <= i < map.len(),
        map[i].0@ == s,
        forall|k: int| 0 <= k < i ==> (#[trigger] map[k]).0@ != s,
    ensures
        table_index_of(map, s) == i,
    decreases map.len(),
{
    if map[0].0@ == s {
        assert(i == 0);
    } else {
        assert(forall|k: int|
            0 <= k < i - 1 ==> (#[trigger] map.drop_first()[k]).0@ != s) by {
            assert(forall|k: int|
                0 <= k < map.drop_first().len() ==> (#[trigger] map.drop_first()[k]) == map[k
                    + 1]);
        }
        assert(map.drop_first()[i - 1] == map[i]);
        lemma_table_index_at(map.drop_first(), s, i - 1);
    }
}

/// Inserts a string into the table.
///
/// An empty string is not stored: the sentinel `u32::MAX` comes back and
/// nothing changes.  A string already in `strings` is not stored again: its
/// first recorded offset comes back, unchanged tables.  Otherwise — barring
/// an oversized table or string, which come back as the sentinel — the
/// string's LEB128 length and bytes are appended at the old table length,
/// which is returned and recorded.  A non-sentinel result always decodes
/// back to the string.
#[verifier::loop_isolation(false)]
pub fn insert_string(string_bytes: &mut Vec<u8>, strings: &mut Vec<(String, u32)>, s: &str) -> (r:
    u32)
    requires
        table_wf(old(string_bytes)@, old(strings)@),
    ensures
        table_wf(final(string_bytes)@, final(strings)@),
        old(string_bytes)@.is_prefix_of(final(string_bytes)@),
        old(string_bytes)@.len() <= u32::MAX ==> final(string_bytes)@.len() <= u32::MAX,
        s@.len() == 0 ==> r == u32::MAX && final(string_bytes)@ == old(string_bytes)@
            && final(strings)@ == old(strings)@,
        (s@.len() > 0 && r != u32::MAX) ==> get_string_model(final(string_bytes)@, r as int)
            == Some(s.spec_bytes()),
        (s@.len() > 0 && table_contains(old(strings)@, s@)) ==> (final(string_bytes)@
            == old(string_bytes)@ && final(strings)@ == old(strings)@
            && r == old(strings)@[table_index_of(old(strings)@, s@)].1),
        (s@.len() > 0 && !table_contains(old(strings)@, s@) && old(string_bytes)@.len()
            < u32::MAX as int / 2 - 16 && s.spec_bytes().len() < u32::MAX as int / 2 - 16)
            ==> (r == old(string_bytes)@.len() && final(string_bytes)@ == old(string_bytes)@
            + leb_encode(s.spec_bytes().len() as nat) + s.spec_bytes()
            && final(strings)@.len() == old(strings)@.len() + 1
            && final(strings)@[old(strings)@.len() as int].0@ == s@
            && final(strings)@[old(strings)@.len() as int].1 == r && (forall|k: int|
            0 <= k < old(strings)@.len() ==> (#[trigger] final(strings)@[k])
                == old(strings)@[k])),
        (s@.len() > 0 && !table_contains(old(strings)@, s@) && (old(string_bytes)@.len()
            >= u32::MAX as int / 2 - 16 || s.spec_bytes().len() >= u32::MAX as int / 2 - 16))
            ==> (r == u32::MAX && final(string_bytes)@ == old(string_bytes)@ && final(strings)@
            == old(strings)@),
{
    proof {
        lemma_prefix_reflexive(old(string_bytes)@);
    }
    if s.is_empty() {
        return u32::MAX;
    }
    let mut i: usize = 0;
    while i < strings.len()
        invariant
            i <= strings@.len(),
            table_wf(string_bytes@, strings@),
            string_bytes@ == old(string_bytes)@,
            strings@ == old(strings)@,
            forall|k: int| 0 <= k < i ==> (#[trigger] strings@[k]).0@ != s@,
        decreases strings@.len() - i,
    {
        if str_eq(strings[i].0.as_str(), s) {
            proof {
                assert(encode_utf8(strings@[i as int].0@) == s.spec_bytes());
                lemma_table_index_at(strings@, s@, i as int);
            }
            return strings[i].1;
        }
        i = i + 1;
    }
    proof {
        assert(!table_contains(strings@, s@));
    }
    let limit = (u32::MAX / 2 - 16) as usize;
    if string_bytes.len() >= limit || s.len() >= limit {
        return u32::MAX;
    }
    let ghost bs0 = string_bytes@;
    let string_offset = string_bytes.len() as u32;
    let sbytes = s.as_bytes();
    let blen = sbytes.len();
    proof {
        assert(blen as nat == s.spec_bytes().len());
        lemma_leb_len_u64(blen as u64);
    }
    leb_append(string_bytes, blen as u64);
    let ghost bs1 = string_bytes@;
    let mut b: usize = 0;
    while b < sbytes.len()
        invariant
            b <= sbytes@.len(),
            sbytes@ == s.spec_bytes(),
            bs1 == bs0 + leb_encode(s.spec_bytes().len() as nat),
            string_bytes@ =~= bs1 + sbytes@.subrange(0, b as int),
        decreases sbytes@.len() - b,
    {
        string_bytes.push(sbytes[b]);
        proof {
            assert(string_bytes@ =~= bs1 + sbytes@.subrange(0, b + 1));
        }
        b = b + 1;
    }
    proof {
        assert(sbytes@.subrange(0, sbytes@.len() as int) =~= sbytes@);
        lemma_leb_roundtrip(bs0, s.spec_bytes().len() as nat, s.spec_bytes());
        assert(bs0 + leb_encode(s.spec_bytes().len() as nat) + s.spec_bytes()
            =~= string_bytes@);
        let enc_len = leb_encode(s.spec_bytes().len() as nat).len() as int;
        assert(string_bytes@.subrange(
            bs0.len() + enc_len,
            bs0.len() + enc_len + s.spec_bytes().len(),
        ) =~= s.spec_bytes());
        assert(get_string_model(string_bytes@, bs0.len() as int) == Some(s.spec_bytes()));
        // Every previously stored string still decodes after the append.
        assert forall|k: int|
            0 <= k < old(strings)@.len() implies get_string_model(
            string_bytes@,
            (#[trigger] old(strings)@[k]).1 as int,
        ) == Some(encode_utf8(old(strings)@[k].0@)) by {
            lemma_get_string_prefix(
                bs0,
                leb_encode(s.spec_bytes().len() as nat) + s.spec_bytes(),
                old(strings)@[k].1 as int,
            );
            assert(bs0 + (leb_encode(s.spec_bytes().len() as nat) + s.spec_bytes())
                =~= string_bytes@);
        }
        assert(bs0.is_prefix_of(string_bytes@));
    }
    strings.push((String::from_str(s), string_offset));
    string_offset
}

/// An in-memory byte sink that tracks its position for alignment.
struct WriteWrapper {
    buf: Vec<u8>,
}

impl WriteWrapper {
    /// An empty sink.
    fn new() -> (r: WriteWrapper)
        ensures
            r.buf@ == Seq::<u8>::empty(),
    {
        WriteWrapper { buf: Vec::new() }
    }

    /// Appends the little-endian bytes of a `u32`.
    fn write_u32(&mut self, x: u32)
        ensures
            final(self).buf@ == old(self).buf@ + u32_le_model(x),
    {
        self.buf.push((x % 0x100) as u8);
        self.buf.push(((x / 0x100) % 0x100) as u8);
        self.buf.push(((x / 0x10000) % 0x100) as u8);
        self.buf.push(((x / 0x1000000) % 0x100) as u8);
        proof {
            assert(final(self).buf@ =~= old(self).buf@ + u32_le_model(x));
        }
    }

    /// Appends `n` zero bytes.
    #[verifier::loop_isolation(false)]
    fn write_zeros(&mut self, n: usize)
        ensures
            final(self).buf@ == old(self).buf@ + zero_bytes(n as int),
    {
        let mut k: usize = 0;
        while k < n
            invariant
                k <= n,
                self.buf@ =~= old(self).buf@ + zero_bytes(k as int),
            decreases n - k,
        {
            self.buf.push(0);
            proof {
                assert(self.buf@ =~= old(self).buf@ + zero_bytes(k + 1));
            }
            k = k + 1;
        }
        proof {
            assert(self.buf@ =~= old(self).buf@ + zero_bytes(n as int));
        }
    }

    /// Pads with zeros up to the next eight-byte boundary.
    fn align(&mut self)
        ensures
            final(self).buf@ == old(self).buf@ + zero_bytes(pad8(old(self).buf@.len() as int)),
    {
        let len = raw::align_to_eight(self.buf.len());
        self.write_zeros(len);
    }
}

/// An error that can happen when building an [`SmCacheWriter`]: the same
/// failures as building the in-memory cache.
#[derive(Debug)]
pub struct SmCacheWriterError(SmCacheError);

impl SmCacheWriterError {
    /// Wraps the underlying cache error.
    fn wrap(e: SmCacheError) -> SmCacheWriterError {
        SmCacheWriterError(e)
    }
}

/// A structure that converts a minified source and its source map into the
/// binary cache format.
pub struct SmCacheWriter {
    string_bytes: Vec<u8>,
    ranges: Vec<(SourcePosition, OriginalSourceLocation)>,
}

impl SmCacheWriter {
    /// The string table.
    pub closed spec fn strings_spec(&self) -> Seq<u8> {
        self.string_bytes@
    }

    /// The `(position, location)` records.
    pub closed spec fn ranges_spec(&self) -> Seq<(SourcePosition, OriginalSourceLocation)> {
        self.ranges@
    }

    /// Well-formedness: the parts fit the header's id width, and every
    /// stored file or scope reference is a sentinel or decodes to a string
    /// of the table.
    pub open spec fn wf(&self) -> bool {
        &&& self.ranges_spec().len() <= u32::MAX
        &&& self.strings_spec().len() <= u32::MAX
        &&& (forall|k: int|
            0 <= k < self.ranges_spec().len() ==> ({
                let sl = (#[trigger] self.ranges_spec()[k]).1;
                &&& (sl.file_idx == raw::NO_FILE_SENTINEL || get_string_model(
                    self.strings_spec(),
                    sl.file_idx as int,
                ) is Some)
                &&& (sl.scope_idx == raw::GLOBAL_SCOPE_SENTINEL || sl.scope_idx
                    == raw::ANONYMOUS_SCOPE_SENTINEL || get_string_model(
                    self.strings_spec(),
                    sl.scope_idx as int,
                ) is Some)
            }))
    }

    /// Constructs a new cache from a minified source file and its
    /// corresponding source map.
    ///
    /// The source map is decoded (flattening an index map so its tokens can
    /// be iterated), the scopes of the source are extracted and resolved to
    /// their original names, and every token is recorded with its original
    /// file, line and enclosing scope, interned into the string table.
    /// Consecutive tokens resolving to the same location collapse into one
    /// record.  Fails when the map cannot be decoded, when the source is too
    /// large for its offsets to be representable, or when the scope index
    /// cannot be built.
    #[verifier::loop_isolation(false)]
    #[verifier::rlimit(100)]
    pub fn new(source: &str, sourcemap: &str) -> (r: Result<SmCacheWriter, SmCacheWriterError>)
        ensures
            source.spec_bytes().len() > u32::MAX ==> r is Err,
            !decode_flat_ok(sourcemap.spec_bytes()) ==> r is Err,
            (decode_flat_ok(sourcemap.spec_bytes()) && source.spec_bytes().len() <= u32::MAX
                && crate::extract_model(source@, source.spec_bytes().len() as u32).len()
                < ANONYMOUS_SCOPE_SENTINEL) ==> r is Ok,
            r matches Ok(w) ==> w.wf() && sorted_sps(
                w.ranges_spec().map_values(|e: (SourcePosition, OriginalSourceLocation)| e.0),
            ) && decode_flat_ok(sourcemap.spec_bytes()),
            r matches Ok(w) ==> locs_from_rows(
                w.ranges_spec(),
                decoded_rows(sourcemap.spec_bytes()),
            ),
    {
        let ghost mlen = crate::extract_model(
            source@,
            source.spec_bytes().len() as u32,
        ).len();
        let sm = match decode_flat(sourcemap.as_bytes()) {
            Ok(sm) => sm,
            Err(e) => {
                return Err(SmCacheWriterError::wrap(SmCacheError::from_sourcemap(e)));
            },
        };

        let ctx = match SourceContext::new(source) {
            Ok(ctx) => ctx,
            Err(e) => {
                return Err(SmCacheWriterError::wrap(SmCacheError::from_source_context(e)));
            },
        };

        // Extract the scopes and resolve them to original names.  A source
        // that does not parse yields no scopes rather than an error.
        let scopes: Scopes = match crate::extract_scope_names(source) {
            Ok(scopes) => scopes,
            Err(_) => Vec::new(),
        };
        proof {
            assert(scopes@.len() == mlen || scopes@.len() == 0);
        }
        let resolver = NameResolver::new(&ctx, &sm);
        let mut resolved: Vec<(SourceSpan, Option<String>)> = Vec::new();
        let mut i: usize = 0;
        while i < scopes.len()
            invariant
                i <= scopes@.len(),
                resolved@.len() == i,
            decreases scopes@.len() - i,
        {
            let (span, name) = &scopes[i];
            let resolved_name = match name {
                Some(n) => Some(resolver.resolve_name(n)),
                None => None,
            };
            resolved.push((*span, resolved_name));
            i = i + 1;
        }

        // Convert the offset index to a source-position index.
        let index = match ScopeIndex::new(resolved) {
            Ok(index) => index,
            Err(e) => {
                // Interning cannot have overflowed: the entries are fewer
                // than the id space.
                proof {
                    if mlen < ANONYMOUS_SCOPE_SENTINEL {
                        let entriesv = resolved@.map_values(
                            |e: (SourceSpan, Option<String>)| crate::lookup::entry_view(e),
                        );
                        crate::lookup::lemma_sort_len(entriesv);
                        crate::lookup::lemma_intern_small(
                            crate::lookup::sort_model(entriesv),
                            crate::lookup::sort_model(entriesv).len() as int,
                        );
                        assert(false);
                    }
                }
                return Err(SmCacheWriterError::wrap(SmCacheError::from_scope_index(e)));
            },
        };
        let entries = index.entries();
        let mut scope_index: Vec<(SourcePosition, ScopeLookupResult)> = Vec::new();
        let mut j: usize = 0;
        while j < entries.len()
            decreases entries@.len() - j,
        {
            let (offset, result) = &entries[j];
            match ctx.offset_to_position(*offset) {
                Some(pos) => {
                    scope_index.push((pos, clone_scope_result(result)));
                },
                None => (),
            }
            j = j + 1;
        }

        // Iterate over the tokens and build the record list.
        let rows = map_token_rows(&sm);
        let ghost rowsv = rows@.map_values(|t: TokenRow| token_row_view(t));
        let ghost mut origins: Seq<int> = Seq::empty();
        let mut string_bytes: Vec<u8> = Vec::new();
        let mut strings: Vec<(String, u32)> = Vec::new();
        let mut ranges: Vec<(SourcePosition, OriginalSourceLocation)> = Vec::new();
        let mut last: Option<OriginalSourceLocation> = None;
        let mut t: usize = 0;
        while t < rows.len()
            invariant
                t <= rows@.len(),
                rowsv == rows@.map_values(|x: TokenRow| token_row_view(x)),
                ranges@.len() <= t,
                t > 0 ==> ranges@.len() > 0,
                last is Some ==> ranges@.len() > 0,
                loc_origins_ok(ranges@, origins, rowsv, t as int),
                ranges@.len() <= u32::MAX,
                string_bytes@.len() <= u32::MAX,
                table_wf(string_bytes@, strings@),
                sorted_sps(
                    ranges@.map_values(|e: (SourcePosition, OriginalSourceLocation)| e.0),
                ),
                forall|k: int|
                    0 <= k < ranges@.len() ==> ({
                        let sl = (#[trigger] ranges@[k]).1;
                        &&& (sl.file_idx == raw::NO_FILE_SENTINEL || get_string_model(
                            string_bytes@,
                            sl.file_idx as int,
                        ) is Some)
                        &&& (sl.scope_idx == raw::GLOBAL_SCOPE_SENTINEL || sl.scope_idx
                            == raw::ANONYMOUS_SCOPE_SENTINEL || get_string_model(
                            string_bytes@,
                            sl.scope_idx as int,
                        ) is Some)
                    }),
            decreases rows@.len() - t,
        {
            let ghost bs_pre = string_bytes@;
            let row: &TokenRow = &rows[t];
            proof {
                assert(rowsv[t as int] == token_row_view(rows@[t as int]));
            }
            let sp = SourcePosition::new(row.0, row.1);
            let scope = lookup_scope(&scope_index, sp);

            let file_idx = match &row.2 {
                Some(file) => insert_string(&mut string_bytes, &mut strings, file.as_str()),
                None => raw::NO_FILE_SENTINEL,
            };
            let ghost bs_mid = string_bytes@;
            proof {
                if bs_pre.len() == bs_mid.len() {
                    lemma_prefix_reflexive(bs_pre);
                }
                lemma_stored_ids_survive(bs_pre, bs_mid, ranges@);
            }

            let scope_idx = match &scope {
                ScopeLookupResult::NamedScope(name) => {
                    let idx = insert_string(&mut string_bytes, &mut strings, name.as_str());
                    if idx == u32::MAX {
                        raw::GLOBAL_SCOPE_SENTINEL
                    } else {
                        idx
                    }
                },
                ScopeLookupResult::AnonymousScope => raw::ANONYMOUS_SCOPE_SENTINEL,
                ScopeLookupResult::Unknown => raw::GLOBAL_SCOPE_SENTINEL,
            };
            proof {
                if bs_mid.len() == string_bytes@.len() {
                    lemma_prefix_reflexive(bs_mid);
                }
                lemma_stored_ids_survive(bs_mid, string_bytes@, ranges@);
            }

            let sl = OriginalSourceLocation { file_idx, line: row.3, scope_idx };

            let skip = match &last {
                Some(prev) => *prev == sl,
                None => false,
            };
            if !skip && ranges.len() < u32_max_usize() {
                proof {
                    if sl.file_idx != raw::NO_FILE_SENTINEL {
                        let ext2 = string_bytes@.subrange(
                            bs_mid.len() as int,
                            string_bytes@.len() as int,
                        );
                        assert(bs_mid + ext2 =~= string_bytes@);
                        lemma_get_string_prefix(bs_mid, ext2, sl.file_idx as int);
                    }
                }
                let ghost pre = ranges@;
                let ghost origins_pre = origins;
                proof {
                    assert(loc_from_row(rowsv[t as int], (sp, sl)));
                }
                insert_by_pos(&mut ranges, (sp, sl));
                proof {
                    let p = choose|p: int|
                        0 <= p <= pre.len() && ranges@ == pre.insert(p, (sp, sl));
                    assert forall|k: int| 0 <= k < ranges@.len() implies ({
                        let slk = (#[trigger] ranges@[k]).1;
                        &&& (slk.file_idx == raw::NO_FILE_SENTINEL || get_string_model(
                            string_bytes@,
                            slk.file_idx as int,
                        ) is Some)
                        &&& (slk.scope_idx == raw::GLOBAL_SCOPE_SENTINEL || slk.scope_idx
                            == raw::ANONYMOUS_SCOPE_SENTINEL || get_string_model(
                            string_bytes@,
                            slk.scope_idx as int,
                        ) is Some)
                    }) by {
                        if k < p {
                            assert(ranges@[k] == pre[k]);
                        } else if k > p {
                            assert(ranges@[k] == pre[k - 1]);
                        }
                    }
                    origins = origins_pre.insert(p, t as int);
                    assert(loc_origins_ok(ranges@, origins, rowsv, t + 1)) by {
                        assert forall|k: int|
                            0 <= k < ranges@.len() implies 0 <= #[trigger] origins[k] < t + 1
                            && loc_from_row(rowsv[origins[k]], ranges@[k]) by {
                            if k < p {
                                assert(ranges@[k] == pre[k]);
                                assert(origins[k] == origins_pre[k]);
                                assert(0 <= origins_pre[k] < t && loc_from_row(
                                    rowsv[origins_pre[k]],
                                    pre[k],
                                ));
                            } else if k > p {
                                assert(ranges@[k] == pre[k - 1]);
                                assert(origins[k] == origins_pre[k - 1]);
                                assert(0 <= origins_pre[k - 1] < t && loc_from_row(
                                    rowsv[origins_pre[k - 1]],
                                    pre[k - 1],
                                ));
                            } else {
                                assert(ranges@[k] == (sp, sl));
                                assert(origins[k] == t as int);
                                assert(loc_from_row(rowsv[t as int], ranges@[k]));
                            }
                        }
                    }
                }
                last = Some(sl);
            } else {
                proof {
                    lemma_loc_origins_ok_widen(ranges@, origins, rowsv, t as int, t + 1);
                }
            }
            t = t + 1;
        }

        proof {
            assert(t == rows@.len());
            assert(rowsv.len() == rows@.len());
            assert(locs_from_rows(ranges@, rowsv)) by {
                assert(ranges@.len() <= rowsv.len());
                assert((ranges@.len() == 0) == (rowsv.len() == 0));
                lemma_loc_origins_ok_widen(
                    ranges@,
                    origins,
                    rowsv,
                    t as int,
                    rowsv.len() as int,
                );
                assert(loc_origins_ok(ranges@, origins, rowsv, rowsv.len() as int));
            }
            assert(rowsv == decoded_rows(sourcemap.spec_bytes()));
        }
        let writer_out = SmCacheWriter { string_bytes, ranges };
        proof {
            assert(locs_from_rows(
                writer_out.ranges_spec(),
                decoded_rows(sourcemap.spec_bytes()),
            ));
        }
        Ok(writer_out)
    }

    /// Serializes the converted data into the cache's binary format.
    #[verifier::loop_isolation(false)]
    #[verifier::rlimit(60)]
    pub fn serialize(&self) -> (r: Vec<u8>)
        requires
            self.wf(),
        ensures
            r@ == serialize_model(self.strings_spec(), self.ranges_spec()),
    {
        let mut writer = WriteWrapper::new();

        let num_ranges = self.ranges.len() as u32;
        let string_bytes = self.string_bytes.len() as u32;

        writer.write_u32(raw::SMCACHE_MAGIC);
        writer.write_u32(raw::SMCACHE_VERSION);
        writer.write_u32(num_ranges);
        writer.write_u32(string_bytes);
        writer.write_zeros(16);
        writer.align();

        let ghost header = u32_le_model(raw::SMCACHE_MAGIC) + u32_le_model(raw::SMCACHE_VERSION)
            + u32_le_model(num_ranges) + u32_le_model(string_bytes) + zero_bytes(16);
        proof {
            assert(header.len() == 32);
            assert(pad8(32) == 0);
            assert(writer.buf@ =~= header);
        }

        let mut k: usize = 0;
        while k < self.ranges.len()
            invariant
                k <= self.ranges@.len(),
                writer.buf@ =~= header + pos_bytes(self.ranges@, k as int),
            decreases self.ranges@.len() - k,
        {
            let sp = self.ranges[k].0;
            writer.write_u32(sp.line);
            writer.write_u32(sp.column);
            proof {
                assert(writer.buf@ =~= header + pos_bytes(self.ranges@, k + 1));
            }
            k = k + 1;
        }
        writer.align();
        let ghost with_pos = header + pos_bytes(self.ranges@, self.ranges@.len() as int);
        proof {
            lemma_pos_bytes_len(self.ranges@, self.ranges@.len() as int);
            assert(with_pos.len() == 32 + 8 * self.ranges@.len());
            assert(pad8(with_pos.len() as int) == 0) by {
                assert((32 + 8 * self.ranges@.len()) % 8 == 0) by (nonlinear_arith);
            }
            assert(writer.buf@ =~= with_pos);
        }

        let mut m: usize = 0;
        while m < self.ranges.len()
            invariant
                m <= self.ranges@.len(),
                writer.buf@ =~= with_pos + loc_bytes(self.ranges@, m as int),
            decreases self.ranges@.len() - m,
        {
            let sl = self.ranges[m].1;
            writer.write_u32(sl.file_idx);
            writer.write_u32(sl.line);
            writer.write_u32(sl.scope_idx);
            proof {
                assert(writer.buf@ =~= with_pos + loc_bytes(self.ranges@, m + 1));
            }
            m = m + 1;
        }
        writer.align();
        let ghost with_loc = with_pos + loc_bytes(self.ranges@, self.ranges@.len() as int);
        proof {
            lemma_loc_bytes_len(self.ranges@, self.ranges@.len() as int);
            assert(with_loc.len() == 32 + 20 * self.ranges@.len());
            assert(writer.buf@ =~= with_loc + zero_bytes(pad8(32 + 20 * self.ranges@.len() as int)));
        }

        let mut b: usize = 0;
        let ghost with_pad = with_loc + zero_bytes(pad8(32 + 20 * self.ranges@.len() as int));
        while b < self.string_bytes.len()
            invariant
                b <= self.string_bytes@.len(),
                writer.buf@ =~= with_pad + self.string_bytes@.subrange(0, b as int),
            decreases self.string_bytes@.len() - b,
        {
            writer.buf.push(self.string_bytes[b]);
            proof {
                assert(writer.buf@ =~= with_pad + self.string_bytes@.subrange(0, b + 1));
            }
            b = b + 1;
        }
        proof {
            assert(self.string_bytes@.subrange(0, self.string_bytes@.len() as int)
                =~= self.string_bytes@);
            assert(writer.buf@ =~= serialize_model(self.strings_spec(), self.ranges_spec()));
        }
        writer.buf
    }
}

/// Reading four little-endian bytes back gives the encoded value.
proof fn lemma_read_u32_at(b: Seq<u8>, pos: int, x: u32)
    requires
        0 <= pos,
        pos + 4 <= b.len(),
        b.subrange(pos, pos + 4) =~= u32_le_model(x),
    ensures
        read_u32_le(b, pos) == x,
{
    assert(b[pos] == u32_le_model(x)[0]);
    assert(b[pos + 1] == u32_le_model(x)[1]);
    assert(b[pos + 2] == u32_le_model(x)[2]);
    assert(b[pos + 3] == u32_le_model(x)[3]);
    assert(x % 0x100 + x / 0x100 % 0x100 * 0x100 + x / 0x10000 % 0x100 * 0x10000 + x
        / 0x1000000 % 0x100 * 0x1000000 == x) by (bit_vector);
}

/// The bytes of one serialized position record.
proof fn lemma_pos_bytes_at(rs: Seq<(SourcePosition, OriginalSourceLocation)>, n: int, k: int)
    requires
        0 <= k < n,
    ensures
        pos_bytes(rs, n).subrange(8 * k, 8 * k + 8) =~= u32_le_model(rs[k].0.line)
            + u32_le_model(rs[k].0.column),
    decreases n,
{
    lemma_pos_bytes_len(rs, n);
    lemma_pos_bytes_len(rs, n - 1);
    if k == n - 1 {
        assert(pos_bytes(rs, n).subrange(8 * k, 8 * k + 8) =~= u32_le_model(rs[k].0.line)
            + u32_le_model(rs[k].0.column));
    } else {
        lemma_pos_bytes_at(rs, n - 1, k);
        assert(pos_bytes(rs, n).subrange(8 * k, 8 * k + 8) =~= pos_bytes(rs, n - 1).subrange(
            8 * k,
            8 * k + 8,
        ));
    }
}

/// The bytes of one serialized location record.
proof fn lemma_loc_bytes_at(rs: Seq<(SourcePosition, OriginalSourceLocation)>, n: int, k: int)
    requires
        0 <= k < n,
    ensures
        loc_bytes(rs, n).subrange(12 * k, 12 * k + 12) =~= u32_le_model(rs[k].1.file_idx)
            + u32_le_model(rs[k].1.line) + u32_le_model(rs[k].1.scope_idx),
    decreases n,
{
    lemma_loc_bytes_len(rs, n);
    lemma_loc_bytes_len(rs, n - 1);
    if k == n - 1 {
        assert(loc_bytes(rs, n).subrange(12 * k, 12 * k + 12) =~= u32_le_model(
            rs[k].1.file_idx,
        ) + u32_le_model(rs[k].1.line) + u32_le_model(rs[k].1.scope_idx));
    } else {
        lemma_loc_bytes_at(rs, n - 1, k);
        assert(loc_bytes(rs, n).subrange(12 * k, 12 * k + 12) =~= loc_bytes(rs, n - 1).subrange(
            12 * k,
            12 * k + 12,
        ));
    }
}

/// A subrange of an identified segment of a buffer is the corresponding
/// subrange of the segment.
proof fn lemma_subrange_of_segment(b: Seq<u8>, off: int, seg: Seq<u8>, a: int, c: int)
    requires
        0 <= off,
        off + seg.len() <= b.len(),
        b.subrange(off, off + seg.len() as int) =~= seg,
        0 <= a <= c <= seg.len(),
    ensures
        b.subrange(off + a, off + c) =~= seg.subrange(a, c),
{
    assert forall|j: int|
        0 <= j < c - a implies b.subrange(off + a, off + c)[j] == seg.subrange(a, c)[j] by {
        assert(b[off + a + j] == b.subrange(off, off + seg.len() as int)[a + j]);
    }
}

/// The serialized buffer laid out as its five segments.
proof fn lemma_serialize_segments(
    sb: Seq<u8>,
    rs: Seq<(SourcePosition, OriginalSourceLocation)>,
)
    requires
        rs.len() <= u32::MAX,
    ensures
        ({
            let buf = serialize_model(sb, rs);
            let n = rs.len() as int;
            &&& buf.len() == 32 + 20 * n + pad8(32 + 20 * n) + sb.len()
            &&& buf.subrange(0, 32) =~= u32_le_model(raw::SMCACHE_MAGIC) + u32_le_model(
                raw::SMCACHE_VERSION,
            ) + u32_le_model(rs.len() as u32) + u32_le_model(sb.len() as u32) + zero_bytes(16)
            &&& buf.subrange(32, 32 + 8 * n) =~= pos_bytes(rs, n)
            &&& buf.subrange(32 + 8 * n, 32 + 20 * n) =~= loc_bytes(rs, n)
            &&& buf.subrange(32 + 20 * n + pad8(32 + 20 * n), buf.len() as int) =~= sb
        }),
{
    let buf = serialize_model(sb, rs);
    let n = rs.len() as int;
    lemma_pos_bytes_len(rs, n);
    lemma_loc_bytes_len(rs, n);
    assert(buf.subrange(0, 32) =~= u32_le_model(raw::SMCACHE_MAGIC) + u32_le_model(
        raw::SMCACHE_VERSION,
    ) + u32_le_model(rs.len() as u32) + u32_le_model(sb.len() as u32) + zero_bytes(16));
    assert(buf.subrange(32, 32 + 8 * n) =~= pos_bytes(rs, n));
    assert(buf.subrange(32 + 8 * n, 32 + 20 * n) =~= loc_bytes(rs, n));
    assert(buf.subrange(32 + 20 * n + pad8(32 + 20 * n), buf.len() as int) =~= sb);
}

/// The header fields of a serialized buffer read back as written.
proof fn lemma_serialize_header_reads(
    sb: Seq<u8>,
    rs: Seq<(SourcePosition, OriginalSourceLocation)>,
)
    requires
        rs.len() <= u32::MAX,
    ensures
        read_u32_le(serialize_model(sb, rs), 0) == raw::SMCACHE_MAGIC,
        read_u32_le(serialize_model(sb, rs), 4) == raw::SMCACHE_VERSION,
        read_u32_le(serialize_model(sb, rs), 8) == rs.len() as u32,
        read_u32_le(serialize_model(sb, rs), 12) == sb.len() as u32,
{
    let buf = serialize_model(sb, rs);
    lemma_serialize_segments(sb, rs);
    let header = u32_le_model(raw::SMCACHE_MAGIC) + u32_le_model(raw::SMCACHE_VERSION)
        + u32_le_model(rs.len() as u32) + u32_le_model(sb.len() as u32) + zero_bytes(16);
    lemma_subrange_of_segment(buf, 0, header, 0, 4);
    assert(header.subrange(0, 4) =~= u32_le_model(raw::SMCACHE_MAGIC));
    lemma_read_u32_at(buf, 0, raw::SMCACHE_MAGIC);
    lemma_subrange_of_segment(buf, 0, header, 4, 8);
    assert(header.subrange(4, 8) =~= u32_le_model(raw::SMCACHE_VERSION));
    lemma_read_u32_at(buf, 4, raw::SMCACHE_VERSION);
    lemma_subrange_of_segment(buf, 0, header, 8, 12);
    assert(header.subrange(8, 12) =~= u32_le_model(rs.len() as u32));
    lemma_read_u32_at(buf, 8, rs.len() as u32);
    lemma_subrange_of_segment(buf, 0, header, 12, 16);
    assert(header.subrange(12, 16) =~= u32_le_model(sb.len() as u32));
    lemma_read_u32_at(buf, 12, sb.len() as u32);
}

/// The position records of a serialized buffer read back as written.
#[verifier::rlimit(60)]
proof fn lemma_serialize_pos_reads(
    sb: Seq<u8>,
    rs: Seq<(SourcePosition, OriginalSourceLocation)>,
    k: int,
)
    requires
        rs.len() <= u32::MAX,
        0 <= k < rs.len(),
    ensures
        read_u32_le(serialize_model(sb, rs), 32 + 8 * k) == rs[k].0.line,
        read_u32_le(serialize_model(sb, rs), 32 + 8 * k + 4) == rs[k].0.column,
{
    let buf = serialize_model(sb, rs);
    let n = rs.len() as int;
    lemma_serialize_segments(sb, rs);
    lemma_pos_bytes_len(rs, n);
    lemma_pos_bytes_at(rs, n, k);
    let rec = u32_le_model(rs[k].0.line) + u32_le_model(rs[k].0.column);
    lemma_subrange_of_segment(buf, 32, pos_bytes(rs, n), 8 * k, 8 * k + 8);
    assert(buf.subrange(32 + 8 * k, 32 + 8 * k + 8) =~= rec);
    lemma_subrange_of_segment(buf, 32 + 8 * k, rec, 0, 4);
    assert(rec.subrange(0, 4) =~= u32_le_model(rs[k].0.line));
    lemma_read_u32_at(buf, 32 + 8 * k, rs[k].0.line);
    lemma_subrange_of_segment(buf, 32 + 8 * k, rec, 4, 8);
    assert(rec.subrange(4, 8) =~= u32_le_model(rs[k].0.column));
    lemma_read_u32_at(buf, 32 + 8 * k + 4, rs[k].0.column);
}

/// The location records of a serialized buffer read back as written.
#[verifier::rlimit(60)]
proof fn lemma_serialize_loc_reads(
    sb: Seq<u8>,
    rs: Seq<(SourcePosition, OriginalSourceLocation)>,
    k: int,
)
    requires
        rs.len() <= u32::MAX,
        0 <= k < rs.len(),
    ensures
        read_u32_le(serialize_model(sb, rs), 32 + 8 * rs.len() + 12 * k) == rs[k].1.file_idx,
        read_u32_le(serialize_model(sb, rs), 32 + 8 * rs.len() + 12 * k + 4) == rs[k].1.line,
        read_u32_le(serialize_model(sb, rs), 32 + 8 * rs.len() + 12 * k + 8) == rs[
            k].1.scope_idx,
{
    let buf = serialize_model(sb, rs);
    let n = rs.len() as int;
    lemma_serialize_segments(sb, rs);
    lemma_loc_bytes_len(rs, n);
    lemma_loc_bytes_at(rs, n, k);
    let rec = u32_le_model(rs[k].1.file_idx) + u32_le_model(rs[k].1.line) + u32_le_model(
        rs[k].1.scope_idx,
    );
    lemma_subrange_of_segment(buf, 32 + 8 * n, loc_bytes(rs, n), 12 * k, 12 * k + 12);
    assert(buf.subrange(32 + 8 * n + 12 * k, 32 + 8 * n + 12 * k + 12) =~= rec);
    lemma_subrange_of_segment(buf, 32 + 8 * n + 12 * k, rec, 0, 4);
    assert(rec.subrange(0, 4) =~= u32_le_model(rs[k].1.file_idx));
    lemma_read_u32_at(buf, 32 + 8 * n + 12 * k, rs[k].1.file_idx);
    lemma_subrange_of_segment(buf, 32 + 8 * n + 12 * k, rec, 4, 8);
    assert(rec.subrange(4, 8) =~= u32_le_model(rs[k].1.line));
    lemma_read_u32_at(buf, 32 + 8 * n + 12 * k + 4, rs[k].1.line);
    lemma_subrange_of_segment(buf, 32 + 8 * n + 12 * k, rec, 8, 12);
    assert(rec.subrange(8, 12) =~= u32_le_model(rs[k].1.scope_idx));
    lemma_read_u32_at(buf, 32 + 8 * n + 12 * k + 8, rs[k].1.scope_idx);
}

/// The binary format round-trips: a serialized cache carries the exact
/// header values, record fields and string table that were written, at the
/// places where [`crate::smcache::lookup::SmCache::parse`] promises to read
/// them — so parsing what [`SmCacheWriter::serialize`] produced succeeds and
/// recovers the writer's records and string table.
pub proof fn lemma_serialize_parse_roundtrip(
    sb: Seq<u8>,
    rs: Seq<(SourcePosition, OriginalSourceLocation)>,
)
    requires
        rs.len() <= u32::MAX,
        sb.len() <= u32::MAX,
    ensures
        ({
            let buf = serialize_model(sb, rs);
            let n = rs.len() as int;
            &&& buf.len() == 32 + 20 * n + pad8(32 + 20 * n) + sb.len()
            &&& read_u32_le(buf, 0) == raw::SMCACHE_MAGIC
            &&& read_u32_le(buf, 4) == raw::SMCACHE_VERSION
            &&& read_u32_le(buf, 8) == rs.len() as u32
            &&& read_u32_le(buf, 12) == sb.len() as u32
            &&& (forall|k: int|
                0 <= k < n ==> read_u32_le(buf, 32 + 8 * k) == (#[trigger] rs[k]).0.line
                    && read_u32_le(buf, 32 + 8 * k + 4) == rs[k].0.column)
            &&& (forall|k: int|
                0 <= k < n ==> read_u32_le(buf, 32 + 8 * n + 12 * k) == (#[trigger] rs[
                k]).1.file_idx && read_u32_le(buf, 32 + 8 * n + 12 * k + 4) == rs[k].1.line
                    && read_u32_le(buf, 32 + 8 * n + 12 * k + 8) == rs[k].1.scope_idx)
            &&& buf.subrange(32 + 20 * n + pad8(32 + 20 * n), buf.len() as int) =~= sb
        }),
{
    let buf = serialize_model(sb, rs);
    let n = rs.len() as int;
    lemma_serialize_segments(sb, rs);
    lemma_serialize_header_reads(sb, rs);
    assert forall|k: int|
        0 <= k < n implies read_u32_le(buf, 32 + 8 * k) == (#[trigger] rs[k]).0.line
        && read_u32_le(buf, 32 + 8 * k + 4) == rs[k].0.column by {
        lemma_serialize_pos_reads(sb, rs, k);
    }
    assert forall|k: int|
        0 <= k < n implies read_u32_le(buf, 32 + 8 * n + 12 * k) == (#[trigger] rs[
    k]).1.file_idx && read_u32_le(buf, 32 + 8 * n + 12 * k + 4) == rs[k].1.line
        && read_u32_le(buf, 32 + 8 * n + 12 * k + 8) == rs[k].1.scope_idx by {
        lemma_serialize_loc_reads(sb, rs, k);
    }
}

/// The serialized positions of `n` ranges take eight bytes each.
proof fn lemma_pos_bytes_len(rs: Seq<(SourcePosition, OriginalSourceLocation)>, n: int)
    requires
        n >= 0,
    ensures
        pos_bytes(rs, n).len() == 8 * n,
    decreases n,
{
    if n > 0 {
        lemma_pos_bytes_len(rs, n - 1);
    }
}

/// The serialized locations of `n` ranges take twelve bytes each.
proof fn lemma_loc_bytes_len(rs: Seq<(SourcePosition, OriginalSourceLocation)>, n: int)
    requires
        n >= 0,
    ensures
        loc_bytes(rs, n).len() == 12 * n,
    decreases n,
{
    if n > 0 {
        lemma_loc_bytes_len(rs, n - 1);
    }
}

/// Ids that decoded against a table still decode after the table grew.
proof fn lemma_stored_ids_survive(
    bs: Seq<u8>,
    grown: Seq<u8>,
    ranges: Seq<(SourcePosition, OriginalSourceLocation)>,
)
    requires
        bs.is_prefix_of(grown),
        forall|k: int|
            0 <= k < ranges.len() ==> ({
                let sl = (#[trigger] ranges[k]).1;
                &&& (sl.file_idx == raw::NO_FILE_SENTINEL || get_string_model(
                    bs,
                    sl.file_idx as int,
                ) is Some)
                &&& (sl.scope_idx == raw::GLOBAL_SCOPE_SENTINEL || sl.scope_idx
                    == raw::ANONYMOUS_SCOPE_SENTINEL || get_string_model(
                    bs,
                    sl.scope_idx as int,
                ) is Some)
            }),
    ensures
        forall|k: int|
            0 <= k < ranges.len() ==> ({
                let sl = (#[trigger] ranges[k]).1;
                &&& (sl.file_idx == raw::NO_FILE_SENTINEL || get_string_model(
                    grown,
                    sl.file_idx as int,
                ) is Some)
                &&& (sl.scope_idx == raw::GLOBAL_SCOPE_SENTINEL || sl.scope_idx
                    == raw::ANONYMOUS_SCOPE_SENTINEL || get_string_model(
                    grown,
                    sl.scope_idx as int,
                ) is Some)
            }),
{
    let ext = grown.subrange(bs.len() as int, grown.len() as int);
    assert(bs + ext =~= grown);
    assert forall|k: int| 0 <= k < ranges.len() implies ({
        let sl = (#[trigger] ranges[k]).1;
        &&& (sl.file_idx == raw::NO_FILE_SENTINEL || get_string_model(
            grown,
            sl.file_idx as int,
        ) is Some)
        &&& (sl.scope_idx == raw::GLOBAL_SCOPE_SENTINEL || sl.scope_idx
            == raw::ANONYMOUS_SCOPE_SENTINEL || get_string_model(
            grown,
            sl.scope_idx as int,
        ) is Some)
    }) by {
        let sl = ranges[k].1;
        if sl.file_idx != raw::NO_FILE_SENTINEL {
            lemma_get_string_prefix(bs, ext, sl.file_idx as int);
        }
        if sl.scope_idx != raw::GLOBAL_SCOPE_SENTINEL && sl.scope_idx
            != raw::ANONYMOUS_SCOPE_SENTINEL {
            lemma_get_string_prefix(bs, ext, sl.scope_idx as int);
        }
    }
}

} // verus!
