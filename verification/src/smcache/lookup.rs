//! Reading the binary cache: parsing the byte format written by
//! [`crate::smcache::writer`] and answering lookups from it.

use vstd::prelude::*;

verus! {

use vstd::string::StringSliceAdditionalSpecFns;
use vstd::utf8::valid_utf8;
use vstd::utf8::encode_utf8;

use crate::lookup::ScopeLookupResult;
use crate::smcache::raw;
use crate::smcache::raw::MinifiedSourcePosition;
use crate::smcache::raw::OriginalSourceLocation;
use crate::source::SourcePosition;

/// A resolved source location with file, line and scope information.
#[derive(Debug, Clone, PartialEq, Eq)]
pub struct SourceLocation {
    /// The source file this location belongs to.
    pub file: Option<String>,
    /// The source line.
    pub line: u32,
    /// The scope containing this source location.
    pub scope: ScopeLookupResult,
}

/// An error parsing a cache buffer.
#[derive(Debug, PartialEq, Eq)]
#[non_exhaustive]
pub enum Error {
    /// The file was generated by a system with different endianness.
    WrongEndianness,
    /// The file magic does not match.
    WrongFormat,
    /// The format version in the header is wrong/unknown.
    WrongVersion,
    /// The buffer is too small to hold the header.
    Header,
    /// The buffer is too small to hold the minified source positions.
    SourcePositions,
    /// The buffer is too small to hold the original source locations.
    SourceLocations,
    /// The buffer is too small to hold the string table.
    StringBytes,
}

// ---------------------------------------------------------------------------
// Byte-level decoding.
// ---------------------------------------------------------------------------

/// The padding needed to reach the next eight-byte boundary.
pub open spec fn pad8(p: int) -> int {
    if p % 8 == 0 {
        0
    } else {
        8 - p % 8
    }
}

/// The little-endian `u32` at position `pos`.
pub open spec fn read_u32_le(b: Seq<u8>, pos: int) -> u32 {
    (b[pos] + b[pos + 1] * 0x100 + b[pos + 2] * 0x10000 + b[pos + 3] * 0x1000000) as u32
}

/// Reads a little-endian `u32`.
fn read_u32(buf: &[u8], pos: usize) -> (r: u32)
    requires
        pos + 4 <= buf@.len(),
    ensures
        r == read_u32_le(buf@, pos as int),
{
    buf[pos] as u32 + buf[pos + 1] as u32 * 0x100 + buf[pos + 2] as u32 * 0x10000 + buf[pos
        + 3] as u32 * 0x1000000
}

/// The unsigned LEB128 value starting at `pos`: seven value bits per byte,
/// least significant group first, the high bit marking continuation.
pub open spec fn leb_decode(bs: Seq<u8>, pos: int) -> Option<(nat, int)>
    decreases bs.len() - pos,
    when pos >= 0
{
    if pos >= bs.len() {
        None
    } else if bs[pos] < 0x80 {
        Some((bs[pos] as nat, pos + 1))
    } else {
        match leb_decode(bs, pos + 1) {
            Some(rest) => Some((((bs[pos] - 0x80) as nat + 128 * rest.0) as nat, rest.1)),
            None => None,
        }
    }
}

/// Reads an unsigned LEB128 value; `None` when the buffer ends inside the
/// value or the value does not fit in 64 bits.
fn leb_read(bs: &Vec<u8>, pos: usize) -> (r: Option<(u64, usize)>)
    ensures
        r matches Some(p) ==> leb_decode(bs@, pos as int) == Some((p.0 as nat, p.1 as int))
            && p.1 <= bs@.len(),
        r is None ==> (leb_decode(bs@, pos as int) is None || (leb_decode(
            bs@,
            pos as int,
        ) matches Some(q) && q.0 > u64::MAX)),
    decreases bs@.len() - pos,
{
    if pos >= bs.len() {
        return None;
    }
    let b = bs[pos];
    if b < 0x80 {
        return Some((b as u64, pos + 1));
    }
    match leb_read(bs, pos + 1) {
        Some((v, end)) => {
            if v <= (u64::MAX - 127) / 128 {
                Some(((b - 0x80) as u64 + 128 * v, end))
            } else {
                None
            }
        },
        None => None,
    }
}

/// The string stored at `offset` of a string table: an LEB128 length
/// followed by that many bytes.
pub open spec fn get_string_model(bs: Seq<u8>, offset: int) -> Option<Seq<u8>> {
    match leb_decode(bs, offset) {
        Some(p) => if p.1 + p.0 <= bs.len() {
            Some(bs.subrange(p.1, p.1 + p.0))
        } else {
            None
        },
        None => None,
    }
}

/// Relies on `String::from_utf8`: decodes bytes as UTF-8, failing exactly on
/// invalid UTF-8, and keeping the bytes as they are.
#[verifier::external_body]
fn vec_to_string(v: Vec<u8>) -> (r: Option<String>)
    ensures
        (r is Some) == valid_utf8(v@),
        r matches Some(s) ==> encode_utf8(s@) == v@,
{
    match String::from_utf8(v) {
        Ok(s) => Some(s),
        Err(_) => None,
    }
}

// ---------------------------------------------------------------------------
// The parsed cache.
// ---------------------------------------------------------------------------

/// A parsed cache: the minified source positions, the original source
/// locations they map to, and the string table holding the file and scope
/// names.
#[derive(Debug)]
pub struct SmCache {
    positions: Vec<MinifiedSourcePosition>,
    locations: Vec<OriginalSourceLocation>,
    string_bytes: Vec<u8>,
}

/// Whether position `a` is at or before the looked-up position, comparing
/// the line first and the column second.
pub open spec fn pos_leq(a: MinifiedSourcePosition, sp: SourcePosition) -> bool {
    a.line < sp.line || (a.line == sp.line && a.column <= sp.column)
}

/// The index of the last position at or before `sp`.
pub open spec fn pos_found_idx(ps: Seq<MinifiedSourcePosition>, sp: SourcePosition) -> Option<
    int,
>
    decreases ps.len(),
{
    if ps.len() == 0 {
        None
    } else if pos_leq(ps.last(), sp) {
        Some(ps.len() - 1)
    } else {
        pos_found_idx(ps.drop_last(), sp)
    }
}

/// Whether the positions are sorted, line first, column second.
pub open spec fn sorted_positions(ps: Seq<MinifiedSourcePosition>) -> bool {
    forall|i: int, j: int|
        0 <= i < j < ps.len() ==> ((#[trigger] ps[i]).line < (#[trigger] ps[j]).line || (
        ps[i].line == ps[j].line && ps[i].column <= ps[j].column))
}

/// Characterizes `pos_found_idx` the way the binary search finds it.
proof fn lemma_pos_found_at(ps: Seq<MinifiedSourcePosition>, sp: SourcePosition, i: int)
    requires
        0 <= i < ps.len(),
        pos_leq(ps[i], sp),
        forall|k: int| i < k < ps.len() ==> !pos_leq(#[trigger] ps[k], sp),
    ensures
        pos_found_idx(ps, sp) == Some(i),
    decreases ps.len(),
{
    if i == ps.len() - 1 {
    } else {
        assert(!pos_leq(ps.last(), sp));
        assert(forall|k: int|
            i < k < ps.drop_last().len() ==> !pos_leq(#[trigger] ps.drop_last()[k], sp)) by {
            assert(forall|k: int|
                0 <= k < ps.drop_last().len() ==> (#[trigger] ps.drop_last()[k]) == ps[k]);
        }
        lemma_pos_found_at(ps.drop_last(), sp, i);
    }
}

/// When every position is after `sp`, nothing is found.
proof fn lemma_pos_found_none(ps: Seq<MinifiedSourcePosition>, sp: SourcePosition)
    requires
        forall|k: int| 0 <= k < ps.len() ==> !pos_leq(#[trigger] ps[k], sp),
    ensures
        pos_found_idx(ps, sp) is None,
    decreases ps.len(),
{
    if ps.len() > 0 {
        lemma_pos_found_none(ps.drop_last(), sp);
    }
}

/// A source file with fast access to its lines.
pub struct File {
    source: String,
    line_offsets: Vec<u32>,
}

impl File {
    /// The characters of the source.
    pub closed spec fn source_spec(&self) -> Seq<char> {
        self.source@
    }

    /// The byte offsets delimiting the lines: each line runs from its own
    /// offset to the next one.
    pub closed spec fn offsets_spec(&self) -> Seq<u32> {
        self.line_offsets@
    }

    /// Packages a source together with its line-offset table.
    pub fn new(source: String, line_offsets: Vec<u32>) -> (r: File)
        ensures
            r.source_spec() == source@,
            r.offsets_spec() == line_offsets@,
    {
        File { source, line_offsets }
    }

    /// Returns the source of this file.
    pub fn get_source(&self) -> (r: &str)
        ensures
            r@ == self.source_spec(),
    {
        self.source.as_str()
    }

    /// Returns the requested source line if possible: the bytes between the
    /// line's offset and the next one, decoded back to text.  The line comes
    /// back exactly when both offsets exist, form a byte range into the
    /// source, and that range is valid UTF-8.
    pub fn get_line(&self, line_no: usize) -> (r: Option<String>)
        ensures
            line_no + 1 >= self.offsets_spec().len() ==> r is None,
            r matches Some(s) ==> ({
                let from = self.offsets_spec()[line_no as int] as int;
                let to = self.offsets_spec()[line_no + 1] as int;
                &&& line_no + 1 < self.offsets_spec().len()
                &&& from <= to <= encode_utf8(self.source_spec()).len()
                &&& encode_utf8(s@) == encode_utf8(self.source_spec()).subrange(from, to)
            }),
            line_no + 1 < self.offsets_spec().len() ==> ({
                let bytes = encode_utf8(self.source_spec());
                let from = self.offsets_spec()[line_no as int] as int;
                let to = self.offsets_spec()[line_no + 1] as int;
                (from <= to <= bytes.len() && valid_utf8(bytes.subrange(from, to))) ==> r
                    is Some
            }),
    {
        if self.line_offsets.len() == 0 || line_no >= self.line_offsets.len() - 1 {
            return None;
        }
        let from = self.line_offsets[line_no] as usize;
        let to = self.line_offsets[line_no + 1] as usize;
        let bytes = self.source.as_str().as_bytes();
        if from > to || to > bytes.len() {
            return None;
        }
        let mut line: Vec<u8> = Vec::new();
        let mut b: usize = from;
        while b < to
            invariant
                from <= b <= to,
                to <= bytes@.len(),
                line@ =~= bytes@.subrange(from as int, b as int),
            decreases to - b,
        {
            line.push(bytes[b]);
            proof {
                assert(line@ =~= bytes@.subrange(from as int, b + 1));
            }
            b = b + 1;
        }
        vec_to_string(line)
    }
}

impl SmCache {
    /// The minified positions, in file order.
    pub closed spec fn positions_spec(&self) -> Seq<MinifiedSourcePosition> {
        self.positions@
    }

    /// The original locations, one per position.
    pub closed spec fn locations_spec(&self) -> Seq<OriginalSourceLocation> {
        self.locations@
    }

    /// The string table.
    pub closed spec fn strings_spec(&self) -> Seq<u8> {
        self.string_bytes@
    }

    /// Parses a cache buffer: the header with its magic, version and counts,
    /// the two record arrays, each eight-byte aligned, and the string table.
    #[verifier::loop_isolation(false)]
    pub fn parse(buf: &[u8]) -> (r: Result<SmCache, Error>)
        ensures
            buf@.len() < 32 ==> r == Err::<SmCache, Error>(Error::Header),
            buf@.len() >= 32 && read_u32_le(buf@, 0) == raw::SMCACHE_MAGIC_FLIPPED ==> r
                == Err::<SmCache, Error>(Error::WrongEndianness),
            buf@.len() >= 32 && read_u32_le(buf@, 0) != raw::SMCACHE_MAGIC && read_u32_le(
                buf@,
                0,
            ) != raw::SMCACHE_MAGIC_FLIPPED ==> r == Err::<SmCache, Error>(Error::WrongFormat),
            buf@.len() >= 32 && read_u32_le(buf@, 0) == raw::SMCACHE_MAGIC && read_u32_le(
                buf@,
                4,
            ) != raw::SMCACHE_VERSION ==> r == Err::<SmCache, Error>(Error::WrongVersion),
            ({
                let n = read_u32_le(buf@, 8) as int;
                let sb = read_u32_le(buf@, 12) as int;
                let header_ok = buf@.len() >= 32 && read_u32_le(buf@, 0) == raw::SMCACHE_MAGIC
                    && read_u32_le(buf@, 4) == raw::SMCACHE_VERSION;
                &&& (header_ok && buf@.len() < 32 + 8 * n ==> r == Err::<SmCache, Error>(
                    Error::SourcePositions,
                ))
                &&& (header_ok && 32 + 8 * n <= buf@.len() < 32 + 20 * n ==> r == Err::<
                    SmCache,
                    Error,
                >(Error::SourceLocations))
                &&& (header_ok && 32 + 20 * n <= buf@.len() < 32 + 20 * n + pad8(32 + 20 * n)
                    + sb ==> r == Err::<SmCache, Error>(Error::StringBytes))
                &&& (header_ok && buf@.len() >= 32 + 20 * n + pad8(32 + 20 * n) + sb ==> r
                    is Ok)
            }),
            r matches Ok(c) ==> ({
                let n = read_u32_le(buf@, 8) as int;
                &&& buf@.len() >= 32
                &&& read_u32_le(buf@, 0) == raw::SMCACHE_MAGIC
                &&& read_u32_le(buf@, 4) == raw::SMCACHE_VERSION
                &&& c.positions_spec().len() == n
                &&& c.locations_spec().len() == n
                &&& (forall|k: int|
                    0 <= k < n ==> (#[trigger] c.positions_spec()[k]).line == read_u32_le(
                        buf@,
                        32 + 8 * k,
                    ) && c.positions_spec()[k].column == read_u32_le(buf@, 32 + 8 * k + 4))
                &&& (forall|k: int|
                    0 <= k < n ==> (#[trigger] c.locations_spec()[k]).file_idx == read_u32_le(
                        buf@,
                        32 + 8 * n + 12 * k,
                    ) && c.locations_spec()[k].line == read_u32_le(buf@, 32 + 8 * n + 12 * k + 4)
                        && c.locations_spec()[k].scope_idx == read_u32_le(
                        buf@,
                        32 + 8 * n + 12 * k + 8,
                    ))
                &&& c.strings_spec().len() == read_u32_le(buf@, 12)
                &&& c.strings_spec() == buf@.subrange(
                    32 + 20 * n + pad8(32 + 20 * n),
                    32 + 20 * n + pad8(32 + 20 * n) + read_u32_le(buf@, 12) as int,
                )
            }),
    {
        if buf.len() < 32 {
            return Err(Error::Header);
        }
        let magic = read_u32(buf, 0);
        let version = read_u32(buf, 4);
        let num_mappings = read_u32(buf, 8);
        let string_bytes_len = read_u32(buf, 12);

        if magic == raw::SMCACHE_MAGIC_FLIPPED {
            return Err(Error::WrongEndianness);
        }
        if magic != raw::SMCACHE_MAGIC {
            return Err(Error::WrongFormat);
        }
        if version != raw::SMCACHE_VERSION {
            return Err(Error::WrongVersion);
        }

        let n = num_mappings as usize;
        let mut pos: usize = 32;

        // The minified source positions: eight bytes each.
        let mut positions: Vec<MinifiedSourcePosition> = Vec::new();
        let mut k: usize = 0;
        while k < n
            invariant
                positions@.len() == k,
                k <= n,
                pos == 32 + 8 * k,
                pos <= buf@.len(),
                buf@.len() >= 32,
                n == read_u32_le(buf@, 8),
                forall|m: int|
                    0 <= m < k ==> (#[trigger] positions@[m]).line == read_u32_le(
                        buf@,
                        32 + 8 * m,
                    ) && positions@[m].column == read_u32_le(buf@, 32 + 8 * m + 4),
            decreases n - k,
        {
            if buf.len() - pos < 8 {
                return Err(Error::SourcePositions);
            }
            let line = read_u32(buf, pos);
            let column = read_u32(buf, pos + 4);
            positions.push(MinifiedSourcePosition { line, column });
            pos = pos + 8;
            k = k + 1;
        }

        // The original source locations: twelve bytes each.
        let mut locations: Vec<OriginalSourceLocation> = Vec::new();
        let mut j: usize = 0;
        while j < n
            invariant
                locations@.len() == j,
                j <= n,
                pos == 32 + 8 * n + 12 * j,
                pos <= buf@.len(),
                buf@.len() >= 32,
                n == read_u32_le(buf@, 8),
                forall|m: int|
                    0 <= m < j ==> (#[trigger] locations@[m]).file_idx == read_u32_le(
                        buf@,
                        32 + 8 * (n as int) + 12 * m,
                    ) && locations@[m].line == read_u32_le(
                        buf@,
                        32 + 8 * (n as int) + 12 * m + 4,
                    ) && locations@[m].scope_idx == read_u32_le(
                        buf@,
                        32 + 8 * (n as int) + 12 * m + 8,
                    ),
            decreases n - j,
        {
            if buf.len() - pos < 12 {
                return Err(Error::SourceLocations);
            }
            let file_idx = read_u32(buf, pos);
            let line = read_u32(buf, pos + 4);
            let scope_idx = read_u32(buf, pos + 8);
            locations.push(OriginalSourceLocation { file_idx, line, scope_idx });
            pos = pos + 12;
            j = j + 1;
        }

        // Padding up to the next eight-byte boundary, then the string table.
        let pad = raw::align_to_eight(pos);
        if buf.len() - pos < pad {
            return Err(Error::StringBytes);
        }
        pos = pos + pad;
        let sb = string_bytes_len as usize;
        if buf.len() - pos < sb {
            return Err(Error::StringBytes);
        }
        let mut string_bytes: Vec<u8> = Vec::new();
        let mut b: usize = 0;
        while b < sb
            invariant
                b <= sb,
                pos + sb <= buf@.len(),
                string_bytes@ =~= buf@.subrange(pos as int, pos + b),
            decreases sb - b,
        {
            string_bytes.push(buf[pos + b]);
            proof {
                assert(string_bytes@ =~= buf@.subrange(pos as int, pos + b + 1));
            }
            b = b + 1;
        }

        Ok(SmCache { positions, locations, string_bytes })
    }

    /// Resolves a string-table reference to the pointed-to string.
    #[verifier::loop_isolation(false)]
    fn get_string(&self, offset: u32) -> (r: Option<String>)
        ensures
            r matches Some(s) ==> (get_string_model(self.strings_spec(), offset as int)
                matches Some(bytes) && encode_utf8(s@) == bytes),
    {
        let (len, end) = match leb_read(&self.string_bytes, offset as usize) {
            Some(p) => p,
            None => {
                return None;
            },
        };
        if len > usize::MAX as u64 {
            return None;
        }
        let len = len as usize;
        if self.string_bytes.len() - end < len {
            return None;
        }
        let mut bytes: Vec<u8> = Vec::new();
        let mut b: usize = 0;
        while b < len
            invariant
                b <= len,
                end + len <= self.string_bytes@.len(),
                bytes@ =~= self.string_bytes@.subrange(end as int, end + b),
            decreases len - b,
        {
            bytes.push(self.string_bytes[end + b]);
            proof {
                assert(bytes@ =~= self.string_bytes@.subrange(end as int, end + b + 1));
            }
            b = b + 1;
        }
        vec_to_string(bytes)
    }

    /// Looks up a minified source position and resolves it to the original
    /// source location: the record of the last position at or before it (the
    /// first record when the position precedes them all).
    #[verifier::loop_isolation(false)]
    pub fn lookup(&self, sp: SourcePosition) -> (r: Option<SourceLocation>)
        ensures
            sorted_positions(self.positions_spec()) ==> ({
                let idx = match pos_found_idx(self.positions_spec(), sp) {
                    Some(i) => i,
                    None => 0,
                };
                &&& (r is Some) == (idx < self.locations_spec().len())
                &&& (r matches Some(loc) ==> ({
                    let sl = self.locations_spec()[idx];
                    &&& loc.line == sl.line
                    &&& (sl.scope_idx == raw::GLOBAL_SCOPE_SENTINEL ==> loc.scope@
                        is Unknown)
                    &&& (sl.scope_idx == raw::ANONYMOUS_SCOPE_SENTINEL ==> loc.scope@
                        is Anonymous)
                }))
            }),
    {
        // Binary search for the first position after `sp`.
        let mut lo: usize = 0;
        let mut hi: usize = self.positions.len();
        let ghost sorted = sorted_positions(self.positions_spec());
        while lo < hi
            invariant
                lo <= hi <= self.positions@.len(),
                sorted == sorted_positions(self.positions_spec()),
                sorted ==> (forall|k: int|
                    0 <= k < lo ==> pos_leq(#[trigger] self.positions@[k], sp)),
                sorted ==> (forall|k: int|
                    hi <= k < self.positions@.len() ==> !pos_leq(
                        #[trigger] self.positions@[k],
                        sp,
                    )),
            decreases hi - lo,
        {
            let mid = lo + (hi - lo) / 2;
            let p = self.positions[mid];
            let leq = p.line < sp.line || (p.line == sp.line && p.column <= sp.column);
            if leq {
                proof {
                    if sorted {
                        assert forall|k: int| 0 <= k < mid + 1 implies pos_leq(
                            #[trigger] self.positions@[k],
                            sp,
                        ) by {
                            if k < mid {
                                assert(self.positions@[k].line < self.positions@[
                                mid as int].line || (self.positions@[k].line == self.positions@[
                                mid as int].line && self.positions@[k].column
                                    <= self.positions@[mid as int].column));
                            }
                        }
                    }
                }
                lo = mid + 1;
            } else {
                proof {
                    if sorted {
                        assert forall|k: int|
                            mid <= k < self.positions@.len() implies !pos_leq(
                            #[trigger] self.positions@[k],
                            sp,
                        ) by {
                            if k > mid {
                                assert(self.positions@[mid as int].line < self.positions@[
                                k].line || (self.positions@[mid as int].line == self.positions@[
                                k].line && self.positions@[mid as int].column
                                    <= self.positions@[k].column));
                            }
                        }
                    }
                }
                hi = mid;
            }
        }
        let idx = if lo == 0 {
            proof {
                if sorted {
                    lemma_pos_found_none(self.positions@, sp);
                }
            }
            0
        } else {
            proof {
                if sorted {
                    lemma_pos_found_at(self.positions@, sp, lo - 1);
                }
            }
            lo - 1
        };

        if idx >= self.locations.len() {
            return None;
        }
        let sl = self.locations[idx];

        let file = self.get_string(sl.file_idx);
        let line = sl.line;

        let scope = if sl.scope_idx == raw::GLOBAL_SCOPE_SENTINEL {
            ScopeLookupResult::Unknown
        } else if sl.scope_idx == raw::ANONYMOUS_SCOPE_SENTINEL {
            ScopeLookupResult::AnonymousScope
        } else {
            match self.get_string(sl.scope_idx) {
                Some(name) => ScopeLookupResult::NamedScope(name),
                None => ScopeLookupResult::Unknown,
            }
        };

        Some(SourceLocation { file, line, scope })
    }
}

} // verus!
