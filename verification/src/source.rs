//! The source context: converts between byte offsets and line/column
//! positions in a piece of source text.
//!
//! Source maps index columns in UTF-16 code units while spans are in UTF-8
//! bytes, so the conversion walks the bytes of a line and accumulates the
//! UTF-16 width of each character: one unit for anything below the
//! supplementary planes, two units for a four-byte UTF-8 sequence,
//! and nothing for continuation bytes.

use vstd::prelude::*;

verus! {

use vstd::string::StrSliceExecFns;
use vstd::string::StringSliceAdditionalSpecFns;

/// The newline byte that terminates a line.
pub const NEWLINE: u8 = 0x0A;

/// A line/column source position, zero-based, with the column counted in
/// UTF-16 code units.
#[derive(Clone, Copy, Debug, PartialEq, Eq, PartialOrd, Ord, Structural)]
pub struct SourcePosition {
    /// Zero-based line.
    pub line: u32,
    /// Zero-based column, in UTF-16 code units.
    pub column: u32,
}

impl SourcePosition {
    /// A position from its line and column.
    pub fn new(line: u32, column: u32) -> (r: SourcePosition)
        ensures
            r.line == line && r.column == column,
    {
        SourcePosition { line, column }
    }
}

/// An error constructing a [`SourceContext`]: the source is so large that
/// its offsets cannot be represented.
#[derive(Debug)]
pub struct SourceContextError(());

impl SourceContextError {
    /// A description of the failure.
    pub fn message(&self) -> (r: &'static str)
        ensures
            r@ == "source could not be converted to source context"@,
    {
        "source could not be converted to source context"
    }
}

/// The start offsets of the lines of the first `n` bytes: zero, and the
/// offset after every newline byte.
pub open spec fn starts_model(bs: Seq<u8>, n: int) -> Seq<int>
    decreases n,
    when n >= 0
{
    if n <= 0 {
        seq![0int]
    } else if bs[n - 1] == NEWLINE {
        starts_model(bs, n - 1).push(n)
    } else {
        starts_model(bs, n - 1)
    }
}

/// The UTF-16 width contributed by one UTF-8 byte: one unit for an ASCII
/// byte or the lead byte of a two- or three-byte sequence, two units for the
/// lead byte of a four-byte sequence, nothing for a continuation byte.
pub open spec fn u16_width(b: u8) -> int {
    if b < 0x80 {
        1
    } else if b < 0xC0 {
        0
    } else if b < 0xF0 {
        1
    } else {
        2
    }
}

/// The UTF-16 length of the bytes in `[from, to)`.
pub open spec fn utf16_len(bs: Seq<u8>, from: int, to: int) -> int
    decreases to - from,
    when from <= to
{
    if from >= to {
        0
    } else {
        u16_width(bs[from]) + utf16_len(bs, from + 1, to)
    }
}

/// The line an offset falls on: the last line start at or before it.
pub open spec fn line_for(starts: Seq<int>, offset: int) -> int
    decreases starts.len(),
{
    if starts.len() == 0 {
        0
    } else if starts.last() <= offset {
        starts.len() - 1
    } else {
        line_for(starts.drop_last(), offset)
    }
}

/// The line starts are ascending, begin at zero, and never exceed `n`.
pub proof fn lemma_starts_props(bs: Seq<u8>, n: int)
    requires
        n >= 0,
    ensures
        starts_model(bs, n).len() >= 1,
        starts_model(bs, n).len() <= n + 1,
        starts_model(bs, n)[0] == 0,
        forall|i: int, j: int|
            0 <= i < j < starts_model(bs, n).len() ==> (#[trigger] starts_model(bs, n)[i])
                < (#[trigger] starts_model(bs, n)[j]),
        forall|i: int|
            0 <= i < starts_model(bs, n).len() ==> 0 <= (#[trigger] starts_model(bs, n)[i])
                <= n,
    decreases n,
{
    if n > 0 {
        lemma_starts_props(bs, n - 1);
    }
}

/// The UTF-16 length of a range is the sum of the lengths of its halves.
pub proof fn lemma_utf16_additive(bs: Seq<u8>, from: int, mid: int, to: int)
    requires
        from <= mid <= to,
    ensures
        utf16_len(bs, from, to) == utf16_len(bs, from, mid) + utf16_len(bs, mid, to),
    decreases mid - from,
{
    if from < mid {
        lemma_utf16_additive(bs, from + 1, mid, to);
    }
}

/// A UTF-16 length is never negative.
pub proof fn lemma_utf16_nonneg(bs: Seq<u8>, from: int, to: int)
    requires
        from <= to,
    ensures
        utf16_len(bs, from, to) >= 0,
    decreases to - from,
{
    if from < to {
        lemma_utf16_nonneg(bs, from + 1, to);
    }
}

/// The line/column position of a byte offset in a source given as bytes:
/// the line whose start is the last at or before the offset, and the UTF-16
/// width of the bytes between that start and the offset; nothing when the
/// offset lies past the end or the width is unrepresentable.
pub open spec fn position_model(bs: Seq<u8>, offset: u32) -> Option<SourcePosition> {
    let starts = starts_model(bs, bs.len() as int);
    let l = line_for(starts, offset as int);
    let col = utf16_len(bs, starts[l], offset as int);
    if offset <= bs.len() && col <= u32::MAX {
        Some(SourcePosition { line: l as u32, column: col as u32 })
    } else {
        None
    }
}

/// The end of line `l`: the next line's start, or the end of the source.
pub open spec fn line_end_model(starts: Seq<int>, l: int, n: int) -> int {
    if l + 1 < starts.len() {
        starts[l + 1]
    } else {
        n
    }
}

/// Whether `off` sits at a character boundary of the line: at its end, or
/// on a byte that is not a UTF-8 continuation byte.
pub open spec fn is_char_start(bs: Seq<u8>, off: int, end: int) -> bool {
    off == end || !(0x80 <= bs[off] < 0xC0)
}

/// Whether `off` is a byte offset for the UTF-16 column `col` of the line
/// `[start, end)`: it lies in the line, the width accumulated up to it is
/// exactly the column, and it does not split a character.
pub open spec fn col_offset_ok(bs: Seq<u8>, start: int, end: int, col: int, off: int) -> bool {
    &&& start <= off <= end
    &&& utf16_len(bs, start, off) == col
    &&& is_char_start(bs, off, end)
}

/// A source context for converting between byte offsets and line/column
/// positions, built once from the source text.
pub struct SourceContext {
    bytes: Vec<u8>,
    line_starts: Vec<u32>,
}

impl SourceContext {
    /// The bytes of the source.
    pub closed spec fn bytes_spec(&self) -> Seq<u8> {
        self.bytes@
    }

    /// The line start offsets.
    pub closed spec fn starts_spec(&self) -> Seq<int> {
        self.line_starts@.map_values(|v: u32| v as int)
    }

    /// Well-formedness: the offsets fit in the id width and the line starts
    /// are exactly those of the held bytes.
    pub open spec fn wf(&self) -> bool {
        &&& self.bytes_spec().len() <= u32::MAX
        &&& self.starts_spec() == starts_model(
            self.bytes_spec(),
            self.bytes_spec().len() as int,
        )
    }

    /// Builds a context over the given source.  Fails exactly when the
    /// source is too large for its offsets to be representable.
    #[verifier::loop_isolation(false)]
    pub fn new(src: &str) -> (r: Result<SourceContext, SourceContextError>)
        ensures
            (r is Ok) == (src.spec_bytes().len() <= u32::MAX),
            r matches Ok(ctx) ==> ctx.wf() && ctx.bytes_spec() == src.spec_bytes(),
    {
        let bytes = src.as_bytes_vec();
        if bytes.len() > u32_max_usize() {
            return Err(SourceContextError(()));
        }
        let mut line_starts: Vec<u32> = Vec::new();
        line_starts.push(0);
        let mut i: usize = 0;
        while i < bytes.len()
            invariant
                i <= bytes@.len(),
                bytes@.len() <= u32::MAX,
                bytes@ == src.spec_bytes(),
                line_starts@.map_values(|v: u32| v as int) == starts_model(bytes@, i as int),
            decreases bytes@.len() - i,
        {
            let ghost pre = line_starts@.map_values(|v: u32| v as int);
            if bytes[i] == NEWLINE {
                line_starts.push((i + 1) as u32);
                proof {
                    assert(line_starts@.map_values(|v: u32| v as int) =~= pre.push(i + 1));
                }
            }
            i = i + 1;
        }
        Ok(SourceContext { bytes, line_starts })
    }

    /// The byte length of the source.
    pub fn len(&self) -> (r: usize)
        ensures
            r == self.bytes_spec().len(),
    {
        self.bytes.len()
    }

    /// Converts a byte offset into a line/column position: the line is the
    /// one whose start is the last at or before the offset, and the column
    /// is the UTF-16 width of the bytes between that start and the offset.
    /// Returns `None` when the offset lies past the end of the source or the
    /// column would not be representable.
    #[verifier::loop_isolation(false)]
    pub fn offset_to_position(&self, offset: u32) -> (r: Option<SourcePosition>)
        requires
            self.wf(),
        ensures
            r == position_model(self.bytes_spec(), offset),
            ({
                let l = line_for(self.starts_spec(), offset as int);
                let col = utf16_len(self.bytes_spec(), self.starts_spec()[l], offset as int);
                &&& (r is Some) == (offset <= self.bytes_spec().len() && col <= u32::MAX)
                &&& (r matches Some(p) ==> p.line == l && p.column == col)
            }),
    {
        proof {
            lemma_starts_props(self.bytes_spec(), self.bytes_spec().len() as int);
            let n = self.bytes_spec().len() as int;
            assert forall|i: int, j: int|
                0 <= i < j < self.starts_spec().len() implies self.starts_spec()[i]
                < self.starts_spec()[j] by {
                assert(starts_model(self.bytes_spec(), n)[i] < starts_model(
                    self.bytes_spec(),
                    n,
                )[j]);
            }
            assert forall|i: int|
                0 <= i < self.starts_spec().len() implies 0 <= #[trigger] self.starts_spec()[i]
                <= self.bytes_spec().len() by {
                assert(0 <= starts_model(self.bytes_spec(), n)[i] <= n);
            }
        }
        if (offset as usize) > self.bytes.len() {
            proof {
                let l = line_for(self.starts_spec(), offset as int);
                lemma_line_for_props(self.starts_spec(), offset as int);
                lemma_utf16_nonneg(
                    self.bytes_spec(),
                    self.starts_spec()[l],
                    offset as int,
                );
            }
            return None;
        }
        // Binary search for the last line start at or before the offset.
        let mut lo: usize = 0;
        let mut hi: usize = self.line_starts.len();
        proof {
            assert(self.starts_spec()[0] == 0);
        }
        while lo < hi
            invariant
                lo <= hi <= self.starts_spec().len(),
                forall|k: int| 0 <= k < lo ==> (#[trigger] self.starts_spec()[k]) <= offset,
                forall|k: int|
                    hi <= k < self.starts_spec().len() ==> (#[trigger] self.starts_spec()[k])
                        > offset,
            decreases hi - lo,
        {
            let mid = lo + (hi - lo) / 2;
            if self.line_starts[mid] <= offset {
                proof {
                    assert(self.starts_spec()[mid as int] <= offset);
                    assert forall|k: int| 0 <= k < mid + 1 implies #[trigger] self.starts_spec()[k]
                        <= offset by {
                        if k < mid {
                            assert(self.starts_spec()[k] < self.starts_spec()[mid as int]);
                        }
                    }
                }
                lo = mid + 1;
            } else {
                proof {
                    assert(self.starts_spec()[mid as int] > offset);
                    assert forall|k: int|
                        mid <= k < self.starts_spec().len() implies #[trigger] self.starts_spec()[k]
                        > offset by {
                        if k > mid {
                            assert(self.starts_spec()[mid as int] < self.starts_spec()[k]);
                        }
                    }
                }
                hi = mid;
            }
        }
        proof {
            assert(self.starts_spec()[0] <= offset);
            assert(lo >= 1) by {
                if lo == 0 {
                    assert(self.starts_spec()[0] > offset);
                }
            }
        }
        let line = lo - 1;
        proof {
            lemma_line_for_at(self.starts_spec(), offset as int, line as int);
        }
        let start = self.line_starts[line];
        // Accumulate the UTF-16 width from the line start to the offset.
        let mut cur: usize = start as usize;
        let mut units: u64 = 0;
        proof {
            assert(self.starts_spec()[line as int] <= offset);
        }
        while cur < offset as usize
            invariant
                start <= cur <= offset,
                offset <= self.bytes_spec().len(),
                units == utf16_len(self.bytes_spec(), start as int, cur as int),
                units <= 2 * (cur - start),
            decreases offset - cur,
        {
            proof {
                lemma_utf16_additive(self.bytes_spec(), start as int, cur as int, cur + 1);
                assert(utf16_len(self.bytes_spec(), cur + 1, cur + 1) == 0);
                assert(utf16_len(self.bytes_spec(), cur as int, cur + 1) == u16_width(
                    self.bytes_spec()[cur as int],
                ));
            }
            units = units + byte_width(self.bytes[cur]) as u64;
            cur = cur + 1;
        }
        if units > u32::MAX as u64 {
            return None;
        }
        Some(SourcePosition { line: line as u32, column: units as u32 })
    }

    /// Converts a line/column position into the byte offset of the first
    /// place on that line where the accumulated UTF-16 width equals the
    /// column.  Returns `None` when the line does not exist, when the column
    /// falls inside a character or past the end of the line.
    #[verifier::loop_isolation(false)]
    pub fn position_to_offset(&self, pos: SourcePosition) -> (r: Option<u32>)
        requires
            self.wf(),
        ensures
            r matches Some(off) ==> ({
                let l = pos.line as int;
                let starts = self.starts_spec();
                &&& l < starts.len()
                &&& starts[l] <= off <= self.bytes_spec().len()
                &&& utf16_len(self.bytes_spec(), starts[l], off as int) == pos.column
            }),
            ({
                let l = pos.line as int;
                let starts = self.starts_spec();
                let bs = self.bytes_spec();
                &&& (r is Some) == (l < starts.len() && exists|off: int|
                    col_offset_ok(
                        bs,
                        starts[l],
                        line_end_model(starts, l, bs.len() as int),
                        pos.column as int,
                        off,
                    ))
                &&& (r matches Some(off) ==> col_offset_ok(
                    bs,
                    starts[l],
                    line_end_model(starts, l, bs.len() as int),
                    pos.column as int,
                    off as int,
                ))
            }),
    {
        proof {
            lemma_starts_props(self.bytes_spec(), self.bytes_spec().len() as int);
            let n = self.bytes_spec().len() as int;
            assert forall|i: int, j: int|
                0 <= i < j < self.starts_spec().len() implies self.starts_spec()[i]
                < self.starts_spec()[j] by {
                assert(starts_model(self.bytes_spec(), n)[i] < starts_model(
                    self.bytes_spec(),
                    n,
                )[j]);
            }
            assert forall|i: int|
                0 <= i < self.starts_spec().len() implies 0 <= #[trigger] self.starts_spec()[i]
                <= self.bytes_spec().len() by {
                assert(0 <= starts_model(self.bytes_spec(), n)[i] <= n);
            }
        }
        if (pos.line as usize) >= self.line_starts.len() {
            return None;
        }
        let line = pos.line as usize;
        let start = self.line_starts[line];
        let end: u32 = if line + 1 < self.line_starts.len() {
            self.line_starts[line + 1]
        } else {
            self.bytes.len() as u32
        };
        proof {
            assert(self.starts_spec()[line as int] <= self.bytes_spec().len());
            if line + 1 < self.starts_spec().len() {
                assert(self.starts_spec()[line as int] < self.starts_spec()[line + 1]);
            }
        }
        let ghost bs = self.bytes_spec();
        let ghost lend = line_end_model(
            self.starts_spec(),
            pos.line as int,
            bs.len() as int,
        );
        proof {
            assert(lend == end);
        }
        let mut cur: u32 = start;
        let mut units: u64 = 0;
        while cur < end
            invariant
                start <= cur <= end,
                end <= self.bytes_spec().len(),
                units == utf16_len(self.bytes_spec(), start as int, cur as int),
                units <= pos.column,
                forall|off: int|
                    start <= off < cur ==> !col_offset_ok(
                        bs,
                        start as int,
                        lend,
                        pos.column as int,
                        off,
                    ),
            decreases end - cur,
        {
            let b = self.bytes[cur as usize];
            proof {
                assert(bs[cur as int] == b);
            }
            // stop only at a character boundary, never inside a multi-byte
            // character whose lead byte already contributed its width
            if units == pos.column as u64 && (b < 0x80 || b >= 0xC0) {
                proof {
                    assert(col_offset_ok(bs, start as int, lend, pos.column as int, cur as int));
                }
                return Some(cur);
            }
            proof {
                lemma_utf16_additive(self.bytes_spec(), start as int, cur as int, cur + 1);
                assert(utf16_len(self.bytes_spec(), cur + 1, cur + 1) == 0);
                assert(utf16_len(self.bytes_spec(), cur as int, cur + 1) == u16_width(
                    self.bytes_spec()[cur as int],
                ));
            }
            let w = byte_width(b);
            if units + w as u64 > pos.column as u64 {
                // The width is about to pass the column: no later offset of
                // the line can come back down to it.
                proof {
                    assert(units < pos.column) by {
                        if units == pos.column {
                            assert(0x80 <= b < 0xC0);
                            assert(u16_width(b) == 0);
                        }
                    }
                    assert forall|off: int|
                        start <= off <= lend implies !col_offset_ok(
                        bs,
                        start as int,
                        lend,
                        pos.column as int,
                        off,
                    ) by {
                        if cur < off {
                            lemma_utf16_additive(bs, start as int, cur + 1, off);
                            lemma_utf16_additive(bs, start as int, cur as int, cur + 1);
                            lemma_utf16_nonneg(bs, cur + 1, off);
                            assert(utf16_len(bs, start as int, off) > pos.column);
                        } else if off == cur as int {
                            assert(utf16_len(bs, start as int, off) == units);
                        }
                    }
                }
                return None;
            }
            units = units + w as u64;
            cur = cur + 1;
        }
        if units == pos.column as u64 {
            proof {
                assert(col_offset_ok(bs, start as int, lend, pos.column as int, end as int));
            }
            Some(cur)
        } else {
            proof {
                assert forall|off: int|
                    start <= off <= lend implies !col_offset_ok(
                    bs,
                    start as int,
                    lend,
                    pos.column as int,
                    off,
                ) by {
                    if off == lend {
                        assert(utf16_len(bs, start as int, off) == units);
                    }
                }
            }
            None
        }
    }
}

/// The UTF-16 width of one byte: see [`u16_width`].
fn byte_width(b: u8) -> (r: u8)
    ensures
        r == u16_width(b),
{
    if b < 0x80 {
        1
    } else if b < 0xC0 {
        0
    } else if b < 0xF0 {
        1
    } else {
        2
    }
}

/// `u32::MAX` as a `usize`.
fn u32_max_usize() -> (r: usize)
    ensures
        r == u32::MAX,
{
    u32::MAX as usize
}

/// `line_for` always returns an index into the starts.
proof fn lemma_line_for_props(starts: Seq<int>, offset: int)
    requires
        starts.len() >= 1,
    ensures
        0 <= line_for(starts, offset) < starts.len(),
    decreases starts.len(),
{
    if starts.last() <= offset {
    } else if starts.len() > 1 {
        lemma_line_for_props(starts.drop_last(), offset);
    } else {
        assert(starts.drop_last().len() == 0);
        assert(line_for(starts.drop_last(), offset) == 0);
    }
}

/// Characterizes `line_for`: an index whose start is at or before the
/// offset, with every later start after it, is the line found.
proof fn lemma_line_for_at(starts: Seq<int>, offset: int, i: int)
    requires
        0 <= i < starts.len(),
        starts[i] <= offset,
        forall|k: int| i < k < starts.len() ==> (#[trigger] starts[k]) > offset,
    ensures
        line_for(starts, offset) == i,
    decreases starts.len(),
{
    if i == starts.len() - 1 {
    } else {
        assert(starts.last() > offset);
        assert(forall|k: int|
            i < k < starts.drop_last().len() ==> (#[trigger] starts.drop_last()[k]) > offset)
            by {
            assert(forall|k: int|
                0 <= k < starts.drop_last().len() ==> (#[trigger] starts.drop_last()[k])
                    == starts[k]);
        }
        lemma_line_for_at(starts.drop_last(), offset, i);
    }
}

} // verus!
