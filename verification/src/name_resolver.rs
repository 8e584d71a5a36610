//! Resolution of minified scope names back to their original spelling.
//!
//! Each identifier-token component of a [`ScopeName`] carries its byte span
//! in the minified source.  The resolver converts the span's start to a
//! line/column position, looks that position up in the source map, and — when
//! the found token is a near-exact match — replaces the component's text with
//! the token's recorded original name.  Interpolation components have no span
//! and are always kept verbatim; so is any component the map cannot improve.
//! The token a map finds for a position is a function of the map alone, so it
//! carries a name the resolver's contract is stated over.

use vstd::prelude::*;

verus! {

use vstd::string::StringExecFns;
use vstd::string::StringSliceAdditionalSpecFns;

use crate::scope_name::NameComponent;
use crate::scope_name::NameComponentModel;
use crate::scope_name::ScopeName;
use crate::scope_name::render_model;
use crate::source::SourceContext;
use crate::source::position_model;

// ---------------------------------------------------------------------------
// Trusted surface: the `sourcemap` crate's decoded map and its token lookup.
// ---------------------------------------------------------------------------

/// A decoded source map of the `sourcemap` crate: a regular map, an index
/// map, or a Hermes map, all supporting token lookup.
#[verifier::external_type_specification]
#[verifier::external_body]
pub struct ExDecodedMap(sourcemap::DecodedMap);

/// The token a decoded map holds for a minified line/column: its recorded
/// minified line and column, and its original name when the map has one.
/// `lookup_token` reads nothing but the map, so the result is a function of
/// the map and the position, and the resolver's contract is stated over it.
pub uninterp spec fn map_token_at(map: sourcemap::DecodedMap, line: u32, col: u32) -> Option<
    (u32, u32, Option<Seq<char>>),
>;

/// Whether the map must be treated as carrying range-mapping tokens (the
/// separate range-mappings extension): some token of a regular or Hermes map
/// is one, or the map is an unflattened index map, whose tokens cannot be
/// walked.  A function of the map value alone.
pub uninterp spec fn map_has_range_tokens(map: sourcemap::DecodedMap) -> bool;

/// Relies on `sourcemap::SourceMap::tokens` and `sourcemap::Token::is_range`:
/// whether any token of the map is a range mapping.  An unflattened index
/// map, whose tokens cannot be walked, conservatively reports that it has
/// them, which keeps the lookup below guarded.
#[verifier::external_body]
fn has_range_tokens(map: &sourcemap::DecodedMap) -> (r: bool)
    ensures
        r == map_has_range_tokens(*map),
{
    match map {
        sourcemap::DecodedMap::Regular(sm) => sm.tokens().any(|t| t.is_range()),
        sourcemap::DecodedMap::Hermes(smh) => smh.tokens().any(|t| t.is_range()),
        sourcemap::DecodedMap::Index(_) => true,
    }
}

/// The view of one converted token.
pub open spec fn token_view(t: (u32, u32, Option<String>)) -> (u32, u32, Option<Seq<char>>) {
    (
        t.0,
        t.1,
        match t.2 {
            Some(s) => Some(s@),
            None => None,
        },
    )
}

/// The view of an optional converted token.
pub open spec fn token_opt_view(r: Option<(u32, u32, Option<String>)>) -> Option<
    (u32, u32, Option<Seq<char>>),
> {
    match r {
        Some(t) => Some(token_view(t)),
        None => None,
    }
}

/// Relies on `sourcemap::DecodedMap::lookup_token` and
/// `sourcemap::Token::{get_dst_line, get_dst_col, get_name}`: the token
/// covering the given line/column of the minified source, converted to plain
/// values — [`map_token_at`] of the map and the position.  Per the crate's
/// source, the lookup subtracts a found range token's column from the looked
/// up one, which can underflow when the token sits on an earlier line, so
/// the bound leaves range-carrying maps out; the resolver tests for them
/// with [`map_has_range_tokens`] first and keeps the minified text instead.
#[verifier::external_body]
fn lookup_token_at(map: &sourcemap::DecodedMap, line: u32, col: u32) -> (r: Option<
    (u32, u32, Option<String>),
>)
    requires
        !map_has_range_tokens(*map),
    ensures
        token_opt_view(r) == map_token_at(*map, line, col),
{
    map.lookup_token(line, col).map(
        |t| (t.get_dst_line(), t.get_dst_col(), t.get_name().map(|s| s.to_owned())),
    )
}

// ---------------------------------------------------------------------------
// The resolution model.
// ---------------------------------------------------------------------------

/// The column one to the left, for the off-by-one tolerance.
pub open spec fn near_col(col: u32) -> u32 {
    if col == 0 {
        0u32
    } else {
        (col - 1) as u32
    }
}

/// What one component resolves to through the map, if anything: the
/// component must carry a span, the span's start must convert to a position,
/// the map must hold a token there, the token must match the position nearly
/// exactly — same line, column at most one to the left — and it must carry a
/// name.  In every other case the component keeps its text; so does every
/// component of a map carrying range-mapping tokens, which the lookup
/// cannot be asked about.
pub open spec fn try_map_model(
    bs: Seq<u8>,
    map: sourcemap::DecodedMap,
    c: NameComponentModel,
) -> Option<Seq<char>> {
    match c.span {
        None => None,
        Some(span) => if map_has_range_tokens(map) {
            None
        } else {
            match position_model(bs, span.start) {
                None => None,
                Some(p) => match map_token_at(map, p.line, p.column) {
                    None => None,
                    Some(tok) => if tok.0 == p.line && tok.1 >= near_col(p.column) {
                        tok.2
                    } else {
                        None
                    },
                },
            }
        },
    }
}

/// The piece one component contributes to the resolved name: the mapped
/// original name, or the component's own text.
pub open spec fn piece_model(
    bs: Seq<u8>,
    map: sourcemap::DecodedMap,
    c: NameComponentModel,
) -> Seq<char> {
    match try_map_model(bs, map, c) {
        Some(n) => n,
        None => c.text,
    }
}

/// The resolved name: the pieces of all components, concatenated in order.
pub open spec fn resolve_model(
    bs: Seq<u8>,
    map: sourcemap::DecodedMap,
    s: Seq<NameComponentModel>,
) -> Seq<char>
    decreases s.len(),
{
    if s.len() == 0 {
        Seq::<char>::empty()
    } else {
        piece_model(bs, map, s[0]) + resolve_model(bs, map, s.drop_first())
    }
}

/// Appending one component appends its piece to the resolution.
proof fn lemma_resolve_push(
    bs: Seq<u8>,
    map: sourcemap::DecodedMap,
    s: Seq<NameComponentModel>,
    c: NameComponentModel,
)
    ensures
        resolve_model(bs, map, s.push(c)) == resolve_model(bs, map, s) + piece_model(bs, map, c),
    decreases s.len(),
{
    reveal_with_fuel(resolve_model, 3);
    if s.len() == 0 {
        assert(s.push(c).drop_first() =~= Seq::<NameComponentModel>::empty());
        assert(s.push(c)[0] == c);
        assert(piece_model(bs, map, c) + Seq::<char>::empty() =~= piece_model(bs, map, c));
        assert(resolve_model(bs, map, s) + piece_model(bs, map, c) =~= piece_model(bs, map, c));
    } else {
        assert(s.push(c).drop_first() =~= s.drop_first().push(c));
        assert(s.push(c)[0] == s[0]);
        lemma_resolve_push(bs, map, s.drop_first(), c);
        assert(resolve_model(bs, map, s.push(c)) == piece_model(bs, map, s[0]) + resolve_model(
            bs,
            map,
            s.drop_first().push(c),
        ));
        assert(resolve_model(bs, map, s) == piece_model(bs, map, s[0]) + resolve_model(
            bs,
            map,
            s.drop_first(),
        ));
        assert(piece_model(bs, map, s[0]) + (resolve_model(bs, map, s.drop_first())
            + piece_model(bs, map, c)) =~= (piece_model(bs, map, s[0]) + resolve_model(
            bs,
            map,
            s.drop_first(),
        )) + piece_model(bs, map, c));
    }
}

/// The total length of the interpolation components of a name: the part of
/// the rendering that resolution always keeps verbatim.
pub open spec fn interp_len_model(s: Seq<NameComponentModel>) -> int
    decreases s.len(),
{
    if s.len() == 0 {
        0
    } else {
        (if s[0].span is None {
            s[0].text.len() as int
        } else {
            0
        }) + interp_len_model(s.drop_first())
    }
}

/// Whether every component is an interpolation.
pub open spec fn all_interp(s: Seq<NameComponentModel>) -> bool {
    forall|i: int| 0 <= i < s.len() ==> (#[trigger] s[i]).span is None
}

/// Appending one component adds its interpolation length.
proof fn lemma_interp_len_push(s: Seq<NameComponentModel>, c: NameComponentModel)
    ensures
        interp_len_model(s.push(c)) == interp_len_model(s) + (if c.span is None {
            c.text.len() as int
        } else {
            0
        }),
    decreases s.len(),
{
    if s.len() == 0 {
        assert(s.push(c).drop_first() =~= Seq::<NameComponentModel>::empty());
        assert(s.push(c)[0] == c);
        assert(interp_len_model(Seq::<NameComponentModel>::empty()) == 0);
    } else {
        assert(s.push(c).drop_first() =~= s.drop_first().push(c));
        assert(s.push(c)[0] == s[0]);
        lemma_interp_len_push(s.drop_first(), c);
    }
}

/// An interpolation length is never negative.
proof fn lemma_interp_len_nonneg(s: Seq<NameComponentModel>)
    ensures
        interp_len_model(s) >= 0,
    decreases s.len(),
{
    if s.len() > 0 {
        lemma_interp_len_nonneg(s.drop_first());
    }
}

// ---------------------------------------------------------------------------
// The resolver.
// ---------------------------------------------------------------------------

/// A structure for resolving [`ScopeName`]s in minified code to their
/// original names using the information contained in a decoded source map.
pub struct NameResolver<'a> {
    ctx: &'a SourceContext,
    sourcemap: &'a sourcemap::DecodedMap,
    has_ranges: bool,
}

impl<'a> NameResolver<'a> {
    /// Well-formedness: the resolver's source context is well-formed and its
    /// range-token flag reflects the map.
    pub closed spec fn wf(&self) -> bool {
        &&& self.ctx.wf()
        &&& self.has_ranges == map_has_range_tokens(*self.sourcemap)
    }

    /// The bytes of the minified source the resolver positions against.
    pub closed spec fn ctx_bytes(&self) -> Seq<u8> {
        self.ctx.bytes_spec()
    }

    /// The decoded map the resolver looks tokens up in.
    pub closed spec fn map_spec(&self) -> sourcemap::DecodedMap {
        *self.sourcemap
    }

    /// Constructs a new resolver from a source context for the minified
    /// source and a decoded source map.
    pub fn new(ctx: &'a SourceContext, sourcemap: &'a sourcemap::DecodedMap) -> (r: NameResolver<
        'a,
    >)
        requires
            ctx.wf(),
        ensures
            r.wf(),
            r.ctx_bytes() == ctx.bytes_spec(),
            r.map_spec() == *sourcemap,
    {
        let has_ranges = has_range_tokens(sourcemap);
        NameResolver { ctx, sourcemap, has_ranges }
    }

    /// Resolves the given minified scope name to the original name.
    ///
    /// The result is exactly the concatenation, in component order, of each
    /// component's piece: the near-exact matching token's recorded name when
    /// the map has one at the component's position, the component's own text
    /// otherwise — so interpolations always come through verbatim, the
    /// result is at least as long as the interpolation parts of the input,
    /// and a name without identifier tokens renders unchanged.
    pub fn resolve_name(&self, name: &ScopeName) -> (r: String)
        requires
            self.wf(),
        ensures
            r@ == resolve_model(self.ctx_bytes(), self.map_spec(), name@),
            r@.len() >= interp_len_model(name@),
            all_interp(name@) ==> r@ == render_model(name@),
    {
        let components = name.components();
        let mut out = String::new();
        let mut i: usize = 0;
        proof {
            lemma_interp_len_nonneg(name@);
        }
        while i < components.len()
            invariant
                self.wf(),
                i <= components@.len(),
                components@.map_values(|c: NameComponent| c@) == name@,
                out@ == resolve_model(
                    self.ctx_bytes(),
                    self.map_spec(),
                    name@.subrange(0, i as int),
                ),
                out@.len() >= interp_len_model(name@.subrange(0, i as int)),
                all_interp(name@) ==> out@ == render_model(name@.subrange(0, i as int)),
            decreases components@.len() - i,
        {
            let c = &components[i];
            proof {
                assert(c@ == name@[i as int]);
                assert(name@.subrange(0, i + 1) =~= name@.subrange(0, i as int).push(
                    name@[i as int],
                ));
                lemma_resolve_push(
                    self.ctx_bytes(),
                    self.map_spec(),
                    name@.subrange(0, i as int),
                    name@[i as int],
                );
                lemma_interp_len_push(name@.subrange(0, i as int), name@[i as int]);
                crate::scope_name::lemma_render_push(
                    name@.subrange(0, i as int),
                    name@[i as int],
                );
            }
            match self.try_map_token(c) {
                Some(mapped) => {
                    out.append(mapped.as_str());
                },
                None => {
                    out.append(c.text());
                },
            }
            i = i + 1;
        }
        proof {
            assert(name@.subrange(0, name@.len() as int) =~= name@);
        }
        out
    }

    /// Maps one component through the source map: exactly
    /// [`try_map_model`] — the component must carry a span whose start
    /// converts to a position covered by a token on the same line whose
    /// column is at most one to the left, and the token must carry a name.
    fn try_map_token(&self, c: &NameComponent) -> (r: Option<String>)
        requires
            self.wf(),
        ensures
            (match r {
                Some(s) => Some(s@),
                None => None,
            }) == try_map_model(self.ctx_bytes(), self.map_spec(), c@),
    {
        let range = match c.range() {
            Some(range) => range,
            None => {
                return None;
            },
        };
        if self.has_ranges {
            // The crate's token lookup cannot be asked about a map with
            // range-mapping tokens: keep the minified text.
            return None;
        }
        let source_position = match self.ctx.offset_to_position(range.start) {
            Some(p) => p,
            None => {
                return None;
            },
        };
        let token = match lookup_token_at(
            self.sourcemap,
            source_position.line,
            source_position.column,
        ) {
            Some(t) => t,
            None => {
                return None;
            },
        };
        let near = if source_position.column == 0 {
            0
        } else {
            source_position.column - 1
        };
        let is_exactish_match = token.0 == source_position.line && token.1 >= near;
        if is_exactish_match {
            token.2
        } else {
            None
        }
    }
}

} // verus!
