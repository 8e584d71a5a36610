//! Recovery of human-readable scope names from minified JavaScript.
//!
//! Given a piece of JS-like source text, [`extract_scope_names`] parses it and
//! walks the syntax tree, computing for every function-like construct (function
//! declarations and expressions, arrow functions, classes, object or class
//! methods, getters and setters) a compound [`ScopeName`] the way a browser
//! would print it in a stack trace, together with the byte span the construct
//! covers.  A [`lookup::ScopeIndex`] sorts those spans for point lookup, and
//! a [`name_resolver::NameResolver`] maps each identifier token of a name
//! through a source map back to its pre-minification spelling.

use vstd::prelude::*;

pub mod collector;
pub mod lookup;
pub mod name_resolver;
pub mod rslint;
pub mod scope_name;
pub mod smcache;
pub mod source;
pub mod text_util;

verus! {

use vstd::string::StringExecFns;
use vstd::string::StringSliceAdditionalSpecFns;

use crate::collector::collect_model;
use crate::rslint::build_model;
use crate::rslint::first_error_idx;
use crate::rslint::has_parse_error;
use crate::rslint::parse_errs;
use crate::rslint::parsed_nodes;
use crate::scope_name::NameComponentModel;
use crate::scope_name::ScopeName;
use crate::scope_name::SourceSpan;
use crate::text_util::dec_model;
use crate::text_util::push_char;
use crate::text_util::u32_to_dec;

/// The scopes extracted from a piece of JS code: for every function-like
/// construct its byte span in the source, and the inferred name, `None` when
/// no name could be inferred from the surrounding code.
pub type Scopes = Vec<(SourceSpan, Option<ScopeName>)>;

/// What extraction returns for a source text: the collector's entries over
/// the named parse tree of the text.  A function of the text alone.
pub open spec fn extract_model(src: Seq<char>, src_len: u32) -> Seq<
    (SourceSpan, Seq<NameComponentModel>),
> {
    collect_model(build_model(parsed_nodes(src), src_len))
}

/// Whether an entry list is the extraction result for a source text: the
/// model's entries in order, with empty names turned into `None`.
pub open spec fn extract_entries_match(
    src: Seq<char>,
    src_len: u32,
    entries: Seq<(SourceSpan, Option<ScopeName>)>,
) -> bool {
    let m = extract_model(src, src_len);
    &&& entries.len() == m.len()
    &&& (forall|j: int|
        0 <= j < entries.len() ==> (#[trigger] entries[j]).0 == m[j].0 && (m[j].1.len() == 0
            ==> entries[j].1 is None) && (m[j].1.len() > 0 ==> entries[j].1 is Some
            && entries[j].1->0@ == m[j].1))
}

/// Idempotence: the extraction result is a function of the source text
/// alone, so any two entry lists satisfying the contract of
/// [`extract_scope_names`] for the same source agree — same spans, and
/// componentwise-equal names.
pub proof fn lemma_extract_deterministic(
    src: Seq<char>,
    src_len: u32,
    e1: Seq<(SourceSpan, Option<ScopeName>)>,
    e2: Seq<(SourceSpan, Option<ScopeName>)>,
)
    requires
        extract_entries_match(src, src_len, e1),
        extract_entries_match(src, src_len, e2),
    ensures
        e1.len() == e2.len(),
        forall|j: int|
            0 <= j < e1.len() ==> (#[trigger] e1[j]).0 == (#[trigger] e2[j]).0 && (e1[j].1
                is Some <==> e2[j].1 is Some) && (e1[j].1 is Some ==> e1[j].1->0@
                == e2[j].1->0@),
{
    let m = extract_model(src, src_len);
    assert forall|j: int|
        0 <= j < e1.len() implies (#[trigger] e1[j]).0 == (#[trigger] e2[j]).0 && (e1[j].1
        is Some <==> e2[j].1 is Some) && (e1[j].1 is Some ==> e1[j].1->0@ == e2[j].1->0@) by {
        if m[j].1.len() == 0 {
        } else {
        }
    }
}

/// Extracts function scopes from the given JS-like `src`.
///
/// The returned entries hold the byte span of each function-like construct,
/// including the leading `function` keyword or class body braces, and the
/// corresponding inferred name.  `None` denotes a function scope for which no
/// name could be inferred from the surrounding code, which mostly happens for
/// anonymous or arrow functions used as immediate callbacks.  The order of
/// the entries is the traversal order of the syntax tree; callers sort.
pub fn extract_scope_names(src: &str) -> (r: Result<Scopes, ParseError>)
    requires
        src.spec_bytes().len() <= u32::MAX,
    ensures
        (r is Err) == has_parse_error(parse_errs(src@)),
        r matches Err(e) ==> ({
            let d = parse_errs(src@)[first_error_idx(parse_errs(src@))];
            e.lo_spec() == d.1 && e.hi_spec() == d.2 && e.msg_spec() == d.3
        }),
        r matches Ok(entries) ==> extract_entries_match(
            src@,
            src.spec_bytes().len() as u32,
            entries@,
        ),
        r is Ok ==> (forall|j: int|
            0 <= j < r->Ok_0@.len() ==> (#[trigger] r->Ok_0@[j]).0.start <= r->Ok_0@[j].0.end
                && r->Ok_0@[j].0.end <= src.spec_bytes().len()),
        r is Ok ==> (forall|j: int|
            0 <= j < r->Ok_0@.len() ==> ((#[trigger] r->Ok_0@[j]).1 matches Some(n) ==> n@.len()
                > 0)),
{
    let mut scopes = crate::rslint::parse_with_rslint(src)?;
    let ghost m = extract_model(src@, src.spec_bytes().len() as u32);

    // filter out empty names
    let mut i: usize = 0;
    while i < scopes.len()
        invariant
            i <= scopes@.len(),
            scopes@.len() == m.len(),
            forall|j: int|
                0 <= j < scopes@.len() ==> (#[trigger] scopes@[j]).0.start <= scopes@[j].0.end
                    && scopes@[j].0.end <= src.spec_bytes().len(),
            forall|j: int| 0 <= j < scopes@.len() ==> (#[trigger] scopes@[j]).0 == m[j].0,
            forall|j: int|
                i <= j < scopes@.len() ==> (#[trigger] scopes@[j]).1 is Some && scopes@[j].1->0@
                    == m[j].1,
            forall|j: int|
                0 <= j < i ==> ((m[j].1.len() == 0 ==> (#[trigger] scopes@[j]).1 is None) && (
                m[j].1.len() > 0 ==> scopes@[j].1 is Some && scopes@[j].1->0@ == m[j].1)),
            forall|j: int|
                0 <= j < i ==> ((#[trigger] scopes@[j]).1 matches Some(n) ==> n@.len() > 0),
        decreases scopes@.len() - i,
    {
        let empty = match &scopes[i].1 {
            Some(name) => name.is_empty(),
            None => false,
        };
        if empty {
            let span = scopes[i].0;
            scopes.set(i, (span, None));
        }
        i = i + 1;
    }
    Ok(scopes)
}

/// An error parsing the JS source provided to [`extract_scope_names`]: the
/// byte range the parser pointed at, and its message.
#[derive(Debug)]
pub struct ParseError {
    lo: u32,
    hi: u32,
    msg: String,
}

impl ParseError {
    /// Start of the byte range the parser pointed at.
    pub closed spec fn lo_spec(&self) -> u32 {
        self.lo
    }

    /// End of the byte range the parser pointed at.
    pub closed spec fn hi_spec(&self) -> u32 {
        self.hi
    }

    /// The parser's message.
    pub closed spec fn msg_spec(&self) -> Seq<char> {
        self.msg@
    }

    /// Packages a parser diagnostic.
    pub(crate) fn new(lo: u32, hi: u32, msg: String) -> (r: ParseError)
        ensures
            r.lo_spec() == lo && r.hi_spec() == hi && r.msg_spec() == msg@,
    {
        ParseError { lo, hi, msg }
    }

    /// Start of the byte range the parser pointed at.
    pub fn start(&self) -> (r: u32)
        ensures
            r == self.lo_spec(),
    {
        self.lo
    }

    /// End of the byte range the parser pointed at.
    pub fn end(&self) -> (r: u32)
        ensures
            r == self.hi_spec(),
    {
        self.hi
    }

    /// The error rendered as `start:end:message`.
    pub fn message(&self) -> (r: String)
        ensures
            r@ == dec_model(self.lo_spec() as nat) + ":"@ + dec_model(self.hi_spec() as nat)
                + ":"@ + self.msg_spec(),
    {
        let mut out = u32_to_dec(self.lo);
        push_char(&mut out, ':');
        let hi_part = u32_to_dec(self.hi);
        out.append(hi_part.as_str());
        push_char(&mut out, ':');
        out.append(self.msg.as_str());
        proof {
            reveal_strlit(":");
            assert(":"@ =~= seq![':']);
            assert(out@ =~= dec_model(self.lo as nat) + ":"@ + dec_model(self.hi as nat) + ":"@
                + self.msg@);
        }
        out
    }
}

} // verus!
