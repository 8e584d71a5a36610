//! Scope names and their components.
//!
//! A [`ScopeName`] is an ordered sequence of [`NameComponent`]s.  Each
//! component is either an identifier token, which carries the token text plus
//! its byte span in the source, or a static interpolation (`"new "`, `"."`,
//! `"get "`, `"<computed>"`, ...) that carries no span.  Rendering a scope
//! name concatenates the component texts in order, with no separator:
//! separators are themselves interpolation components.

use vstd::prelude::*;

verus! {

use vstd::string::StringExecFns;

/// A half-open byte range `[start, end)` into the minified source.
#[derive(Clone, Copy, Debug, PartialEq, Eq, Structural)]
pub struct SourceSpan {
    /// Byte offset of the first byte of the range.
    pub start: u32,
    /// Byte offset one past the last byte of the range.
    pub end: u32,
}

/// The mathematical value of a [`NameComponent`]: its text as a sequence of
/// characters, and its span when it is an identifier token.
pub struct NameComponentModel {
    /// The text of the component.
    pub text: Seq<char>,
    /// `Some` for identifier tokens, `None` for interpolations.
    pub span: Option<SourceSpan>,
}

/// An individual component of a [`ScopeName`].
///
/// The text is always defined; the span is defined only for identifier
/// tokens, never for interpolations.
#[derive(Debug, Clone)]
pub struct NameComponent {
    text: String,
    span: Option<SourceSpan>,
}

impl View for NameComponent {
    type V = NameComponentModel;

    closed spec fn view(&self) -> NameComponentModel {
        NameComponentModel { text: self.text@, span: self.span }
    }
}

/// The view of an interpolation component with the given text.
pub open spec fn interp_model(text: Seq<char>) -> NameComponentModel {
    NameComponentModel { text: text, span: None }
}

/// The view of an identifier-token component with the given text and span.
pub open spec fn ident_model(text: Seq<char>, span: SourceSpan) -> NameComponentModel {
    NameComponentModel { text: text, span: Some(span) }
}

impl NameComponent {
    /// The source text of this component.
    pub fn text(&self) -> (r: &str)
        ensures
            r@ == self@.text,
    {
        self.text.as_str()
    }

    /// The range of this component inside of the source text.
    ///
    /// This returns `None` for synthetic components that do not correspond
    /// to a specific token inside the source text.
    pub fn range(&self) -> (r: Option<SourceSpan>)
        ensures
            r == self@.span,
    {
        self.span
    }

    /// A static interpolation fragment, such as a separator or a prefix.
    pub fn interp(s: &str) -> (r: Self)
        ensures
            r@ == interp_model(s@),
    {
        NameComponent { text: String::from_str(s), span: None }
    }

    /// An interpolation fragment that takes ownership of its text.
    pub fn interp_owned(s: String) -> (r: Self)
        ensures
            r@ == interp_model(s@),
    {
        NameComponent { text: s, span: None }
    }

    /// An identifier token with its text and its byte span in the source.
    pub fn ident(text: String, span: SourceSpan) -> (r: Self)
        ensures
            r@ == ident_model(text@, span),
    {
        NameComponent { text, span: Some(span) }
    }
}

/// An abstract scope name which can consist of multiple [`NameComponent`]s.
#[derive(Debug, Clone)]
pub struct ScopeName {
    components: Vec<NameComponent>,
}

impl View for ScopeName {
    type V = Seq<NameComponentModel>;

    closed spec fn view(&self) -> Seq<NameComponentModel> {
        self.components@.map_values(|c: NameComponent| c@)
    }
}

/// The rendering of a scope name: the concatenation of the texts of its
/// components, in order.
pub open spec fn render_model(s: Seq<NameComponentModel>) -> Seq<char>
    decreases s.len(),
{
    if s.len() == 0 {
        Seq::<char>::empty()
    } else {
        s[0].text + render_model(s.drop_first())
    }
}

/// Appending one component to a name appends its text to the rendering.
pub proof fn lemma_render_push(s: Seq<NameComponentModel>, c: NameComponentModel)
    ensures
        render_model(s.push(c)) == render_model(s) + c.text,
    decreases s.len(),
{
    if s.len() == 0 {
        assert(s.push(c).drop_first() =~= Seq::<NameComponentModel>::empty());
        assert(s.push(c)[0] == c);
        assert(render_model(s.push(c)) == c.text + render_model(
            Seq::<NameComponentModel>::empty(),
        ));
        assert(c.text + Seq::<char>::empty() =~= c.text);
        assert(render_model(s) + c.text =~= c.text);
    } else {
        assert(s.push(c).drop_first() =~= s.drop_first().push(c));
        lemma_render_push(s.drop_first(), c);
        assert(s.push(c)[0] == s[0]);
        assert(render_model(s.push(c)) == s[0].text + (render_model(s.drop_first()) + c.text));
        assert(s[0].text + (render_model(s.drop_first()) + c.text) =~= (s[0].text + render_model(
            s.drop_first(),
        )) + c.text);
    }
}

impl ScopeName {
    /// An empty scope name, semantically equivalent to "no name".
    pub fn new() -> (r: Self)
        ensures
            r@ =~= Seq::<NameComponentModel>::empty(),
    {
        let r = ScopeName { components: Vec::new() };
        proof {
            assert(r@ =~= Seq::<NameComponentModel>::empty());
        }
        r
    }

    /// The individual components of this scope name, in order.
    pub fn components(&self) -> (r: &Vec<NameComponent>)
        ensures
            r@.map_values(|c: NameComponent| c@) == self@,
    {
        &self.components
    }

    /// The number of components.
    pub fn len(&self) -> (r: usize)
        ensures
            r == self@.len(),
    {
        self.components.len()
    }

    /// Whether the name has no components.
    pub fn is_empty(&self) -> (r: bool)
        ensures
            r == (self@.len() == 0),
    {
        self.components.len() == 0
    }

    /// Adds a component at the front of the name.
    pub fn push_front(&mut self, c: NameComponent)
        ensures
            final(self)@ =~= seq![c@] + old(self)@,
    {
        self.components.insert(0, c);
        proof {
            assert(final(self)@ =~= seq![c@] + old(self)@);
        }
    }

    /// Adds a component at the back of the name.
    pub fn push_back(&mut self, c: NameComponent)
        ensures
            final(self)@ =~= old(self)@.push(c@),
    {
        self.components.push(c);
        proof {
            assert(final(self)@ =~= old(self)@.push(c@));
        }
    }

    /// Removes the last component, if any.
    pub fn pop_back(&mut self)
        ensures
            old(self)@.len() == 0 ==> final(self)@ =~= old(self)@,
            old(self)@.len() > 0 ==> final(self)@ =~= old(self)@.drop_last(),
    {
        if self.components.len() > 0 {
            let _ = self.components.pop();
            proof {
                assert(final(self)@ =~= old(self)@.drop_last());
            }
        }
    }

    /// Moves all components of `tail` to the end of this name, leaving
    /// `tail` empty.
    pub fn append(&mut self, tail: &mut ScopeName)
        ensures
            final(self)@ =~= old(self)@ + old(tail)@,
            final(tail)@ =~= Seq::<NameComponentModel>::empty(),
    {
        self.components.append(&mut tail.components);
        proof {
            assert(final(self)@ =~= old(self)@ + old(tail)@);
            assert(final(tail)@ =~= Seq::<NameComponentModel>::empty());
        }
    }

    /// Prepends a `"."` separator if the name already has components: used
    /// while building a compound name from the inside out.
    pub fn push_sep(&mut self)
        ensures
            final(self)@ =~= sep_model(old(self)@),
    {
        if self.components.len() > 0 {
            self.push_front(NameComponent::interp("."));
        }
    }

    /// Renders the scope name: the concatenation of all component texts in
    /// order.  There is no separator; separators are themselves components.
    pub fn render(&self) -> (r: String)
        ensures
            r@ == render_model(self@),
    {
        let mut out = String::new();
        let mut i: usize = 0;
        while i < self.components.len()
            invariant
                i <= self.components.len(),
                out@ == render_model(self@.subrange(0, i as int)),
            decreases self.components.len() - i,
        {
            proof {
                assert(self@.subrange(0, i + 1) =~= self@.subrange(0, i as int).push(
                    self@[i as int],
                ));
                lemma_render_push(self@.subrange(0, i as int), self@[i as int]);
            }
            out.append(self.components[i].text.as_str());
            i = i + 1;
        }
        proof {
            assert(self@.subrange(0, self@.len() as int) =~= self@);
        }
        out
    }
}

/// The effect of [`ScopeName::push_sep`]: a `"."` interpolation is prepended
/// to a non-empty name and an empty name is left alone.
pub open spec fn sep_model(s: Seq<NameComponentModel>) -> Seq<NameComponentModel> {
    if s.len() == 0 {
        s
    } else {
        seq![interp_model("."@)] + s
    }
}

} // verus!
