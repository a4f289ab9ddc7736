//! Styling of the parts of the output that the renderers color themselves.

use vstd::prelude::*;
use crate::text::concat3;

verus! {

/// The escape text put before and after a styled piece of output; both are
/// empty when colors are off.
pub struct Style {
    pub prefix: String,
    pub suffix: String,
}

/// The styles of the elements that the renderers color.
pub struct Colors {
    /// The tree connectors and the truncation summary.
    pub tree_edge: Style,
    /// The placeholder shown for a value that could not be read.
    pub no_access: Style,
}

/// The elements that the renderers color.
#[derive(Clone, Copy, Debug, PartialEq, Eq, Structural)]
pub enum Elem {
    TreeEdge,
    NoAccess,
}

/// `s` in style `st`.
pub open spec fn styled(st: Style, s: Seq<char>) -> Seq<char> {
    st.prefix@ + s + st.suffix@
}

/// The style of `elem` in `colors`.
pub open spec fn style_of(colors: Colors, elem: Elem) -> Style {
    match elem {
        Elem::TreeEdge => colors.tree_edge,
        Elem::NoAccess => colors.no_access,
    }
}

impl Style {
    /// A style that leaves text as it is.
    pub fn plain() -> (st: Style)
        ensures
            st.prefix@ == Seq::<char>::empty(),
            st.suffix@ == Seq::<char>::empty(),
    {
        Style { prefix: String::new(), suffix: String::new() }
    }
}

impl Colors {
    /// Colors off: every element is plain text.
    pub fn no_color() -> (c: Colors)
        ensures
            c.tree_edge.prefix@ == Seq::<char>::empty(),
            c.tree_edge.suffix@ == Seq::<char>::empty(),
            c.no_access.prefix@ == Seq::<char>::empty(),
            c.no_access.suffix@ == Seq::<char>::empty(),
    {
        Colors { tree_edge: Style::plain(), no_access: Style::plain() }
    }

    /// `s` styled as `elem`.
    pub fn colorize(&self, s: &str, elem: Elem) -> (r: String)
        ensures
            r@ == styled(style_of(*self, elem), s@),
    {
        let st = match elem {
            Elem::TreeEdge => &self.tree_edge,
            Elem::NoAccess => &self.no_access,
        };
        concat3(st.prefix.as_str(), s, st.suffix.as_str())
    }
}

} // verus!
