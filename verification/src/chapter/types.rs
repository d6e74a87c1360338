//! Kinds of context, spans, and the indentation tracker.

use vstd::prelude::*;

verus! {

/// A closed span: offsets of its first character and of the character just
/// behind its last one.
pub type CodeLocation = (usize, usize);

/// Handle of a node inside its tree.
pub type NodeId = usize;

/// The kind of lexical scope a node stands for.
#[allow(non_camel_case_types)]
#[derive(Debug, Clone, Copy, PartialEq, Eq, Hash, Structural)]
pub enum ContextType {
    /// The whole file.
    ROOT,
    /// A `def` block.
    METHOD,
    /// A `class` block.
    CLASS,
    /// An `__all__` export list.
    ALL,
    /// A triple-quoted docstring.
    DOCSTRING,
}

/// Columns in one indentation unit.
pub const INDENT_STEP: usize = 4;

/// A run of `n` spaces.
pub open spec fn spaces(n: nat) -> Seq<char> {
    Seq::new(n, |i: int| ' ')
}

/// Current indentation as a width and as the matching run of spaces.
pub struct Indent {
    value: String,
    spaces: usize,
}

impl Indent {
    /// The width is a whole number of units, and the cached text is exactly
    /// `width` spaces.
    #[verifier::type_invariant]
    spec fn consistent(&self) -> bool {
        &&& self.spaces % INDENT_STEP == 0
        &&& self.value@ == spaces(self.spaces as nat)
    }

    /// Width in columns.
    pub closed spec fn width(&self) -> nat {
        self.spaces as nat
    }

    /// The whitespace that a line at this indentation begins with.
    pub closed spec fn text(&self) -> Seq<char> {
        self.value@
    }

    /// No indentation.
    pub fn new() -> (indent: Self)
        ensures
            indent.width() == 0,
            indent.text() == Seq::<char>::empty(),
    {
        let value = String::new();
        assert(value@ =~= spaces(0));
        Indent { value, spaces: 0 }
    }

    /// The whitespace that a line at this indentation begins with.
    pub fn value(&self) -> (text: &String)
        ensures
            text@ == self.text(),
            text@ == spaces(self.width()),
    {
        proof {
            use_type_invariant(self);
        }
        &self.value
    }

    /// Width in columns.
    pub fn columns(&self) -> (n: usize)
        ensures
            n == self.width(),
    {
        self.spaces
    }

    /// One unit deeper.
    pub fn increase(&mut self)
        requires
            old(self).width() + INDENT_STEP <= usize::MAX,
        ensures
            final(self).width() == old(self).width() + INDENT_STEP,
            final(self).text() == spaces(final(self).width()),
    {
        proof {
            use_type_invariant(&*self);
            reveal_strlit("    ");
        }
        let deeper = self.value.clone().concat("    ");
        assert(deeper@ =~= spaces((self.spaces + 4) as nat));
        *self = Indent { value: deeper, spaces: self.spaces + 4 };
    }

    /// One unit shallower; stays at zero when already there.
    pub fn decrease(&mut self)
        ensures
            final(self).width() == if old(self).width() > 0 {
                old(self).width() - INDENT_STEP
            } else {
                0
            },
            final(self).text() == spaces(final(self).width()),
    {
        proof {
            use_type_invariant(&*self);
        }
        if self.spaces > 0 {
            let kept: usize = self.spaces - 4;
            let shorter = String::from_str(self.value.as_str().substring_char(0, kept));
            assert(shorter@ =~= spaces(kept as nat));
            *self = Indent { value: shorter, spaces: kept };
        }
    }
}

} // verus!
