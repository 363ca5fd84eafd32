use vstd::prelude::*;

verus! {

/// One column of the prefix drawn before a node's name.
#[derive(Clone, Copy, Debug, PartialEq, Eq)]
pub enum Indent {
    /// The ancestor at this level has no further siblings: blank column.
    Blank,
    /// The ancestor at this level has siblings below: vertical bar.
    Uplink,
    /// Connector of a child that has siblings below it.
    Split,
    /// Connector of the last child of its parent.
    Last,
}

/// The three characters drawn for an indent token.
pub open spec fn token_text(t: Indent) -> Seq<char> {
    match t {
        Indent::Blank => seq![' ', ' ', ' '],
        Indent::Uplink => seq!['|', ' ', ' '],
        Indent::Split => seq!['+', '-', '-'],
        Indent::Last => seq!['`', '-', '-'],
    }
}

impl Indent {
    /// The glyph of this token, as a string slice.
    pub fn glyph(&self) -> (r: &'static str)
        ensures
            r@ == token_text(*self),
    {
        match self {
            Indent::Blank => {
                proof {
                    reveal_strlit("   ");
                }
                "   "
            },
            Indent::Uplink => {
                proof {
                    reveal_strlit("|  ");
                }
                "|  "
            },
            Indent::Split => {
                proof {
                    reveal_strlit("+--");
                }
                "+--"
            },
            Indent::Last => {
                proof {
                    reveal_strlit("`--");
                }
                "`--"
            },
        }
    }

    /// The glyph of this token as an owned string.
    pub fn to_string(&self) -> (r: String)
        ensures
            r@ == token_text(*self),
    {
        String::from_str(self.glyph())
    }
}

} // verus!
