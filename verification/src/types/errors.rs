//! What can go wrong when a tag is assembled.

use vstd::prelude::*;

verus! {

/// Why no tag could be made of a recognized string.
#[derive(Clone, Copy, Debug, PartialEq, Eq, Structural)]
pub enum TagError {
    /// The string is no accepted spelling of any kind of tag.
    InvalidTagString,
}

impl TagError {
    pub open spec fn message(self) -> Seq<char> {
        match self {
            Self::InvalidTagString => "Invalid tag string"@,
        }
    }

    /// A sentence for the user.
    pub fn to_string(&self) -> (s: String)
        ensures
            s@ == self.message(),
    {
        match self {
            Self::InvalidTagString => "Invalid tag string".to_owned(),
        }
    }
}

} // verus!
