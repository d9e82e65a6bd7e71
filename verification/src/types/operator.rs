//! The operators of the catalog.

use crate::types::tag::TagType;
use vstd::prelude::*;
use vstd::string::StringExecFns;

verus! {

/// Where the pictures of the operators are kept.
pub const AVATAR_DIRECTORY: &'static str = "data/assets/charavatars/";

/// The ending of the name of a picture.
pub const AVATAR_SUFFIX: &'static str = ".png";

/// The picture of an operator that has none of its own.
pub const DEFAULT_AVATAR: &'static str = "default_avatar";

/// How rare an operator is, from the most common to the rarest.
#[derive(Clone, Copy, Debug, PartialEq, Eq, PartialOrd, Ord, Structural, Hash)]
pub enum Rarity {
    Tier1,
    Tier2,
    Tier3,
    Tier4,
    Tier5,
    Tier6,
}

impl Rarity {
    /// The number of the tier, from one to six.
    pub open spec fn spec_tier(self) -> nat {
        match self {
            Self::Tier1 => 1,
            Self::Tier2 => 2,
            Self::Tier3 => 3,
            Self::Tier4 => 4,
            Self::Tier5 => 5,
            Self::Tier6 => 6,
        }
    }

    /// The rarest tier: its operators are offered only for the tag that
    /// promises them.
    pub open spec fn is_top(self) -> bool {
        self == Self::Tier6
    }

    pub fn tier(&self) -> (tier: u8)
        ensures
            tier == self.spec_tier(),
    {
        match self {
            Self::Tier1 => 1,
            Self::Tier2 => 2,
            Self::Tier3 => 3,
            Self::Tier4 => 4,
            Self::Tier5 => 5,
            Self::Tier6 => 6,
        }
    }
}

/// Where an operator fights.
#[derive(Clone, Copy, Debug, PartialEq, Eq, Structural, Hash)]
pub enum Position {
    Melee,
    Ranged,
}

/// An operator of the catalog.
#[derive(Clone, Debug, PartialEq, Eq)]
pub struct Operator {
    id: String,
    name: String,
    rarity: Rarity,
    tag_list: Vec<TagType>,
    position: Position,
}

/// Whether `kind` is in the list.
pub fn contains_kind(list: &Vec<TagType>, kind: TagType) -> (found: bool)
    ensures
        found == list@.contains(kind),
{
    let mut i: usize = 0;
    while i < list.len()
        invariant
            i <= list.len(),
            forall|j: int| 0 <= j < i ==> list[j] != kind,
        decreases list.len() - i,
    {
        if list[i] == kind {
            return true;
        }
        i += 1;
    }
    false
}

impl Operator {
    pub closed spec fn spec_id(self) -> Seq<char> {
        self.id@
    }

    pub closed spec fn spec_name(self) -> Seq<char> {
        self.name@
    }

    pub closed spec fn spec_rarity(self) -> Rarity {
        self.rarity
    }

    pub closed spec fn spec_tag_list(self) -> Seq<TagType> {
        self.tag_list@
    }

    pub closed spec fn spec_position(self) -> Position {
        self.position
    }

    /// An operator is offered for a combination of tags if it has every tag of
    /// the combination, and, where it is of the rarest tier, only if the
    /// combination holds the tag that promises such operators.
    pub open spec fn matches(self, tags: Seq<TagType>) -> bool {
        &&& !self.spec_rarity().is_top() || tags.contains(TagType::TopOperator)
        &&& forall|i: int| 0 <= i < tags.len() ==> self.spec_tag_list().contains(#[trigger] tags[i])
    }

    pub fn new(
        id: String,
        name: String,
        rarity: Rarity,
        tag_list: Vec<TagType>,
        position: Position,
    ) -> (operator: Operator)
        ensures
            operator.spec_id() == id@,
            operator.spec_name() == name@,
            operator.spec_rarity() == rarity,
            operator.spec_tag_list() == tag_list@,
            operator.spec_position() == position,
    {
        Operator { id, name, rarity, tag_list, position }
    }

    pub fn id(&self) -> (id: &String)
        ensures
            id@ == self.spec_id(),
    {
        &self.id
    }

    pub fn name(&self) -> (name: &String)
        ensures
            name@ == self.spec_name(),
    {
        &self.name
    }

    pub fn rarity(&self) -> (rarity: &Rarity)
        ensures
            *rarity == self.spec_rarity(),
    {
        &self.rarity
    }

    pub fn tag_list(&self) -> (tag_list: &Vec<TagType>)
        ensures
            tag_list@ == self.spec_tag_list(),
    {
        &self.tag_list
    }

    pub fn position(&self) -> (position: &Position)
        ensures
            *position == self.spec_position(),
    {
        &self.position
    }

    /// Whether the operator is offered for the combination `tags`.
    pub fn matches_tags(&self, tags: &Vec<TagType>) -> (matched: bool)
        ensures
            matched == self.matches(tags@),
    {
        if self.rarity == Rarity::Tier6 && !contains_kind(tags, TagType::TopOperator) {
            return false;
        }
        let mut i: usize = 0;
        while i < tags.len()
            invariant
                i <= tags.len(),
                forall|j: int| 0 <= j < i ==> self.spec_tag_list().contains(#[trigger] tags[j]),
            decreases tags.len() - i,
        {
            if !contains_kind(&self.tag_list, tags[i]) {
                return false;
            }
            i += 1;
        }
        true
    }
}

/// The file that holds the picture named `avatar`, or the default picture
/// where there is no name.
pub open spec fn avatar_file(avatar: Option<Seq<char>>) -> Seq<char> {
    AVATAR_DIRECTORY@ + match avatar {
        Some(name) => name,
        None => DEFAULT_AVATAR@,
    } + AVATAR_SUFFIX@
}

/// Where the picture of an operator is read from.
pub fn avatar_path(avatar: Option<&str>) -> (path: String)
    ensures
        path@ == avatar_file(
            match avatar {
                Some(name) => Some(name@),
                None => None,
            },
        ),
{
    let mut path = String::from_str(AVATAR_DIRECTORY);
    match avatar {
        Some(name) => path.append(name),
        None => path.append(DEFAULT_AVATAR),
    }
    path.append(AVATAR_SUFFIX);
    path
}

} // verus!
