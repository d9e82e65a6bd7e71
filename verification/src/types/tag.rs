//! The closed vocabulary of recruitment tags and their accepted spellings.

use crate::types::detection::{activation_selects, is_tag_region_selected};
use crate::types::errors::TagError;
use crate::types::matching::{best_match, best_word, is_best_match, lemma_best_word, words_of};
use crate::types::region::Region;
use crate::types::text::same_text;
use vstd::prelude::*;

verus! {

/// How many kinds of tag the game knows.
pub const KIND_COUNT: usize = 29;

/// The kind of a recruitment tag.
#[derive(Copy, Debug, PartialEq, Eq, Structural, Hash)]
pub enum TagType {
    Medic,
    Caster,
    Vanguard,
    Guard,
    Defender,
    Defense,
    Supporter,
    Melee,
    Debuff,
    FastRedeploy,
    Shift,
    Summon,
    Support,
    Survival,
    Elemental,
    Ranged,
    DpRecovery,
    Starter,
    Slow,
    AoE,
    Sniper,
    CrowdControl,
    Healing,
    DPS,
    Nuker,
    SeniorOperator,
    Specialist,
    Robot,
    TopOperator,
}

impl Clone for TagType {
    fn clone(&self) -> (copy: Self)
        ensures
            copy == *self,
    {
        match self {
            Self::Medic => Self::Medic,
            Self::Caster => Self::Caster,
            Self::Vanguard => Self::Vanguard,
            Self::Guard => Self::Guard,
            Self::Defender => Self::Defender,
            Self::Defense => Self::Defense,
            Self::Supporter => Self::Supporter,
            Self::Melee => Self::Melee,
            Self::Debuff => Self::Debuff,
            Self::FastRedeploy => Self::FastRedeploy,
            Self::Shift => Self::Shift,
            Self::Summon => Self::Summon,
            Self::Support => Self::Support,
            Self::Survival => Self::Survival,
            Self::Elemental => Self::Elemental,
            Self::Ranged => Self::Ranged,
            Self::DpRecovery => Self::DpRecovery,
            Self::Starter => Self::Starter,
            Self::Slow => Self::Slow,
            Self::AoE => Self::AoE,
            Self::Sniper => Self::Sniper,
            Self::CrowdControl => Self::CrowdControl,
            Self::Healing => Self::Healing,
            Self::DPS => Self::DPS,
            Self::Nuker => Self::Nuker,
            Self::SeniorOperator => Self::SeniorOperator,
            Self::Specialist => Self::Specialist,
            Self::Robot => Self::Robot,
            Self::TopOperator => Self::TopOperator,
        }
    }
}

impl TagType {
    /// The spelling under which the game prints the kind: the hyphenated one
    /// where the name has two words.
    pub open spec fn spelling(self) -> Seq<char> {
        match self {
            Self::Medic => "Medic"@,
            Self::Caster => "Caster"@,
            Self::Vanguard => "Vanguard"@,
            Self::Guard => "Guard"@,
            Self::Defender => "Defender"@,
            Self::Defense => "Defense"@,
            Self::Supporter => "Supporter"@,
            Self::Melee => "Melee"@,
            Self::Debuff => "Debuff"@,
            Self::FastRedeploy => "Fast-Redeploy"@,
            Self::Shift => "Shift"@,
            Self::Summon => "Summon"@,
            Self::Support => "Support"@,
            Self::Survival => "Survival"@,
            Self::Elemental => "Elemental"@,
            Self::Ranged => "Ranged"@,
            Self::DpRecovery => "Dp-Recovery"@,
            Self::Starter => "Starter"@,
            Self::Slow => "Slow"@,
            Self::AoE => "AoE"@,
            Self::Sniper => "Sniper"@,
            Self::CrowdControl => "Crowd-Control"@,
            Self::Healing => "Healing"@,
            Self::DPS => "DPS"@,
            Self::Nuker => "Nuker"@,
            Self::SeniorOperator => "Senior-Operator"@,
            Self::Specialist => "Specialist"@,
            Self::Robot => "Robot"@,
            Self::TopOperator => "Top-Operator"@,
        }
    }

    /// The name written as one word. It differs from [`TagType::spelling`] only
    /// for the kinds whose name has two words.
    pub open spec fn joined_spelling(self) -> Seq<char> {
        match self {
            Self::FastRedeploy => "FastRedeploy"@,
            Self::DpRecovery => "DpRecovery"@,
            Self::CrowdControl => "CrowdControl"@,
            Self::SeniorOperator => "SeniorOperator"@,
            Self::TopOperator => "TopOperator"@,
            _ => self.spelling(),
        }
    }

    /// The name written with a space between its words. It differs from
    /// [`TagType::spelling`] only for the kinds whose name has two words.
    pub open spec fn spaced_spelling(self) -> Seq<char> {
        match self {
            Self::FastRedeploy => "Fast Redeploy"@,
            Self::DpRecovery => "Dp Recovery"@,
            Self::CrowdControl => "Crowd Control"@,
            Self::SeniorOperator => "Senior Operator"@,
            Self::TopOperator => "Top Operator"@,
            _ => self.spelling(),
        }
    }

    /// The place of the kind in the vocabulary, counted from zero.
    pub open spec fn ordinal(self) -> nat {
        match self {
            Self::Medic => 0,
            Self::Caster => 1,
            Self::Vanguard => 2,
            Self::Guard => 3,
            Self::Defender => 4,
            Self::Defense => 5,
            Self::Supporter => 6,
            Self::Melee => 7,
            Self::Debuff => 8,
            Self::FastRedeploy => 9,
            Self::Shift => 10,
            Self::Summon => 11,
            Self::Support => 12,
            Self::Survival => 13,
            Self::Elemental => 14,
            Self::Ranged => 15,
            Self::DpRecovery => 16,
            Self::Starter => 17,
            Self::Slow => 18,
            Self::AoE => 19,
            Self::Sniper => 20,
            Self::CrowdControl => 21,
            Self::Healing => 22,
            Self::DPS => 23,
            Self::Nuker => 24,
            Self::SeniorOperator => 25,
            Self::Specialist => 26,
            Self::Robot => 27,
            Self::TopOperator => 28,
        }
    }

    /// The kind at place `i` of the vocabulary. Past the end it is the last kind.
    pub open spec fn at(i: nat) -> TagType {
        if i == 0 {
            Self::Medic
        } else if i == 1 {
            Self::Caster
        } else if i == 2 {
            Self::Vanguard
        } else if i == 3 {
            Self::Guard
        } else if i == 4 {
            Self::Defender
        } else if i == 5 {
            Self::Defense
        } else if i == 6 {
            Self::Supporter
        } else if i == 7 {
            Self::Melee
        } else if i == 8 {
            Self::Debuff
        } else if i == 9 {
            Self::FastRedeploy
        } else if i == 10 {
            Self::Shift
        } else if i == 11 {
            Self::Summon
        } else if i == 12 {
            Self::Support
        } else if i == 13 {
            Self::Survival
        } else if i == 14 {
            Self::Elemental
        } else if i == 15 {
            Self::Ranged
        } else if i == 16 {
            Self::DpRecovery
        } else if i == 17 {
            Self::Starter
        } else if i == 18 {
            Self::Slow
        } else if i == 19 {
            Self::AoE
        } else if i == 20 {
            Self::Sniper
        } else if i == 21 {
            Self::CrowdControl
        } else if i == 22 {
            Self::Healing
        } else if i == 23 {
            Self::DPS
        } else if i == 24 {
            Self::Nuker
        } else if i == 25 {
            Self::SeniorOperator
        } else if i == 26 {
            Self::Specialist
        } else if i == 27 {
            Self::Robot
        } else {
            Self::TopOperator
        }
    }

    /// The kind that the string `s` spells, if it is an accepted spelling.
    pub open spec fn spelled_by(s: Seq<char>) -> Option<TagType> {
        if s == "Medic"@ {
            Some(Self::Medic)
        } else if s == "Caster"@ {
            Some(Self::Caster)
        } else if s == "Vanguard"@ {
            Some(Self::Vanguard)
        } else if s == "Guard"@ {
            Some(Self::Guard)
        } else if s == "Defender"@ {
            Some(Self::Defender)
        } else if s == "Defense"@ {
            Some(Self::Defense)
        } else if s == "Supporter"@ {
            Some(Self::Supporter)
        } else if s == "Melee"@ {
            Some(Self::Melee)
        } else if s == "Debuff"@ {
            Some(Self::Debuff)
        } else if s == "Fast-Redeploy"@ || s == "FastRedeploy"@ || s == "Fast Redeploy"@ {
            Some(Self::FastRedeploy)
        } else if s == "Shift"@ {
            Some(Self::Shift)
        } else if s == "Summon"@ {
            Some(Self::Summon)
        } else if s == "Support"@ {
            Some(Self::Support)
        } else if s == "Survival"@ {
            Some(Self::Survival)
        } else if s == "Elemental"@ {
            Some(Self::Elemental)
        } else if s == "Ranged"@ {
            Some(Self::Ranged)
        } else if s == "Dp-Recovery"@ || s == "DpRecovery"@ || s == "Dp Recovery"@ {
            Some(Self::DpRecovery)
        } else if s == "Starter"@ {
            Some(Self::Starter)
        } else if s == "Slow"@ {
            Some(Self::Slow)
        } else if s == "AoE"@ {
            Some(Self::AoE)
        } else if s == "Sniper"@ {
            Some(Self::Sniper)
        } else if s == "Crowd-Control"@ || s == "CrowdControl"@ || s == "Crowd Control"@ {
            Some(Self::CrowdControl)
        } else if s == "Healing"@ {
            Some(Self::Healing)
        } else if s == "DPS"@ {
            Some(Self::DPS)
        } else if s == "Nuker"@ {
            Some(Self::Nuker)
        } else if s == "Senior-Operator"@ || s == "SeniorOperator"@ || s == "Senior Operator"@ {
            Some(Self::SeniorOperator)
        } else if s == "Specialist"@ {
            Some(Self::Specialist)
        } else if s == "Robot"@ {
            Some(Self::Robot)
        } else if s == "Top-Operator"@ || s == "TopOperator"@ || s == "Top Operator"@ {
            Some(Self::TopOperator)
        } else {
            None
        }
    }

    pub fn to_string(&self) -> (s: String)
        ensures
            s@ == self.spelling(),
    {
        match self {
            Self::Medic => "Medic".to_owned(),
            Self::Caster => "Caster".to_owned(),
            Self::Vanguard => "Vanguard".to_owned(),
            Self::Guard => "Guard".to_owned(),
            Self::Defender => "Defender".to_owned(),
            Self::Defense => "Defense".to_owned(),
            Self::Supporter => "Supporter".to_owned(),
            Self::Melee => "Melee".to_owned(),
            Self::Debuff => "Debuff".to_owned(),
            Self::FastRedeploy => "Fast-Redeploy".to_owned(),
            Self::Shift => "Shift".to_owned(),
            Self::Summon => "Summon".to_owned(),
            Self::Support => "Support".to_owned(),
            Self::Survival => "Survival".to_owned(),
            Self::Elemental => "Elemental".to_owned(),
            Self::Ranged => "Ranged".to_owned(),
            Self::DpRecovery => "Dp-Recovery".to_owned(),
            Self::Starter => "Starter".to_owned(),
            Self::Slow => "Slow".to_owned(),
            Self::AoE => "AoE".to_owned(),
            Self::Sniper => "Sniper".to_owned(),
            Self::CrowdControl => "Crowd-Control".to_owned(),
            Self::Healing => "Healing".to_owned(),
            Self::DPS => "DPS".to_owned(),
            Self::Nuker => "Nuker".to_owned(),
            Self::SeniorOperator => "Senior-Operator".to_owned(),
            Self::Specialist => "Specialist".to_owned(),
            Self::Robot => "Robot".to_owned(),
            Self::TopOperator => "Top-Operator".to_owned(),
        }
    }

    pub fn index(&self) -> (i: usize)
        ensures
            i == self.ordinal(),
            i < KIND_COUNT,
    {
        match self {
            Self::Medic => 0,
            Self::Caster => 1,
            Self::Vanguard => 2,
            Self::Guard => 3,
            Self::Defender => 4,
            Self::Defense => 5,
            Self::Supporter => 6,
            Self::Melee => 7,
            Self::Debuff => 8,
            Self::FastRedeploy => 9,
            Self::Shift => 10,
            Self::Summon => 11,
            Self::Support => 12,
            Self::Survival => 13,
            Self::Elemental => 14,
            Self::Ranged => 15,
            Self::DpRecovery => 16,
            Self::Starter => 17,
            Self::Slow => 18,
            Self::AoE => 19,
            Self::Sniper => 20,
            Self::CrowdControl => 21,
            Self::Healing => 22,
            Self::DPS => 23,
            Self::Nuker => 24,
            Self::SeniorOperator => 25,
            Self::Specialist => 26,
            Self::Robot => 27,
            Self::TopOperator => 28,
        }
    }

    /// The kind at place `i` of the vocabulary.
    pub fn from_index(i: usize) -> (kind: Option<TagType>)
        ensures
            kind == if i < KIND_COUNT { Some(Self::at(i as nat)) } else { None::<TagType> },
    {
        match i {
            0 => Some(Self::Medic),
            1 => Some(Self::Caster),
            2 => Some(Self::Vanguard),
            3 => Some(Self::Guard),
            4 => Some(Self::Defender),
            5 => Some(Self::Defense),
            6 => Some(Self::Supporter),
            7 => Some(Self::Melee),
            8 => Some(Self::Debuff),
            9 => Some(Self::FastRedeploy),
            10 => Some(Self::Shift),
            11 => Some(Self::Summon),
            12 => Some(Self::Support),
            13 => Some(Self::Survival),
            14 => Some(Self::Elemental),
            15 => Some(Self::Ranged),
            16 => Some(Self::DpRecovery),
            17 => Some(Self::Starter),
            18 => Some(Self::Slow),
            19 => Some(Self::AoE),
            20 => Some(Self::Sniper),
            21 => Some(Self::CrowdControl),
            22 => Some(Self::Healing),
            23 => Some(Self::DPS),
            24 => Some(Self::Nuker),
            25 => Some(Self::SeniorOperator),
            26 => Some(Self::Specialist),
            27 => Some(Self::Robot),
            28 => Some(Self::TopOperator),
            _ => None,
        }
    }

    /// The kind that `text` spells, if it is an accepted spelling.
    pub fn from_spelling(text: &str) -> (kind: Option<TagType>)
        ensures
            kind == Self::spelled_by(text@),
    {
        if same_text(text, "Medic") {
            Some(Self::Medic)
        } else if same_text(text, "Caster") {
            Some(Self::Caster)
        } else if same_text(text, "Vanguard") {
            Some(Self::Vanguard)
        } else if same_text(text, "Guard") {
            Some(Self::Guard)
        } else if same_text(text, "Defender") {
            Some(Self::Defender)
        } else if same_text(text, "Defense") {
            Some(Self::Defense)
        } else if same_text(text, "Supporter") {
            Some(Self::Supporter)
        } else if same_text(text, "Melee") {
            Some(Self::Melee)
        } else if same_text(text, "Debuff") {
            Some(Self::Debuff)
        } else if same_text(text, "Fast-Redeploy")
            || same_text(text, "FastRedeploy")
            || same_text(text, "Fast Redeploy") {
            Some(Self::FastRedeploy)
        } else if same_text(text, "Shift") {
            Some(Self::Shift)
        } else if same_text(text, "Summon") {
            Some(Self::Summon)
        } else if same_text(text, "Support") {
            Some(Self::Support)
        } else if same_text(text, "Survival") {
            Some(Self::Survival)
        } else if same_text(text, "Elemental") {
            Some(Self::Elemental)
        } else if same_text(text, "Ranged") {
            Some(Self::Ranged)
        } else if same_text(text, "Dp-Recovery")
            || same_text(text, "DpRecovery")
            || same_text(text, "Dp Recovery") {
            Some(Self::DpRecovery)
        } else if same_text(text, "Starter") {
            Some(Self::Starter)
        } else if same_text(text, "Slow") {
            Some(Self::Slow)
        } else if same_text(text, "AoE") {
            Some(Self::AoE)
        } else if same_text(text, "Sniper") {
            Some(Self::Sniper)
        } else if same_text(text, "Crowd-Control")
            || same_text(text, "CrowdControl")
            || same_text(text, "Crowd Control") {
            Some(Self::CrowdControl)
        } else if same_text(text, "Healing") {
            Some(Self::Healing)
        } else if same_text(text, "DPS") {
            Some(Self::DPS)
        } else if same_text(text, "Nuker") {
            Some(Self::Nuker)
        } else if same_text(text, "Senior-Operator")
            || same_text(text, "SeniorOperator")
            || same_text(text, "Senior Operator") {
            Some(Self::SeniorOperator)
        } else if same_text(text, "Specialist") {
            Some(Self::Specialist)
        } else if same_text(text, "Robot") {
            Some(Self::Robot)
        } else if same_text(text, "Top-Operator")
            || same_text(text, "TopOperator")
            || same_text(text, "Top Operator") {
            Some(Self::TopOperator)
        } else {
            None
        }
    }
}

/// Every kind has its own place in the vocabulary, and every place below
/// [`KIND_COUNT`] holds a kind.
pub proof fn lemma_places_and_kinds(kind: TagType, i: nat)
    ensures
        kind.ordinal() < KIND_COUNT,
        TagType::at(kind.ordinal()) == kind,
        i < KIND_COUNT ==> TagType::at(i).ordinal() == i,
{
}

/// Every way of writing a kind's name is read back as that kind: the
/// hyphenated spelling, the one written as one word and the one with a space.
pub proof fn lemma_spellings_name_their_kind(kind: TagType)
    ensures
        TagType::spelled_by(kind.spelling()) == Some(kind),
        TagType::spelled_by(kind.joined_spelling()) == Some(kind),
        TagType::spelled_by(kind.spaced_spelling()) == Some(kind),
{
    // Two spellings differ in their length, or in a character at a place that
    // tells those of one length apart.
    reveal_strlit("Medic");
    assert("Medic"@.len() == 5 && "Medic"@[2] == 'd');
    reveal_strlit("Caster");
    assert("Caster"@.len() == 6 && "Caster"@[2] == 's');
    reveal_strlit("Vanguard");
    assert("Vanguard"@.len() == 8 && "Vanguard"@[0] == 'V');
    reveal_strlit("Guard");
    assert("Guard"@.len() == 5 && "Guard"@[2] == 'a');
    reveal_strlit("Defender");
    assert("Defender"@.len() == 8 && "Defender"@[0] == 'D');
    reveal_strlit("Defense");
    assert("Defense"@.len() == 7 && "Defense"@[3] == 'e');
    reveal_strlit("Supporter");
    assert("Supporter"@.len() == 9 && "Supporter"@[0] == 'S');
    reveal_strlit("Melee");
    assert("Melee"@.len() == 5 && "Melee"@[2] == 'l');
    reveal_strlit("Debuff");
    assert("Debuff"@.len() == 6 && "Debuff"@[2] == 'b');
    reveal_strlit("Fast-Redeploy");
    assert("Fast-Redeploy"@.len() == 13
        && "Fast-Redeploy"@[4] == '-'
        && "Fast-Redeploy"@[5] == 'R');
    reveal_strlit("FastRedeploy");
    assert("FastRedeploy"@.len() == 12 && "FastRedeploy"@[3] == 't');
    reveal_strlit("Fast Redeploy");
    assert("Fast Redeploy"@.len() == 13
        && "Fast Redeploy"@[4] == ' '
        && "Fast Redeploy"@[5] == 'R');
    reveal_strlit("Shift");
    assert("Shift"@.len() == 5 && "Shift"@[2] == 'i');
    reveal_strlit("Summon");
    assert("Summon"@.len() == 6 && "Summon"@[2] == 'm');
    reveal_strlit("Support");
    assert("Support"@.len() == 7 && "Support"@[3] == 'p');
    reveal_strlit("Survival");
    assert("Survival"@.len() == 8 && "Survival"@[0] == 'S');
    reveal_strlit("Elemental");
    assert("Elemental"@.len() == 9 && "Elemental"@[0] == 'E');
    reveal_strlit("Ranged");
    assert("Ranged"@.len() == 6 && "Ranged"@[2] == 'n');
    reveal_strlit("Dp-Recovery");
    assert("Dp-Recovery"@.len() == 11 && "Dp-Recovery"@[2] == '-');
    reveal_strlit("DpRecovery");
    assert("DpRecovery"@.len() == 10 && "DpRecovery"@[0] == 'D');
    reveal_strlit("Dp Recovery");
    assert("Dp Recovery"@.len() == 11 && "Dp Recovery"@[2] == ' ');
    reveal_strlit("Starter");
    assert("Starter"@.len() == 7 && "Starter"@[3] == 'r');
    reveal_strlit("Slow");
    assert("Slow"@.len() == 4);
    reveal_strlit("AoE");
    assert("AoE"@.len() == 3 && "AoE"@[0] == 'A');
    reveal_strlit("Sniper");
    assert("Sniper"@.len() == 6 && "Sniper"@[2] == 'i');
    reveal_strlit("Crowd-Control");
    assert("Crowd-Control"@.len() == 13
        && "Crowd-Control"@[4] == 'd'
        && "Crowd-Control"@[5] == '-');
    reveal_strlit("CrowdControl");
    assert("CrowdControl"@.len() == 12 && "CrowdControl"@[3] == 'w');
    reveal_strlit("Crowd Control");
    assert("Crowd Control"@.len() == 13
        && "Crowd Control"@[4] == 'd'
        && "Crowd Control"@[5] == ' ');
    reveal_strlit("Healing");
    assert("Healing"@.len() == 7 && "Healing"@[3] == 'l');
    reveal_strlit("DPS");
    assert("DPS"@.len() == 3 && "DPS"@[0] == 'D');
    reveal_strlit("Nuker");
    assert("Nuker"@.len() == 5 && "Nuker"@[2] == 'k');
    reveal_strlit("Senior-Operator");
    assert("Senior-Operator"@.len() == 15 && "Senior-Operator"@[6] == '-');
    reveal_strlit("SeniorOperator");
    assert("SeniorOperator"@.len() == 14);
    reveal_strlit("Senior Operator");
    assert("Senior Operator"@.len() == 15 && "Senior Operator"@[6] == ' ');
    reveal_strlit("Specialist");
    assert("Specialist"@.len() == 10 && "Specialist"@[0] == 'S');
    reveal_strlit("Robot");
    assert("Robot"@.len() == 5 && "Robot"@[2] == 'b');
    reveal_strlit("Top-Operator");
    assert("Top-Operator"@.len() == 12 && "Top-Operator"@[3] == '-');
    reveal_strlit("TopOperator");
    assert("TopOperator"@.len() == 11 && "TopOperator"@[2] == 'p');
    reveal_strlit("Top Operator");
    assert("Top Operator"@.len() == 12 && "Top Operator"@[3] == ' ');
}

/// A string is read as a kind only if it is one of the three ways of writing
/// that kind's name.
pub proof fn lemma_only_spellings_are_read(s: Seq<char>, kind: TagType)
    requires
        TagType::spelled_by(s) == Some(kind),
    ensures
        s == kind.spelling() || s == kind.joined_spelling() || s == kind.spaced_spelling(),
{
}

/// Every label spells a kind.
pub open spec fn all_spell_kinds(labels: Seq<Seq<char>>) -> bool {
    forall|i: int| 0 <= i < labels.len() ==> TagType::spelled_by(#[trigger] labels[i]) is Some
}

/// Reads the tags of a catalog record. Every label must be an accepted
/// spelling of a kind; the kinds keep the order of the labels. A record
/// without labels has no tags.
pub fn kinds_from_spellings(labels: &Vec<String>) -> (kinds: Result<Vec<TagType>, TagError>)
    ensures
        match kinds {
            Ok(kinds) => kinds.len() == labels.len() && forall|i: int|
                0 <= i < labels.len() ==> TagType::spelled_by(labels[i]@) == Some(
                    #[trigger] kinds[i],
                ),
            Err(e) => e == TagError::InvalidTagString && !all_spell_kinds(words_of(labels@)),
        },
        kinds is Ok <==> all_spell_kinds(words_of(labels@)),
{
    let mut kinds: Vec<TagType> = Vec::new();
    let mut i: usize = 0;
    while i < labels.len()
        invariant
            i <= labels.len(),
            kinds.len() == i,
            forall|j: int|
                0 <= j < i ==> TagType::spelled_by(labels[j]@) == Some(#[trigger] kinds[j]),
        decreases labels.len() - i,
    {
        match TagType::from_spelling(labels[i].as_str()) {
            Some(kind) => kinds.push(kind),
            None => {
                assert(words_of(labels@)[i as int] == labels[i as int]@);
                return Err(TagError::InvalidTagString);
            },
        }
        i += 1;
    }
    assert forall|j: int| 0 <= j < labels.len() implies TagType::spelled_by(
        #[trigger] words_of(labels@)[j],
    ) is Some by {
        assert(TagType::spelled_by(labels[j]@) == Some(kinds[j]));
    }
    Ok(kinds)
}

/// A tag found on the screen: its kind, whether its button is toggled, and
/// where the button lies in the captured image.
#[derive(Clone, Copy, Debug, PartialEq, Eq, Structural)]
pub struct Tag {
    tag_type: TagType,
    selected: bool,
    bounding_box: Region,
}

impl Tag {
    pub closed spec fn spec_tag_type(self) -> TagType {
        self.tag_type
    }

    pub closed spec fn spec_selected(self) -> bool {
        self.selected
    }

    pub closed spec fn spec_bounding_box(self) -> Region {
        self.bounding_box
    }

    /// The tag with the given parts.
    pub closed spec fn of(tag_type: TagType, selected: bool, bounding_box: Region) -> Tag {
        Tag { tag_type, selected, bounding_box }
    }

    /// What [`Tag::new`] makes of a recognized string.
    pub open spec fn assemble(
        tag_string: Seq<char>,
        selected: bool,
        bounding_box: Region,
    ) -> Result<Tag, TagError> {
        match TagType::spelled_by(tag_string) {
            Some(kind) => Ok(Tag::of(kind, selected, bounding_box)),
            None => Err(TagError::InvalidTagString),
        }
    }

    /// A tag is its three parts and nothing else.
    pub broadcast proof fn lemma_parts(tag_type: TagType, selected: bool, bounding_box: Region)
        ensures
            (#[trigger] Tag::of(tag_type, selected, bounding_box)).spec_tag_type() == tag_type,
            Tag::of(tag_type, selected, bounding_box).spec_selected() == selected,
            Tag::of(tag_type, selected, bounding_box).spec_bounding_box() == bounding_box,
    {
    }

    /// Makes a tag of a recognized string. The string must be an accepted
    /// spelling of a kind; any other string is refused.
    pub fn new(tag_string: &str, selected: bool, bounding_box: &Region) -> (made: Result<
        Tag,
        TagError,
    >)
        ensures
            made == Tag::assemble(tag_string@, selected, *bounding_box),
            made matches Ok(tag) ==> TagType::spelled_by(tag_string@) == Some(tag.spec_tag_type())
                && tag.spec_selected() == selected && tag.spec_bounding_box() == *bounding_box,
    {
        match TagType::from_spelling(tag_string) {
            Some(tag_type) => Ok(Tag { tag_type, selected, bounding_box: *bounding_box }),
            None => Err(TagError::InvalidTagString),
        }
    }

    pub fn selected(&self) -> (selected: bool)
        ensures
            selected == self.spec_selected(),
    {
        self.selected
    }

    pub fn bounding_box(&self) -> (bounding_box: Region)
        ensures
            bounding_box == self.spec_bounding_box(),
    {
        self.bounding_box
    }

    pub fn tag_type(&self) -> (tag_type: &TagType)
        ensures
            *tag_type == self.spec_tag_type(),
    {
        &self.tag_type
    }
}

/// A tag together with the place of the captured window on the screen.
#[derive(Clone, Copy, Debug, PartialEq, Eq, Structural)]
pub struct UiTag {
    tag_type: TagType,
    offset_x: i32,
    offset_y: i32,
    selected: bool,
    bounding_box: Region,
}

impl UiTag {
    pub closed spec fn spec_tag_type(self) -> TagType {
        self.tag_type
    }

    pub closed spec fn spec_selected(self) -> bool {
        self.selected
    }

    /// The box of the tag inside the captured image.
    pub closed spec fn spec_bounding_box(self) -> Region {
        self.bounding_box
    }

    /// How far the captured window lies from the left and the top of the screen.
    pub closed spec fn spec_offset(self) -> (int, int) {
        (self.offset_x as int, self.offset_y as int)
    }

    /// The tag at the place of the window.
    pub closed spec fn of(tag: Tag, off_x: i32, off_y: i32) -> UiTag {
        UiTag {
            tag_type: tag.tag_type,
            offset_x: off_x,
            offset_y: off_y,
            selected: tag.selected,
            bounding_box: tag.bounding_box,
        }
    }

    /// A placed tag keeps the parts of the tag and holds the offset.
    pub broadcast proof fn lemma_parts(tag: Tag, off_x: i32, off_y: i32)
        ensures
            (#[trigger] UiTag::of(tag, off_x, off_y)).spec_tag_type() == tag.spec_tag_type(),
            UiTag::of(tag, off_x, off_y).spec_selected() == tag.spec_selected(),
            UiTag::of(tag, off_x, off_y).spec_bounding_box() == tag.spec_bounding_box(),
            UiTag::of(tag, off_x, off_y).spec_offset() == (off_x as int, off_y as int),
    {
    }

    /// Whether the corner of the box, moved by the offset, is representable.
    pub open spec fn placeable(self) -> bool {
        &&& i32::MIN <= self.spec_bounding_box().x + self.spec_offset().0 <= i32::MAX
        &&& i32::MIN <= self.spec_bounding_box().y + self.spec_offset().1 <= i32::MAX
    }

    pub fn from_tag(tag: &Tag, off_x: i32, off_y: i32) -> (placed: UiTag)
        ensures
            placed == UiTag::of(*tag, off_x, off_y),
            placed.spec_tag_type() == tag.spec_tag_type(),
            placed.spec_selected() == tag.spec_selected(),
            placed.spec_bounding_box() == tag.spec_bounding_box(),
            placed.spec_offset() == (off_x as int, off_y as int),
    {
        UiTag {
            tag_type: tag.tag_type().clone(),
            offset_x: off_x,
            offset_y: off_y,
            bounding_box: tag.bounding_box(),
            selected: tag.selected(),
        }
    }

    /// Whether [`UiTag::abs_bounding_box`] may be asked for.
    pub fn is_placeable(&self) -> (ok: bool)
        ensures
            ok == self.placeable(),
    {
        self.bounding_box.x.checked_add(self.offset_x).is_some() && self.bounding_box.y.checked_add(
            self.offset_y,
        ).is_some()
    }

    /// The box on the screen: the box in the image, moved by the offset. Its
    /// extent is unchanged.
    pub fn abs_bounding_box(&self) -> (on_screen: Region)
        requires
            self.placeable(),
        ensures
            on_screen.x == self.spec_bounding_box().x + self.spec_offset().0,
            on_screen.y == self.spec_bounding_box().y + self.spec_offset().1,
            on_screen.width == self.spec_bounding_box().width,
            on_screen.height == self.spec_bounding_box().height,
    {
        Region::new(
            self.bounding_box.x + self.offset_x,
            self.bounding_box.y + self.offset_y,
            self.bounding_box.width,
            self.bounding_box.height,
        )
    }

    pub fn tag_type(&self) -> (tag_type: &TagType)
        ensures
            *tag_type == self.spec_tag_type(),
    {
        &self.tag_type
    }

    pub fn selected(&self) -> (selected: bool)
        ensures
            selected == self.spec_selected(),
    {
        self.selected
    }
}

/// Text shorter than this many characters is not looked up.
pub const MIN_TEXT_LEN: usize = 3;

/// The words that the text of a button is compared with: the spelling of
/// every kind, in the order of the kinds.
pub open spec fn vocabulary_words() -> Seq<Seq<char>> {
    Seq::new(KIND_COUNT as nat, |i: int| TagType::at(i as nat).spelling())
}

/// The name that is read out of the text of a button: none for a text of
/// fewer than three characters, else the best match of the vocabulary.
pub open spec fn recognized_name(raw_text: Seq<char>) -> Option<Seq<char>> {
    if raw_text.len() < MIN_TEXT_LEN {
        None
    } else {
        best_word(vocabulary_words(), raw_text)
    }
}

/// Every name that is read out of a text is the spelling of a kind, so a tag
/// can always be made of it.
pub proof fn lemma_recognized_names_are_kinds(raw_text: Seq<char>)
    ensures
        recognized_name(raw_text) matches Some(name) ==> exists|kind: TagType| #[trigger]
            TagType::spelled_by(name) == Some(kind) && name == kind.spelling(),
{
    if let Some(name) = recognized_name(raw_text) {
        let i = choose|i: int| is_best_match(vocabulary_words(), raw_text, i);
        let kind = TagType::at(i as nat);
        lemma_spellings_name_their_kind(kind);
        assert(TagType::spelled_by(name) == Some(kind) && name == kind.spelling());
    }
}

/// The vocabulary.
pub fn vocabulary() -> (words: Vec<String>)
    ensures
        words_of(words@) == vocabulary_words(),
{
    let mut words: Vec<String> = Vec::new();
    let mut i: usize = 0;
    while i < KIND_COUNT
        invariant
            i <= KIND_COUNT,
            words.len() == i,
            forall|j: int|
                0 <= j < i ==> (#[trigger] words[j])@ == TagType::at(j as nat).spelling(),
        decreases KIND_COUNT - i,
    {
        match TagType::from_index(i) {
            Some(kind) => words.push(kind.to_string()),
            None => {},
        }
        i += 1;
    }
    assert(words_of(words@) =~= vocabulary_words());
    words
}

/// Reads the name of a tag out of the text that was recognized on a button.
/// Text of fewer than three characters is no name. Of any other text the
/// name is the word of the vocabulary most like it, provided that one is
/// alike enough.
pub fn tag_button_to_string(raw_text: &str) -> (name: Option<String>)
    ensures
        match name {
            Some(n) => recognized_name(raw_text@) == Some(n@),
            None => recognized_name(raw_text@) is None,
        },
{
    if raw_text.unicode_len() < MIN_TEXT_LEN {
        return None;
    }
    let words = vocabulary();
    let best = best_match(raw_text, &words);
    proof {
        match best {
            Some(i) => lemma_best_word(vocabulary_words(), raw_text@, i as int),
            None => lemma_best_word(vocabulary_words(), raw_text@, 0),
        }
    }
    match best {
        Some(i) => Some(words[i].clone()),
        None => None,
    }
}

/// What was measured at one candidate box.
#[derive(Clone, Debug, PartialEq, Eq)]
pub struct BoxReading {
    /// Where the box lies in the captured image.
    pub region: Region,
    /// The text that was recognized inside the box.
    pub text: String,
    /// The sum of the highlight channel over the pixels of the box.
    pub channel_total: u64,
}

/// The tag that one reading gives: the kind named by its text, toggled or not
/// by its colour, at its region. A reading whose text names no kind gives no
/// tag.
pub open spec fn tag_of_reading(reading: BoxReading) -> Option<Tag> {
    match recognized_name(reading.text@) {
        Some(name) => match Tag::assemble(
            name,
            activation_selects(reading.channel_total as int, reading.region.spec_area()),
            reading.region,
        ) {
            Ok(tag) => Some(tag),
            Err(_) => None,
        },
        None => None,
    }
}

/// The tags that the readings give, in the order of the readings.
pub open spec fn tags_of_readings(readings: Seq<BoxReading>) -> Seq<Tag>
    decreases readings.len(),
{
    if readings.len() == 0 {
        Seq::empty()
    } else {
        let front = tags_of_readings(readings.drop_last());
        match tag_of_reading(readings.last()) {
            Some(tag) => front.push(tag),
            None => front,
        }
    }
}

/// A reading gives a tag exactly if a name is read out of its text.
pub proof fn lemma_named_readings_give_tags(reading: BoxReading)
    ensures
        tag_of_reading(reading) is Some <==> recognized_name(reading.text@) is Some,
{
    lemma_recognized_names_are_kinds(reading.text@);
}

/// Makes the tag of one reading, if its text names a kind.
pub fn read_tag(reading: &BoxReading) -> (tag: Option<Tag>)
    ensures
        tag == tag_of_reading(*reading),
{
    let name = match tag_button_to_string(reading.text.as_str()) {
        Some(name) => name,
        None => { return None; },
    };
    let selected = is_tag_region_selected(reading.channel_total, &reading.region);
    match Tag::new(name.as_str(), selected, &reading.region) {
        Ok(tag) => Some(tag),
        Err(_) => None,
    }
}

/// Assembles the tags of one captured image from what was measured at its
/// candidate boxes. A box without a readable name is passed over; the others
/// keep their order.
pub fn image_to_tags(readings: &Vec<BoxReading>) -> (tags: Vec<Tag>)
    ensures
        tags@ == tags_of_readings(readings@),
{
    let mut tags: Vec<Tag> = Vec::new();
    let mut i: usize = 0;
    assert(readings@.take(0) =~= Seq::<BoxReading>::empty());
    while i < readings.len()
        invariant
            i <= readings.len(),
            tags@ == tags_of_readings(readings@.take(i as int)),
        decreases readings.len() - i,
    {
        assert(readings@.take(i + 1).drop_last() =~= readings@.take(i as int));
        match read_tag(&readings[i]) {
            Some(tag) => tags.push(tag),
            None => {},
        }
        i += 1;
    }
    assert(readings@.take(readings.len() as int) =~= readings@);
    tags
}

} // verus!
