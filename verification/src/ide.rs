//! The supported IDE families and their fixed attributes.

use vstd::prelude::*;

verus! {

/// One of the supported IDE families.
#[derive(Debug, Clone, Copy, PartialEq, Eq, Structural, PartialOrd, Ord, Hash)]
pub enum Ide {
    IntelliJCommunity,
    IntelliJUltimate,
    Clion,
    Rider,
    WebStorm,
    PhpStorm,
    Datagrip,
}

/// Number of supported IDE families.
pub const IDE_COUNT: usize = 7;

impl Ide {
    /// Position of the family in the declaration order of [`Ide`].
    pub open spec fn rank(self) -> nat {
        match self {
            Ide::IntelliJCommunity => 0,
            Ide::IntelliJUltimate => 1,
            Ide::Clion => 2,
            Ide::Rider => 3,
            Ide::WebStorm => 4,
            Ide::PhpStorm => 5,
            Ide::Datagrip => 6,
        }
    }

    /// The family at a given position of the declaration order.
    pub open spec fn of_rank(rank: nat) -> Ide {
        if rank == 0 {
            Ide::IntelliJCommunity
        } else if rank == 1 {
            Ide::IntelliJUltimate
        } else if rank == 2 {
            Ide::Clion
        } else if rank == 3 {
            Ide::Rider
        } else if rank == 4 {
            Ide::WebStorm
        } else if rank == 5 {
            Ide::PhpStorm
        } else {
            Ide::Datagrip
        }
    }

    /// Prefix of the family's configuration directory names.
    pub open spec fn prefix(self) -> Seq<char> {
        match self {
            Ide::IntelliJCommunity => "IdeaIC"@,
            Ide::IntelliJUltimate => "IntelliJIdea"@,
            Ide::Clion => "CLion"@,
            Ide::Rider => "Rider"@,
            Ide::WebStorm => "WebStorm"@,
            Ide::PhpStorm => "PhpStorm"@,
            Ide::Datagrip => "Datagrip"@,
        }
    }

    /// Name of the binary that launches the family.
    pub open spec fn bin_name(self) -> Seq<char> {
        match self {
            Ide::IntelliJCommunity => "idea"@,
            Ide::IntelliJUltimate => "intellij-idea-ultimate-edition"@,
            Ide::Clion => "clion"@,
            Ide::Rider => "rider"@,
            Ide::WebStorm => "webstorm"@,
            Ide::PhpStorm => "phpstorm"@,
            Ide::Datagrip => "datagrip"@,
        }
    }

    /// Identifier of the icon shown for the family.
    pub open spec fn icon_name(self) -> Seq<char> {
        match self {
            Ide::IntelliJCommunity => "intellij-idea-community"@,
            Ide::IntelliJUltimate => "intellij-idea-ultimate-edition"@,
            Ide::Clion => "clion"@,
            Ide::Rider => "rider"@,
            Ide::WebStorm => "webstorm"@,
            Ide::PhpStorm => "phpstorm"@,
            Ide::Datagrip => "datagrip"@,
        }
    }

    /// The prefix that the family's configuration directories start with.
    pub fn as_str(&self) -> (s: &'static str)
        ensures
            s@ == self.prefix(),
    {
        match self {
            Ide::IntelliJCommunity => "IdeaIC",
            Ide::IntelliJUltimate => "IntelliJIdea",
            Ide::Clion => "CLion",
            Ide::Rider => "Rider",
            Ide::WebStorm => "WebStorm",
            Ide::PhpStorm => "PhpStorm",
            Ide::Datagrip => "Datagrip",
        }
    }

    /// The binary that launches the family.
    pub fn bin(&self) -> (s: &'static str)
        ensures
            s@ == self.bin_name(),
    {
        match self {
            Ide::IntelliJUltimate => "intellij-idea-ultimate-edition",
            Ide::IntelliJCommunity => "idea",
            Ide::Clion => "clion",
            Ide::Rider => "rider",
            Ide::WebStorm => "webstorm",
            Ide::PhpStorm => "phpstorm",
            Ide::Datagrip => "datagrip",
        }
    }

    /// The icon shown for the family.
    pub fn icon(&self) -> (s: &'static str)
        ensures
            s@ == self.icon_name(),
    {
        match self {
            Ide::IntelliJCommunity => "intellij-idea-community",
            Ide::IntelliJUltimate => "intellij-idea-ultimate-edition",
            Ide::Clion => "clion",
            Ide::Rider => "rider",
            Ide::WebStorm => "webstorm",
            Ide::PhpStorm => "phpstorm",
            Ide::Datagrip => "datagrip",
        }
    }

    /// Position of the family in the declaration order.
    pub fn index(&self) -> (i: usize)
        ensures
            i == self.rank(),
            i < IDE_COUNT,
    {
        match self {
            Ide::IntelliJCommunity => 0,
            Ide::IntelliJUltimate => 1,
            Ide::Clion => 2,
            Ide::Rider => 3,
            Ide::WebStorm => 4,
            Ide::PhpStorm => 5,
            Ide::Datagrip => 6,
        }
    }

    /// The family at position `i` of the declaration order, if there is one.
    pub fn from_index(i: usize) -> (r: Option<Ide>)
        ensures
            i < IDE_COUNT ==> r == Some(Ide::of_rank(i as nat)),
            i >= IDE_COUNT ==> r is None,
    {
        if i == 0 {
            Some(Ide::IntelliJCommunity)
        } else if i == 1 {
            Some(Ide::IntelliJUltimate)
        } else if i == 2 {
            Some(Ide::Clion)
        } else if i == 3 {
            Some(Ide::Rider)
        } else if i == 4 {
            Some(Ide::WebStorm)
        } else if i == 5 {
            Some(Ide::PhpStorm)
        } else if i == 6 {
            Some(Ide::Datagrip)
        } else {
            None
        }
    }
}

/// The declaration order numbers the families without gaps: `rank` and
/// `of_rank` are inverse to each other.
pub proof fn lemma_rank_round_trip(ide: Ide)
    ensures
        ide.rank() < IDE_COUNT,
        Ide::of_rank(ide.rank()) == ide,
{
}

} // verus!
