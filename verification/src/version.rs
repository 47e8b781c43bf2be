//! From a configuration directory's name to the IDE family and version it
//! belongs to.

use vstd::prelude::*;
use crate::ide::Ide;
use crate::text::{
    all_digits, chars_of, decimal_value, final_component, final_component_range, is_digit,
    is_numeric, parse_u32, parse_unsigned, starts_with, strip_dots, unsigned_part, without_dots,
};

verus! {

/// The family whose prefix `name` starts with. The prefixes are tried in a
/// fixed order and the first that matches decides.
pub open spec fn matching_kind(name: Seq<char>) -> Option<Ide> {
    if Ide::Clion.prefix().is_prefix_of(name) {
        Some(Ide::Clion)
    } else if Ide::IntelliJUltimate.prefix().is_prefix_of(name) {
        Some(Ide::IntelliJUltimate)
    } else if Ide::IntelliJCommunity.prefix().is_prefix_of(name) {
        Some(Ide::IntelliJCommunity)
    } else if Ide::Rider.prefix().is_prefix_of(name) {
        Some(Ide::Rider)
    } else if Ide::WebStorm.prefix().is_prefix_of(name) {
        Some(Ide::WebStorm)
    } else if Ide::PhpStorm.prefix().is_prefix_of(name) {
        Some(Ide::PhpStorm)
    } else if Ide::Datagrip.prefix().is_prefix_of(name) {
        Some(Ide::Datagrip)
    } else {
        None
    }
}

/// What follows the prefix of `ide` in `name`.
pub open spec fn version_suffix(ide: Ide, name: Seq<char>) -> Seq<char> {
    name.skip(ide.prefix().len() as int)
}

/// The version that the directory name `name` gives for `ide`: the number
/// written behind the family's prefix once the dots are taken out.
pub open spec fn version_in(ide: Ide, name: Seq<char>) -> Option<u32> {
    if ide.prefix().is_prefix_of(name) {
        parse_unsigned(without_dots(version_suffix(ide, name)))
    } else {
        None
    }
}

/// The family and version that a directory name stands for, if any.
pub open spec fn name_candidate(name: Seq<char>) -> Option<(Ide, u32)> {
    match matching_kind(name) {
        Some(ide) => match version_in(ide, name) {
            Some(version) => Some((ide, version)),
            None => None,
        },
        None => None,
    }
}

/// The family and version that the final component of `path` stands for.
pub open spec fn path_candidate(path: Seq<char>) -> Option<(Ide, u32)> {
    match final_component(path) {
        Some(name) => name_candidate(name),
        None => None,
    }
}

/// The version that the final component of `path` gives for `ide`.
pub open spec fn path_version(ide: Ide, path: Seq<char>) -> Option<u32> {
    match final_component(path) {
        Some(name) => version_in(ide, name),
        None => None,
    }
}

/// A version as directory names write it: digits with dots between them,
/// starting and ending with a digit.
pub open spec fn is_dotted_version(s: Seq<char>) -> bool {
    &&& s.len() > 0
    &&& is_digit(s.first())
    &&& is_digit(s.last())
    &&& forall|i: int| 0 <= i < s.len() ==> is_digit(#[trigger] s[i]) || s[i] == '.'
}

impl Ide {
    /// Whether the directory name `name` starts with this family's prefix.
    pub fn names(&self, name: &Vec<char>) -> (b: bool)
        ensures
            b == self.prefix().is_prefix_of(name@),
    {
        let prefix = chars_of(self.as_str());
        starts_with(name, &prefix)
    }

    /// The version that the directory name `name` gives for this family.
    pub fn version_of_name(&self, name: &Vec<char>) -> (r: Option<u32>)
        ensures
            r == version_in(*self, name@),
    {
        let prefix = chars_of(self.as_str());
        if starts_with(name, &prefix) {
            let digits = strip_dots(name, prefix.len());
            parse_u32(&digits)
        } else {
            None
        }
    }

    /// The version that the final component of `path` gives for this family:
    /// the number behind the family's prefix, dots left out. `None` where the
    /// path has no final component, where it does not start with the prefix,
    /// and where what follows is no number of 32 bits.
    pub fn parse_version(&self, path: &str) -> (r: Option<u32>)
        ensures
            r == path_version(*self, path@),
    {
        let chars = chars_of(path);
        match final_component_range(&chars) {
            Some((start, end)) => {
                let name = slice_of(&chars, start, end);
                self.version_of_name(&name)
            },
            None => None,
        }
    }
}

/// The characters of `s` from `start` up to `end`.
pub(crate) fn slice_of(s: &Vec<char>, start: usize, end: usize) -> (r: Vec<char>)
    requires
        start <= end <= s.len(),
    ensures
        r@ == s@.subrange(start as int, end as int),
{
    let mut r: Vec<char> = Vec::new();
    let mut i: usize = start;
    while i < end
        invariant
            start <= i <= end <= s.len(),
            r@ == s@.subrange(start as int, i as int),
        decreases end - i,
    {
        r.push(s[i]);
        i += 1;
    }
    r
}

/// The family whose prefix the directory name `name` starts with.
pub fn detect_kind(name: &Vec<char>) -> (r: Option<Ide>)
    ensures
        r == matching_kind(name@),
{
    if Ide::Clion.names(name) {
        Some(Ide::Clion)
    } else if Ide::IntelliJUltimate.names(name) {
        Some(Ide::IntelliJUltimate)
    } else if Ide::IntelliJCommunity.names(name) {
        Some(Ide::IntelliJCommunity)
    } else if Ide::Rider.names(name) {
        Some(Ide::Rider)
    } else if Ide::WebStorm.names(name) {
        Some(Ide::WebStorm)
    } else if Ide::PhpStorm.names(name) {
        Some(Ide::PhpStorm)
    } else if Ide::Datagrip.names(name) {
        Some(Ide::Datagrip)
    } else {
        None
    }
}

/// The family and version that the directory name `name` stands for.
pub fn parse_dir_name(name: &Vec<char>) -> (r: Option<(Ide, u32)>)
    ensures
        r == name_candidate(name@),
{
    match detect_kind(name) {
        Some(ide) => match ide.version_of_name(name) {
            Some(version) => Some((ide, version)),
            None => None,
        },
        None => None,
    }
}

/// The first two characters of each prefix, which tell the families apart.
proof fn lemma_prefix_heads(ide: Ide)
    ensures
        ide.prefix().len() >= 5,
        ide == Ide::IntelliJCommunity ==> ide.prefix()[0] == 'I' && ide.prefix()[1] == 'd',
        ide == Ide::IntelliJUltimate ==> ide.prefix()[0] == 'I' && ide.prefix()[1] == 'n',
        ide == Ide::Clion ==> ide.prefix()[0] == 'C',
        ide == Ide::Rider ==> ide.prefix()[0] == 'R',
        ide == Ide::WebStorm ==> ide.prefix()[0] == 'W',
        ide == Ide::PhpStorm ==> ide.prefix()[0] == 'P',
        ide == Ide::Datagrip ==> ide.prefix()[0] == 'D',
{
    reveal_strlit("IdeaIC");
    reveal_strlit("IntelliJIdea");
    reveal_strlit("CLion");
    reveal_strlit("Rider");
    reveal_strlit("WebStorm");
    reveal_strlit("PhpStorm");
    reveal_strlit("Datagrip");
}

/// No directory name starts with the prefixes of two families.
pub proof fn lemma_prefixes_exclusive(name: Seq<char>, a: Ide, b: Ide)
    requires
        a.prefix().is_prefix_of(name),
        b.prefix().is_prefix_of(name),
    ensures
        a == b,
{
    lemma_prefix_heads(a);
    lemma_prefix_heads(b);
    let pa = a.prefix();
    let pb = b.prefix();
    assert(name.subrange(0, pa.len() as int)[0] == name[0]);
    assert(name.subrange(0, pa.len() as int)[1] == name[1]);
    assert(name.subrange(0, pb.len() as int)[0] == name[0]);
    assert(name.subrange(0, pb.len() as int)[1] == name[1]);
}

/// A name that starts with a family's prefix is matched to that family.
pub proof fn lemma_matching_kind(name: Seq<char>, ide: Ide)
    requires
        ide.prefix().is_prefix_of(name),
    ensures
        matching_kind(name) == Some(ide),
{
    if Ide::Clion.prefix().is_prefix_of(name) {
        lemma_prefixes_exclusive(name, ide, Ide::Clion);
    }
    if Ide::IntelliJUltimate.prefix().is_prefix_of(name) {
        lemma_prefixes_exclusive(name, ide, Ide::IntelliJUltimate);
    }
    if Ide::IntelliJCommunity.prefix().is_prefix_of(name) {
        lemma_prefixes_exclusive(name, ide, Ide::IntelliJCommunity);
    }
    if Ide::Rider.prefix().is_prefix_of(name) {
        lemma_prefixes_exclusive(name, ide, Ide::Rider);
    }
    if Ide::WebStorm.prefix().is_prefix_of(name) {
        lemma_prefixes_exclusive(name, ide, Ide::WebStorm);
    }
    if Ide::PhpStorm.prefix().is_prefix_of(name) {
        lemma_prefixes_exclusive(name, ide, Ide::PhpStorm);
    }
    if Ide::Datagrip.prefix().is_prefix_of(name) {
        lemma_prefixes_exclusive(name, ide, Ide::Datagrip);
    }
}

/// Taking the dots out of digits and dots leaves digits, and at least one
/// where the text ends with a digit.
proof fn lemma_without_dots_digits(s: Seq<char>)
    requires
        forall|i: int| 0 <= i < s.len() ==> is_digit(#[trigger] s[i]) || s[i] == '.',
    ensures
        all_digits(without_dots(s)),
        s.len() > 0 && is_digit(s.last()) ==> without_dots(s).len() > 0,
    decreases s.len(),
{
    if s.len() > 0 {
        let head = s.drop_last();
        assert forall|i: int| 0 <= i < head.len() implies is_digit(#[trigger] head[i]) || head[i]
            == '.' by {
            assert(head[i] == s[i]);
        }
        lemma_without_dots_digits(head);
    }
}

/// A directory name made of a family's prefix and a dotted version stands
/// for that family and for the number that the version's digits write, as
/// long as that number fits in 32 bits.
pub proof fn lemma_dotted_version_recovered(ide: Ide, version: Seq<char>)
    requires
        is_dotted_version(version),
        decimal_value(without_dots(version)) <= u32::MAX,
    ensures
        name_candidate(ide.prefix() + version) == Some(
            (ide, decimal_value(without_dots(version)) as u32),
        ),
{
    let name = ide.prefix() + version;
    assert(name.subrange(0, ide.prefix().len() as int) == ide.prefix());
    assert(ide.prefix().is_prefix_of(name));
    lemma_matching_kind(name, ide);
    assert(version_suffix(ide, name) == version);
    lemma_without_dots_digits(version);
    let digits = without_dots(version);
    assert(is_digit(digits[0]));
    assert(unsigned_part(digits) == digits);
}

/// A directory name that starts with no family's prefix, or in which what
/// follows the prefix is no number once the dots are taken out, stands for
/// nothing.
pub proof fn lemma_other_names_rejected(name: Seq<char>)
    requires
        forall|ide: Ide| #[trigger]
            ide.prefix().is_prefix_of(name) ==> !is_numeric(
                without_dots(version_suffix(ide, name)),
            ),
    ensures
        name_candidate(name) is None,
{
}

} // verus!
