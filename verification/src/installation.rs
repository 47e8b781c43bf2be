//! Installations found among configuration directories, and the choice of
//! the newest one of each IDE family.

use vstd::prelude::*;
use crate::ide::{Ide, IDE_COUNT};
use crate::text::{chars_of, final_component_range};
use crate::version::{parse_dir_name, path_candidate, slice_of};

verus! {

/// A configuration directory of one IDE installation.
#[derive(Debug, PartialEq, Eq)]
pub struct IdeConfigPath {
    pub path: String,
    pub ide: Ide,
    pub version: u32,
}

/// What an [`IdeConfigPath`] stands for.
pub struct Installation {
    pub path: Seq<char>,
    pub ide: Ide,
    pub version: u32,
}

impl View for IdeConfigPath {
    type V = Installation;

    open spec fn view(&self) -> Installation {
        Installation { path: self.path@, ide: self.ide, version: self.version }
    }
}

impl Clone for IdeConfigPath {
    fn clone(&self) -> (r: Self)
        ensures
            r@ == self@,
    {
        IdeConfigPath { path: self.path.clone(), ide: self.ide, version: self.version }
    }
}

/// Why a path is no configuration directory of an installation.
pub open spec fn not_a_directory() -> Seq<char> {
    "Not a directory"@
}

/// Why a directory is no configuration directory of an installation.
pub open spec fn invalid_config() -> Seq<char> {
    "Invalid config"@
}

/// What [`IdeConfigPath::try_from`] makes of a path: directories whose final
/// component names a family and a version are installations, other
/// directories are invalid, and anything else is no directory.
pub open spec fn installation_at(path: Seq<char>, is_dir: bool) -> Result<
    Installation,
    Seq<char>,
> {
    if !is_dir {
        Err(not_a_directory())
    } else {
        match path_candidate(path) {
            Some((ide, version)) => Ok(Installation { path, ide, version }),
            None => Err(invalid_config()),
        }
    }
}

/// The outcome of [`IdeConfigPath::try_from`] over views.
pub open spec fn outcome_view(r: Result<IdeConfigPath, &'static str>) -> Result<
    Installation,
    Seq<char>,
> {
    match r {
        Ok(config) => Ok(config@),
        Err(reason) => Err(reason@),
    }
}

impl IdeConfigPath {
    /// An installation of `ide` in version `version` at `path`.
    pub fn new(path: String, ide: Ide, version: u32) -> (r: Self)
        ensures
            r@ == (Installation { path: path@, ide, version }),
    {
        IdeConfigPath { path, ide, version }
    }

    /// The installation whose configuration directory is `path`, where
    /// `is_dir` says whether `path` is a directory.
    pub fn try_from(path: String, is_dir: bool) -> (r: Result<IdeConfigPath, &'static str>)
        ensures
            outcome_view(r) == installation_at(path@, is_dir),
    {
        if !is_dir {
            return Err("Not a directory");
        }
        let chars = chars_of(path.as_str());
        let parsed = match final_component_range(&chars) {
            Some((start, end)) => {
                let name = slice_of(&chars, start, end);
                parse_dir_name(&name)
            },
            None => None,
        };
        match parsed {
            Some((ide, version)) => Ok(IdeConfigPath::new(path, ide, version)),
            None => Err("Invalid config"),
        }
    }
}

/// The installations among the children of a directory, each child given by
/// its path and by whether it is a directory, in the order of the children.
pub open spec fn located(children: Seq<(String, bool)>) -> Seq<Installation>
    decreases children.len(),
{
    if children.len() == 0 {
        Seq::empty()
    } else {
        let rest = located(children.drop_last());
        match installation_at(children.last().0@, children.last().1) {
            Ok(found) => rest.push(found),
            Err(_) => rest,
        }
    }
}

/// The views of a list of installations.
pub open spec fn installations(configs: Seq<IdeConfigPath>) -> Seq<Installation> {
    configs.map_values(|config: IdeConfigPath| config@)
}

/// The installations among the children of a directory. Children that are no
/// directories, or whose names stand for no installation, are passed over.
pub fn locate_configs(children: &Vec<(String, bool)>) -> (configs: Vec<IdeConfigPath>)
    ensures
        installations(configs@) == located(children@),
{
    let mut configs: Vec<IdeConfigPath> = Vec::new();
    let mut i: usize = 0;
    assert(children@.take(0).len() == 0);
    while i < children.len()
        invariant
            i <= children.len(),
            installations(configs@) == located(children@.take(i as int)),
        decreases children.len() - i,
    {
        let ghost before = configs@;
        assert(children@.take(i + 1).drop_last() == children@.take(i as int));
        match IdeConfigPath::try_from(children[i].0.clone(), children[i].1) {
            Ok(config) => {
                configs.push(config);
                assert(installations(configs@) == installations(before).push(config@));
            },
            Err(_) => {},
        }
        i += 1;
    }
    assert(children@.take(children.len() as int) == children@);
    configs
}

/// Whether candidate `i` is the newest of its family: no candidate of the
/// family has a higher version, and none before it has the same.
pub open spec fn is_newest(candidates: Seq<Installation>, i: int) -> bool {
    &&& 0 <= i < candidates.len()
    &&& forall|j: int|
        0 <= j < candidates.len() && (#[trigger] candidates[j]).ide == candidates[i].ide ==> {
            &&& candidates[j].version <= candidates[i].version
            &&& candidates[j].version == candidates[i].version ==> i <= j
        }
}

/// Whether some candidate belongs to the family `ide`.
pub open spec fn has_kind(candidates: Seq<Installation>, ide: Ide) -> bool {
    exists|j: int| 0 <= j < candidates.len() && (#[trigger] candidates[j]).ide == ide
}

/// Position of the newest candidate of the family `ide`.
pub open spec fn newest_index(candidates: Seq<Installation>, ide: Ide) -> int {
    choose|i: int| is_newest(candidates, i) && candidates[i].ide == ide
}

/// The newest candidates of the families below position `bound` of the
/// declaration order, the later family first.
pub open spec fn selection_below(candidates: Seq<Installation>, bound: nat) -> Seq<Installation>
    decreases bound,
{
    if bound == 0 {
        Seq::empty()
    } else {
        let ide = Ide::of_rank((bound - 1) as nat);
        let rest = selection_below(candidates, (bound - 1) as nat);
        if has_kind(candidates, ide) {
            seq![candidates[newest_index(candidates, ide)]] + rest
        } else {
            rest
        }
    }
}

/// The selected installations: of each family that has a candidate the
/// newest one, the families in the reverse of their declaration order.
pub open spec fn selection(candidates: Seq<Installation>) -> Seq<Installation> {
    selection_below(candidates, IDE_COUNT as nat)
}

/// At most one candidate is the newest of a family.
pub proof fn lemma_newest_unique(candidates: Seq<Installation>, i: int, j: int)
    requires
        is_newest(candidates, i),
        is_newest(candidates, j),
        candidates[i].ide == candidates[j].ide,
    ensures
        i == j,
{
}

/// Position of the newest candidate of the family `ide`, if it has one.
pub fn newest_of(candidates: &Vec<IdeConfigPath>, ide: Ide) -> (r: Option<usize>)
    ensures
        match r {
            Some(i) => is_newest(installations(candidates@), i as int) && candidates@[i as int].ide
                == ide,
            None => !has_kind(installations(candidates@), ide),
        },
{
    let ghost all = installations(candidates@);
    let mut best: Option<usize> = None;
    let mut i: usize = 0;
    while i < candidates.len()
        invariant
            i <= candidates.len(),
            all == installations(candidates@),
            match best {
                Some(b) => {
                    &&& b < i
                    &&& all[b as int].ide == ide
                    &&& forall|j: int|
                        0 <= j < i && (#[trigger] all[j]).ide == ide ==> {
                            &&& all[j].version <= all[b as int].version
                            &&& all[j].version == all[b as int].version ==> b <= j
                        }
                },
                None => forall|j: int| 0 <= j < i ==> (#[trigger] all[j]).ide != ide,
            },
        decreases candidates.len() - i,
    {
        assert(all[i as int] == candidates@[i as int]@);
        if candidates[i].ide == ide {
            match best {
                Some(b) => {
                    assert(all[b as int] == candidates@[b as int]@);
                    if candidates[i].version > candidates[b].version {
                        best = Some(i);
                    }
                },
                None => {
                    best = Some(i);
                },
            }
        }
        i += 1;
    }
    proof {
        if let Some(b) = best {
            assert(all[b as int] == candidates@[b as int]@);
        }
    }
    best
}

/// Keeps of each family the newest installation among `candidates`: the one
/// with the highest version, and of several with that version the first.
/// The families come out in the reverse of their declaration order.
pub fn select_installations(candidates: &Vec<IdeConfigPath>) -> (selected: Vec<IdeConfigPath>)
    ensures
        installations(selected@) == selection(installations(candidates@)),
{
    let ghost all = installations(candidates@);
    let mut selected: Vec<IdeConfigPath> = Vec::new();
    let mut bound: usize = IDE_COUNT;
    while bound > 0
        invariant
            bound <= IDE_COUNT,
            all == installations(candidates@),
            installations(selected@) + selection_below(all, bound as nat) == selection(all),
        decreases bound,
    {
        let ghost before = installations(selected@);
        let ghost rest = selection_below(all, (bound - 1) as nat);
        bound -= 1;
        let ide = match Ide::from_index(bound) {
            Some(ide) => ide,
            None => Ide::Datagrip,
        };
        match newest_of(candidates, ide) {
            Some(i) => {
                proof {
                    assert(all[i as int].ide == ide);
                    lemma_newest_unique(all, i as int, newest_index(all, ide));
                }
                selected.push(candidates[i].clone());
                assert(installations(selected@) == before.push(all[i as int]));
                assert(before.push(all[i as int]) + rest == before + (seq![all[i as int]] + rest));
            },
            None => {},
        }
    }
    assert(selection_below(all, 0).len() == 0);
    selected
}

/// Among the first `n` candidates, the first one of the family `ide` with
/// the highest version.
proof fn lemma_best_among(candidates: Seq<Installation>, ide: Ide, n: int) -> (b: int)
    requires
        0 <= n <= candidates.len(),
        exists|j: int| 0 <= j < n && (#[trigger] candidates[j]).ide == ide,
    ensures
        0 <= b < n,
        candidates[b].ide == ide,
        forall|j: int|
            0 <= j < n && (#[trigger] candidates[j]).ide == ide ==> {
                &&& candidates[j].version <= candidates[b].version
                &&& candidates[j].version == candidates[b].version ==> b <= j
            },
    decreases n,
{
    if exists|j: int| 0 <= j < n - 1 && (#[trigger] candidates[j]).ide == ide {
        let b0 = lemma_best_among(candidates, ide, n - 1);
        if candidates[n - 1].ide == ide && candidates[n - 1].version > candidates[b0].version {
            n - 1
        } else {
            b0
        }
    } else {
        n - 1
    }
}

/// A family that has a candidate has a newest one.
pub proof fn lemma_newest_exists(candidates: Seq<Installation>, ide: Ide)
    requires
        has_kind(candidates, ide),
    ensures
        is_newest(candidates, newest_index(candidates, ide)),
        candidates[newest_index(candidates, ide)].ide == ide,
{
    let b = lemma_best_among(candidates, ide, candidates.len() as int);
    assert(is_newest(candidates, b) && candidates[b].ide == ide);
}

/// Whether `chosen` is the newest candidate of its family.
pub open spec fn is_selected(candidates: Seq<Installation>, chosen: Installation) -> bool {
    exists|i: int| is_newest(candidates, i) && #[trigger] candidates[i] == chosen
}

/// What holds of the newest candidates of the families below a bound.
proof fn lemma_selection_below(candidates: Seq<Installation>, bound: nat)
    requires
        bound <= IDE_COUNT,
    ensures
        forall|k: int|
            0 <= k < selection_below(candidates, bound).len() ==> {
                &&& is_selected(candidates, #[trigger] selection_below(candidates, bound)[k])
                &&& selection_below(candidates, bound)[k].ide.rank() < bound
            },
        forall|k: int, l: int|
            0 <= k < l < selection_below(candidates, bound).len() ==> (
            #[trigger] selection_below(candidates, bound)[k]).ide.rank() > (
            #[trigger] selection_below(candidates, bound)[l]).ide.rank(),
        forall|ide: Ide|
            has_kind(candidates, ide) && ide.rank() < bound ==> exists|k: int|
                0 <= k < selection_below(candidates, bound).len() && (
                #[trigger] selection_below(candidates, bound)[k]).ide == ide,
    decreases bound,
{
    if bound > 0 {
        let below = (bound - 1) as nat;
        let ide = Ide::of_rank(below);
        let rest = selection_below(candidates, below);
        let all = selection_below(candidates, bound);
        lemma_selection_below(candidates, below);
        assert(ide.rank() == below);
        if has_kind(candidates, ide) {
            lemma_newest_exists(candidates, ide);
            let first = candidates[newest_index(candidates, ide)];
            assert(all == seq![first] + rest);
            assert(is_selected(candidates, first));
            assert forall|k: int| 0 <= k < all.len() implies is_selected(
                candidates,
                #[trigger] all[k],
            ) && all[k].ide.rank() < bound by {
                if k > 0 {
                    assert(all[k] == rest[k - 1]);
                }
            }
            assert forall|k: int, l: int| 0 <= k < l < all.len() implies (#[trigger] all[k]).ide.rank()
                > (#[trigger] all[l]).ide.rank() by {
                assert(all[l] == rest[l - 1]);
                if k > 0 {
                    assert(all[k] == rest[k - 1]);
                }
            }
            assert forall|other: Ide|
                has_kind(candidates, other) && other.rank() < bound implies exists|k: int|
                0 <= k < all.len() && (#[trigger] all[k]).ide == other by {
                if other.rank() == below {
                    crate::ide::lemma_rank_round_trip(other);
                    assert(all[0].ide == other);
                } else {
                    let k = choose|k: int| 0 <= k < rest.len() && (#[trigger] rest[k]).ide == other;
                    assert(all[k + 1] == rest[k]);
                }
            }
        } else {
            assert(all == rest);
            assert forall|other: Ide|
                has_kind(candidates, other) && other.rank() < bound implies exists|k: int|
                0 <= k < all.len() && (#[trigger] all[k]).ide == other by {
                if other.rank() == below {
                    crate::ide::lemma_rank_round_trip(other);
                }
            }
        }
    }
}

/// No two selected installations belong to the same family.
pub proof fn lemma_selection_distinct_kinds(candidates: Seq<Installation>, k: int, l: int)
    requires
        0 <= k < selection(candidates).len(),
        0 <= l < selection(candidates).len(),
        k != l,
    ensures
        selection(candidates)[k].ide != selection(candidates)[l].ide,
{
    lemma_selection_below(candidates, IDE_COUNT as nat);
    if k < l {
        assert(selection(candidates)[k].ide.rank() > selection(candidates)[l].ide.rank());
    } else {
        assert(selection(candidates)[l].ide.rank() > selection(candidates)[k].ide.rank());
    }
}

/// Every selected installation is one of the candidates, and no candidate of
/// its family has a higher version.
pub proof fn lemma_selection_is_newest(candidates: Seq<Installation>, k: int, j: int)
    requires
        0 <= k < selection(candidates).len(),
        0 <= j < candidates.len(),
        candidates[j].ide == selection(candidates)[k].ide,
    ensures
        candidates.contains(selection(candidates)[k]),
        candidates[j].version <= selection(candidates)[k].version,
{
    lemma_selection_below(candidates, IDE_COUNT as nat);
    let chosen = selection(candidates)[k];
    assert(is_selected(candidates, chosen));
    let i = choose|i: int| is_newest(candidates, i) && #[trigger] candidates[i] == chosen;
    assert(candidates[i] == chosen);
}

/// Every candidate's family is represented among the selected installations.
pub proof fn lemma_selection_covers(candidates: Seq<Installation>, j: int)
    requires
        0 <= j < candidates.len(),
    ensures
        exists|k: int|
            0 <= k < selection(candidates).len() && (#[trigger] selection(candidates)[k]).ide
                == candidates[j].ide,
{
    lemma_selection_below(candidates, IDE_COUNT as nat);
    let ide = candidates[j].ide;
    let chosen = selection_below(candidates, IDE_COUNT as nat);
    assert(has_kind(candidates, ide));
    crate::ide::lemma_rank_round_trip(ide);
    let k = choose|k: int| 0 <= k < chosen.len() && (#[trigger] chosen[k]).ide == ide;
    assert(selection(candidates)[k].ide == ide);
}

/// At most one installation is selected for each family, so never more than
/// there are families.
pub proof fn lemma_selection_len(candidates: Seq<Installation>)
    ensures
        selection(candidates).len() <= IDE_COUNT,
{
    lemma_selection_below_len(candidates, IDE_COUNT as nat);
}

proof fn lemma_selection_below_len(candidates: Seq<Installation>, bound: nat)
    ensures
        selection_below(candidates, bound).len() <= bound,
    decreases bound,
{
    if bound > 0 {
        lemma_selection_below_len(candidates, (bound - 1) as nat);
    }
}

} // verus!
