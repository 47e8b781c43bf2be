//! The trust list of an installation: the document in which an IDE records
//! the paths that its user trusts.

use vstd::prelude::*;

verus! {

/// The root of a trust-list document.
#[derive(Debug, PartialEq, Eq)]
pub struct Application {
    pub components: Vec<Component>,
}

/// A named component of the document.
#[derive(Debug, PartialEq, Eq)]
pub struct Component {
    pub option: ComponentOption,
    pub name: String,
}

/// The option that a component carries: a map of trusted paths, a list, or
/// neither.
#[derive(Debug, PartialEq, Eq)]
pub struct ComponentOption {
    pub map: Option<PathMap>,
    pub list: Option<List>,
}

/// A list option, of which nothing is read.
#[derive(Debug, PartialEq, Eq)]
pub struct List {
}

/// The records of a map option.
#[derive(Debug, PartialEq, Eq)]
pub struct PathMap {
    pub entries: Vec<Project>,
}

/// One record of the trust list: a trusted path under `key`, in which
/// `$USER_HOME$` stands for the user's home directory, and a value that is
/// not read.
#[derive(Debug, PartialEq, Eq)]
pub struct Project {
    pub key: String,
    pub value: String,
}

/// The records of a component: those of its map, none where it has no map.
pub open spec fn component_records(component: Component) -> Seq<Project> {
    match component.option.map {
        Some(map) => map.entries@,
        None => Seq::empty(),
    }
}

/// The records of the given components, in the order of the document.
pub open spec fn records_of(components: Seq<Component>) -> Seq<Project>
    decreases components.len(),
{
    if components.len() == 0 {
        Seq::empty()
    } else {
        records_of(components.drop_last()) + component_records(components.last())
    }
}

/// The trusted paths that a document records, in the order of the document.
pub open spec fn trusted_keys(document: Application) -> Seq<Seq<char>> {
    records_of(document.components@).map_values(|record: Project| record.key@)
}

impl Application {
    /// The trusted paths that the document records, in its order.
    pub fn keys(&self) -> (keys: Vec<String>)
        ensures
            keys@.map_values(|key: String| key@) == trusted_keys(*self),
    {
        let mut keys: Vec<String> = Vec::new();
        let ghost mut seen: Seq<Project> = Seq::empty();
        let mut i: usize = 0;
        assert(self.components@.take(0).len() == 0);
        while i < self.components.len()
            invariant
                i <= self.components.len(),
                seen == records_of(self.components@.take(i as int)),
                keys@.map_values(|key: String| key@) == seen.map_values(
                    |record: Project| record.key@,
                ),
            decreases self.components.len() - i,
        {
            assert(self.components@.take(i + 1).drop_last() == self.components@.take(i as int));
            match &self.components[i].option.map {
                Some(map) => {
                    let ghost before = seen;
                    let mut j: usize = 0;
                    assert(map.entries@.take(0).len() == 0);
                    assert(before + map.entries@.take(0) == before);
                    while j < map.entries.len()
                        invariant
                            j <= map.entries.len(),
                            seen == before + map.entries@.take(j as int),
                            keys@.map_values(|key: String| key@) == seen.map_values(
                                |record: Project| record.key@,
                            ),
                        decreases map.entries.len() - j,
                    {
                        let ghost keys_before = keys@;
                        let ghost seen_before = seen;
                        keys.push(map.entries[j].key.clone());
                        proof {
                            seen = seen.push(map.entries@[j as int]);
                            assert(map.entries@.take(j + 1) == map.entries@.take(j as int).push(
                                map.entries@[j as int],
                            ));
                            assert(keys@.map_values(|key: String| key@) == keys_before.map_values(
                                |key: String| key@,
                            ).push(map.entries@[j as int].key@));
                            assert(seen.map_values(|record: Project| record.key@)
                                == seen_before.map_values(|record: Project| record.key@).push(
                                map.entries@[j as int].key@,
                            ));
                        }
                        j += 1;
                    }
                    assert(map.entries@.take(map.entries.len() as int) == map.entries@);
                },
                None => {
                    assert(seen + Seq::<Project>::empty() == seen);
                },
            }
            i += 1;
        }
        assert(self.components@.take(self.components.len() as int) == self.components@);
        keys
    }
}

} // verus!
