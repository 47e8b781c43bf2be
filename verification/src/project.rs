//! The projects that the selected installations trust.

use vstd::prelude::*;
use vstd::string::StringExecFns;
use crate::ide::Ide;
use crate::installation::IdeConfigPath;
use crate::text::{file_name, final_component, last_char, replace_all, replace_token};
use crate::trusted_project::{trusted_keys, Application};

verus! {

/// A project that an installation trusts.
#[derive(Debug, PartialEq, Eq)]
pub struct ProjectEntry {
    pub path: String,
    pub name: String,
    pub ide: Ide,
}

/// What a [`ProjectEntry`] stands for.
pub struct TrustedProject {
    pub path: Seq<char>,
    pub name: Seq<char>,
    pub ide: Ide,
}

impl View for ProjectEntry {
    type V = TrustedProject;

    open spec fn view(&self) -> TrustedProject {
        TrustedProject { path: self.path@, name: self.name@, ide: self.ide }
    }
}

impl Clone for ProjectEntry {
    fn clone(&self) -> (r: Self)
        ensures
            r@ == self@,
    {
        ProjectEntry { path: self.path.clone(), name: self.name.clone(), ide: self.ide }
    }
}

/// The views of a list of entries.
pub open spec fn projects(entries: Seq<ProjectEntry>) -> Seq<TrustedProject> {
    entries.map_values(|entry: ProjectEntry| entry@)
}

/// The token that stands for the user's home directory in a trusted path.
pub open spec fn home_token() -> Seq<char> {
    "$USER_HOME$"@
}

/// Where the trust list lies below an installation's directory.
pub open spec fn trust_list_location() -> Seq<char> {
    "options/trusted-paths.xml"@
}

/// The trusted path `key` with the user's home directory `home` put in
/// place of every home token.
pub open spec fn resolved_path(key: Seq<char>, home: Seq<char>) -> Seq<char> {
    replace_all(key, home_token(), home)
}

/// The project that the trusted path `key` of an installation of `ide`
/// stands for: its path is the resolved key and its name the final component
/// of that path. A path without a final component stands for no project.
pub open spec fn entry_for(key: Seq<char>, home: Seq<char>, ide: Ide) -> Option<TrustedProject> {
    let path = resolved_path(key, home);
    match final_component(path) {
        Some(name) => Some(TrustedProject { path, name, ide }),
        None => None,
    }
}

/// The projects that the trusted paths `keys` stand for, in their order.
pub open spec fn entries_for(keys: Seq<Seq<char>>, home: Seq<char>, ide: Ide) -> Seq<
    TrustedProject,
>
    decreases keys.len(),
{
    if keys.len() == 0 {
        Seq::empty()
    } else {
        let rest = entries_for(keys.drop_last(), home, ide);
        match entry_for(keys.last(), home, ide) {
            Some(entry) => rest.push(entry),
            None => rest,
        }
    }
}

/// The path `relative` below the directory `dir`: the two joined by one
/// separator, which is left out where `dir` is empty or ends with one.
pub open spec fn child_path(dir: Seq<char>, relative: Seq<char>) -> Seq<char> {
    if dir.len() == 0 || dir.last() == '/' {
        dir + relative
    } else {
        dir + seq!['/'] + relative
    }
}

/// What was found where an installation keeps its trust list.
#[derive(Debug, PartialEq, Eq)]
pub enum TrustList {
    /// There is no trust list.
    Missing,
    /// There is one, and it could not be read.
    Unreadable,
    /// What was read is no trust-list document.
    Malformed,
    /// The document that was read.
    Document(Application),
}

/// Why an installation contributes no projects.
#[derive(Debug, Clone, Copy, PartialEq, Eq, Structural)]
pub enum TrustListError {
    /// The installation of this family has no trust list.
    NotFound(Ide),
    /// The trust list of the installation of this family could not be read.
    Unreadable(Ide),
    /// The trust list of the installation of this family is malformed.
    Malformed(Ide),
}

/// What an installation of `ide` contributes, given what was found in the
/// place of its trust list: the projects of the document's trusted paths, or
/// the reason why there are none.
pub open spec fn contribution(ide: Ide, trust_list: TrustList, home: Seq<char>) -> Result<
    Seq<TrustedProject>,
    TrustListError,
> {
    match trust_list {
        TrustList::Missing => Err(TrustListError::NotFound(ide)),
        TrustList::Unreadable => Err(TrustListError::Unreadable(ide)),
        TrustList::Malformed => Err(TrustListError::Malformed(ide)),
        TrustList::Document(document) => Ok(entries_for(trusted_keys(document), home, ide)),
    }
}

/// The outcome of [`IdeConfigPath::get_entries`] over views.
pub open spec fn entries_view(r: Result<Vec<ProjectEntry>, TrustListError>) -> Result<
    Seq<TrustedProject>,
    TrustListError,
> {
    match r {
        Ok(entries) => Ok(projects(entries@)),
        Err(error) => Err(error),
    }
}

/// The projects of all the installations in `sources`, each installation
/// paired with what was found in the place of its trust list. Installations
/// without a document contribute nothing.
pub open spec fn gathered(sources: Seq<(IdeConfigPath, TrustList)>, home: Seq<char>) -> Seq<
    TrustedProject,
>
    decreases sources.len(),
{
    if sources.len() == 0 {
        Seq::empty()
    } else {
        let rest = gathered(sources.drop_last(), home);
        match contribution(sources.last().0.ide, sources.last().1, home) {
            Ok(entries) => rest + entries,
            Err(_) => rest,
        }
    }
}

/// The view of an optional entry.
pub open spec fn opt_project(entry: Option<ProjectEntry>) -> Option<TrustedProject> {
    match entry {
        Some(entry) => Some(entry@),
        None => None,
    }
}

/// The trusted path `key` with `home` in place of every `$USER_HOME$`.
pub fn resolve_home(key: &str, home: &str) -> (path: String)
    ensures
        path@ == resolved_path(key@, home@),
{
    replace_token(key, "$USER_HOME$", home)
}

impl ProjectEntry {
    /// The project that the trusted path `key` of an installation of `ide`
    /// stands for, if its resolved path has a final component.
    pub fn from_key(key: &str, home: &str, ide: Ide) -> (r: Option<ProjectEntry>)
        ensures
            opt_project(r) == entry_for(key@, home@, ide),
    {
        let path = resolve_home(key, home);
        match file_name(path.as_str()) {
            Some(name) => Some(ProjectEntry { path, name, ide }),
            None => None,
        }
    }
}

impl TrustListError {
    /// The family of the installation that the error is about.
    pub open spec fn kind(self) -> Ide {
        match self {
            TrustListError::NotFound(ide) => ide,
            TrustListError::Unreadable(ide) => ide,
            TrustListError::Malformed(ide) => ide,
        }
    }

    /// The family of the installation that the error is about.
    pub fn ide(&self) -> (ide: Ide)
        ensures
            ide == self.kind(),
    {
        match self {
            TrustListError::NotFound(ide) => *ide,
            TrustListError::Unreadable(ide) => *ide,
            TrustListError::Malformed(ide) => *ide,
        }
    }

    /// What the error says, without the family.
    pub open spec fn reason(self) -> Seq<char> {
        match self {
            TrustListError::NotFound(_) => "trusted-paths.xml not found for "@,
            TrustListError::Unreadable(_) => "trusted-paths.xml could not be read for "@,
            TrustListError::Malformed(_) => "trusted-paths.xml is malformed for "@,
        }
    }

    /// The error in words: the reason, then the prefix of the family's
    /// directory names in double quotes.
    pub fn message(&self) -> (text: String)
        ensures
            text@ == self.reason() + seq!['"'] + self.kind().prefix() + seq!['"'],
    {
        let reason = match self {
            TrustListError::NotFound(_) => "trusted-paths.xml not found for ",
            TrustListError::Unreadable(_) => "trusted-paths.xml could not be read for ",
            TrustListError::Malformed(_) => "trusted-paths.xml is malformed for ",
        };
        proof {
            reveal_strlit("\"");
            assert("\""@ == seq!['"']);
        }
        let mut text = String::from_str(reason);
        text.append("\"");
        text.append(self.ide().as_str());
        text.append("\"");
        text
    }
}

/// The projects that the trusted paths `keys` of an installation of `ide`
/// stand for.
pub fn entries_of_keys(keys: &Vec<String>, home: &str, ide: Ide) -> (entries: Vec<ProjectEntry>)
    ensures
        projects(entries@) == entries_for(keys@.map_values(|key: String| key@), home@, ide),
{
    let ghost paths = keys@.map_values(|key: String| key@);
    let mut entries: Vec<ProjectEntry> = Vec::new();
    let mut i: usize = 0;
    assert(paths.take(0).len() == 0);
    while i < keys.len()
        invariant
            i <= keys.len(),
            paths == keys@.map_values(|key: String| key@),
            projects(entries@) == entries_for(paths.take(i as int), home@, ide),
        decreases keys.len() - i,
    {
        let ghost before = entries@;
        assert(paths.take(i + 1).drop_last() == paths.take(i as int));
        assert(paths.take(i + 1).last() == keys@[i as int]@);
        match ProjectEntry::from_key(keys[i].as_str(), home, ide) {
            Some(entry) => {
                entries.push(entry);
                assert(projects(entries@) == projects(before).push(entry@));
            },
            None => {},
        }
        i += 1;
    }
    assert(paths.take(keys.len() as int) == paths);
    entries
}

impl IdeConfigPath {
    /// Where the installation keeps its trust list.
    pub fn trusted_paths_file(&self) -> (file: String)
        ensures
            file@ == child_path(self.path@, trust_list_location()),
    {
        let dir = last_char(self.path.as_str());
        let mut file = self.path.clone();
        proof {
            reveal_strlit("/");
            assert("/"@ == seq!['/']);
        }
        match dir {
            Some(last) => {
                if last != '/' {
                    file.append("/");
                }
            },
            None => {},
        }
        file.append("options/trusted-paths.xml");
        file
    }

    /// The projects that the installation contributes, given what was found
    /// in the place of its trust list and the user's home directory. Without
    /// a document there is an error and no project; with one, each trusted
    /// path whose resolved path has a final component gives a project.
    pub fn get_entries(&self, trust_list: &TrustList, home: &str) -> (r: Result<
        Vec<ProjectEntry>,
        TrustListError,
    >)
        ensures
            entries_view(r) == contribution(self.ide, *trust_list, home@),
    {
        match trust_list {
            TrustList::Missing => Err(TrustListError::NotFound(self.ide)),
            TrustList::Unreadable => Err(TrustListError::Unreadable(self.ide)),
            TrustList::Malformed => Err(TrustListError::Malformed(self.ide)),
            TrustList::Document(document) => {
                let keys = document.keys();
                Ok(entries_of_keys(&keys, home, self.ide))
            },
        }
    }
}

/// The projects of all the installations in `sources`, in their order. An
/// installation for which no document was found contributes nothing, and the
/// others are not affected by it.
pub fn collect_projects(sources: &Vec<(IdeConfigPath, TrustList)>, home: &str) -> (entries: Vec<
    ProjectEntry,
>)
    ensures
        projects(entries@) == gathered(sources@, home@),
{
    let mut entries: Vec<ProjectEntry> = Vec::new();
    let mut i: usize = 0;
    assert(sources@.take(0).len() == 0);
    while i < sources.len()
        invariant
            i <= sources.len(),
            projects(entries@) == gathered(sources@.take(i as int), home@),
        decreases sources.len() - i,
    {
        let ghost before = entries@;
        assert(sources@.take(i + 1).drop_last() == sources@.take(i as int));
        match sources[i].0.get_entries(&sources[i].1, home) {
            Ok(mut found) => {
                let ghost added = found@;
                entries.append(&mut found);
                assert(projects(entries@) == projects(before) + projects(added));
            },
            Err(_) => {},
        }
        i += 1;
    }
    assert(sources@.take(sources.len() as int) == sources@);
    entries
}

/// A document that records no trusted path contributes no project, and no
/// error.
pub proof fn lemma_empty_document(ide: Ide, document: Application, home: Seq<char>)
    requires
        trusted_keys(document).len() == 0,
    ensures
        contribution(ide, TrustList::Document(document), home) == Ok::<
            Seq<TrustedProject>,
            TrustListError,
        >(Seq::empty()),
{
}

/// Every project of a list of trusted paths belongs to the installation's
/// family, is named by the final component of its path, and comes from one
/// of the trusted paths; there are no more projects than paths.
pub proof fn lemma_entries_for(keys: Seq<Seq<char>>, home: Seq<char>, ide: Ide)
    ensures
        entries_for(keys, home, ide).len() <= keys.len(),
        forall|k: int|
            0 <= k < entries_for(keys, home, ide).len() ==> {
                let entry = #[trigger] entries_for(keys, home, ide)[k];
                &&& entry.ide == ide
                &&& final_component(entry.path) == Some(entry.name)
                &&& exists|j: int|
                    0 <= j < keys.len() && entry.path == resolved_path(#[trigger] keys[j], home)
            },
    decreases keys.len(),
{
    if keys.len() > 0 {
        let head = keys.drop_last();
        lemma_entries_for(head, home, ide);
        let rest = entries_for(head, home, ide);
        let all = entries_for(keys, home, ide);
        assert forall|k: int| 0 <= k < all.len() implies {
            let entry = #[trigger] all[k];
            &&& entry.ide == ide
            &&& final_component(entry.path) == Some(entry.name)
            &&& exists|j: int|
                0 <= j < keys.len() && entry.path == resolved_path(#[trigger] keys[j], home)
        } by {
            let entry = all[k];
            if k < rest.len() {
                assert(entry == rest[k]);
                let j = choose|j: int|
                    0 <= j < head.len() && entry.path == resolved_path(#[trigger] head[j], home);
                assert(head[j] == keys[j]);
            } else {
                assert(entry.path == resolved_path(keys[keys.len() - 1], home));
            }
        }
    }
}

} // verus!
