//! Search over the trusted projects, and the choice of what to launch.

use vstd::prelude::*;
use vstd::string::StringExecFns;
use crate::matcher::{fuzzy_match, skim_score};
use crate::project::{projects, ProjectEntry, TrustedProject};
use crate::ranking::{
    carried_score, is_ranked, is_ranking, lemma_ranking_len, lemma_ranking_mapped, outranks,
    rank_scored,
};
use crate::text::chars_of;

verus! {

/// The most results that one search returns.
pub const PAGE_SIZE: usize = 8;

/// The projects that searches run over, and how many of them the last search
/// returned.
pub struct JetBrainsProjects {
    projects: Vec<ProjectEntry>,
    shown: usize,
}

/// What a [`JetBrainsProjects`] stands for.
pub struct Catalogue {
    /// The projects, in the order in which the last search left them.
    pub projects: Seq<TrustedProject>,
    /// How many of them the last search returned.
    pub shown: nat,
}

/// One result of a search.
#[derive(Debug, PartialEq, Eq)]
pub struct SearchResult {
    pub id: u32,
    pub name: String,
    pub description: String,
    pub icon: String,
}

/// What a [`SearchResult`] stands for.
pub struct Hit {
    pub id: u32,
    pub name: Seq<char>,
    pub description: Seq<char>,
    pub icon: Seq<char>,
}

impl View for SearchResult {
    type V = Hit;

    open spec fn view(&self) -> Hit {
        Hit { id: self.id, name: self.name@, description: self.description@, icon: self.icon@ }
    }
}

/// What to do for an activation.
#[derive(Debug, PartialEq, Eq)]
pub enum Activation {
    /// No result of the last search has this index: there is nothing to
    /// launch.
    NotFound(u32),
    /// Launch the binary `bin` with `path` as its one argument.
    Launch { bin: String, path: String },
}

/// What an [`Activation`] stands for.
pub enum Decision {
    NotFound(u32),
    Launch { bin: Seq<char>, path: Seq<char> },
}

impl View for Activation {
    type V = Decision;

    open spec fn view(&self) -> Decision {
        match self {
            Activation::NotFound(id) => Decision::NotFound(*id),
            Activation::Launch { bin, path } => Decision::Launch { bin: bin@, path: path@ },
        }
    }
}

/// The word with which a query for projects starts, and the space behind it.
pub open spec fn search_keyword() -> Seq<char> {
    "idea "@
}

/// What a query searches for: the text behind `idea` and one space. A query
/// of another shape searches for nothing.
pub open spec fn search_terms(query: Seq<char>) -> Option<Seq<char>> {
    if search_keyword().is_prefix_of(query) {
        Some(query.skip(search_keyword().len() as int))
    } else {
        None
    }
}

/// The score of a project for a query: that of its name.
pub open spec fn name_score(query: Seq<char>) -> spec_fn(TrustedProject) -> Option<i64> {
    |project: TrustedProject| skim_score(project.name, query)
}

/// The result that stands for `project` at position `id` of a page.
pub open spec fn hit_for(id: int, project: TrustedProject) -> Hit {
    Hit {
        id: id as u32,
        name: project.name,
        description: project.path,
        icon: project.ide.icon_name(),
    }
}

/// How many results a search over `count` projects returns.
pub open spec fn page_len(count: nat) -> nat {
    if count < PAGE_SIZE {
        count
    } else {
        PAGE_SIZE as nat
    }
}

/// The page of results over ranked projects: the first of them, at most
/// [`PAGE_SIZE`], each with its position as its id.
pub open spec fn page_of(ranked: Seq<TrustedProject>) -> Seq<Hit> {
    Seq::new(page_len(ranked.len()), |id: int| hit_for(id, ranked[id]))
}

/// The views of a list of results.
pub open spec fn hits(results: Seq<SearchResult>) -> Seq<Hit> {
    results.map_values(|result: SearchResult| result@)
}

/// What an activation of `id` decides in a catalogue: to launch the project
/// at that position where the last search returned one there, and that there
/// is none otherwise.
pub open spec fn decision_for(catalogue: Catalogue, id: u32) -> Decision {
    if id < catalogue.shown {
        Decision::Launch {
            bin: catalogue.projects[id as int].ide.bin_name(),
            path: catalogue.projects[id as int].path,
        }
    } else {
        Decision::NotFound(id)
    }
}

/// What a query searches for, if it has the shape of a search.
pub fn query_terms(query: &str) -> (terms: Option<String>)
    ensures
        crate::text::opt_chars(terms) == search_terms(query@),
{
    let chars = chars_of(query);
    let keyword = chars_of("idea ");
    if crate::text::starts_with(&chars, &keyword) {
        Some(query.substring_char(keyword.len(), chars.len()).to_owned())
    } else {
        None
    }
}

impl JetBrainsProjects {
    #[verifier::type_invariant]
    spec fn shown_in_range(self) -> bool {
        self.shown <= self.projects@.len() && self.shown <= PAGE_SIZE
    }

    /// The projects and the number of results that the last search returned.
    pub closed spec fn view(&self) -> Catalogue {
        Catalogue { projects: projects(self.projects@), shown: self.shown as nat }
    }

    /// A catalogue of `entries`, in which nothing has been searched yet.
    pub fn new(entries: Vec<ProjectEntry>) -> (r: Self)
        ensures
            r@.projects == projects(entries@),
            r@.shown == 0,
    {
        JetBrainsProjects { projects: entries, shown: 0 }
    }

    /// The name under which the catalogue answers.
    pub fn name(&self) -> (name: &'static str)
        ensures
            name@ == "jetbrains"@,
    {
        "jetbrains"
    }

    /// The number of projects.
    pub fn len(&self) -> (n: usize)
        ensures
            n == self@.projects.len(),
    {
        self.projects.len()
    }

    /// How many results the last search returned: never more than
    /// [`PAGE_SIZE`], nor than there are projects.
    pub fn shown(&self) -> (n: usize)
        ensures
            n == self@.shown,
            n <= PAGE_SIZE,
            n <= self@.projects.len(),
    {
        proof {
            use_type_invariant(&*self);
        }
        self.shown
    }

    /// The project at position `index` of the current order.
    pub fn get(&self, index: usize) -> (entry: Option<ProjectEntry>)
        ensures
            index < self@.projects.len() ==> entry is Some && entry->0@
                == self@.projects[index as int],
            index >= self@.projects.len() ==> entry is None,
    {
        if index < self.projects.len() {
            Some(self.projects[index].clone())
        } else {
            None
        }
    }

    /// Each project with the score of its name for `query`.
    fn scored(&self, query: &str) -> (scored: Vec<(ProjectEntry, Option<i64>)>)
        ensures
            scored@.len() == self.projects@.len(),
            forall|i: int|
                0 <= i < scored@.len() ==> (#[trigger] scored@[i]).0@ == self.projects@[i]@
                    && scored@[i].1 == skim_score(self.projects@[i].name@, query@),
    {
        let mut scored: Vec<(ProjectEntry, Option<i64>)> = Vec::new();
        let mut i: usize = 0;
        while i < self.projects.len()
            invariant
                i <= self.projects.len(),
                scored@.len() == i,
                forall|j: int|
                    0 <= j < i ==> (#[trigger] scored@[j]).0@ == self.projects@[j]@ && scored@[j].1
                        == skim_score(self.projects@[j].name@, query@),
            decreases self.projects.len() - i,
        {
            let score = fuzzy_match(self.projects[i].name.as_str(), query);
            scored.push((self.projects[i].clone(), score));
            i += 1;
        }
        scored
    }

    /// Ranks the projects by the score of their names for `query`: the
    /// higher score first, the projects that do not match last, and those
    /// that score alike in the order that they had. No project is lost or
    /// added. The results of an earlier search no longer say where a
    /// project stands, so none of them can be activated after this.
    pub fn sort_match(&mut self, query: &str)
        ensures
            is_ranking(old(self)@.projects, final(self)@.projects, name_score(query@)),
            final(self)@.projects.len() == old(self)@.projects.len(),
            final(self)@.shown == 0,
    {
        self.shown = 0;
        let scored = self.scored(query);
        let ghost input = scored@;
        let ranked = rank_scored(scored);
        let ghost entry_of = |pair: (ProjectEntry, Option<i64>)| pair.0@;
        proof {
            lemma_ranking_len(input, ranked@, carried_score::<ProjectEntry>());
            assert forall|i: int| 0 <= i < input.len() implies carried_score::<ProjectEntry>()(
                #[trigger] input[i],
            ) == name_score(query@)(entry_of(input[i])) by {
                assert(input[i].1 == skim_score(self.projects@[i].name@, query@));
            }
            lemma_ranking_mapped(
                input,
                ranked@,
                entry_of,
                carried_score::<ProjectEntry>(),
                name_score(query@),
            );
            assert(input.map_values(entry_of) == projects(self.projects@));
        }
        let mut sorted: Vec<ProjectEntry> = Vec::new();
        let mut i: usize = 0;
        while i < ranked.len()
            invariant
                i <= ranked.len(),
                sorted@.len() == i,
                forall|j: int| 0 <= j < i ==> (#[trigger] sorted@[j])@ == ranked@[j].0@,
            decreases ranked.len() - i,
        {
            sorted.push(ranked[i].0.clone());
            i += 1;
        }
        assert(projects(sorted@) == ranked@.map_values(entry_of));
        proof {
            lemma_ranking_len(
                projects(self.projects@),
                projects(sorted@),
                name_score(query@),
            );
        }
        self.projects = sorted;
    }

    /// The first projects of the current order as results, at most
    /// [`PAGE_SIZE`].
    fn page(&self) -> (results: Vec<SearchResult>)
        ensures
            hits(results@) == page_of(projects(self.projects@)),
    {
        let mut results: Vec<SearchResult> = Vec::new();
        let mut id: u32 = 0;
        while (id as usize) < self.projects.len() && (id as usize) < PAGE_SIZE
            invariant
                id <= self.projects.len(),
                id <= PAGE_SIZE,
                results@.len() == id,
                forall|j: int|
                    0 <= j < id ==> (#[trigger] results@[j])@ == hit_for(j, self.projects@[j]@),
            decreases PAGE_SIZE - id,
        {
            let entry = &self.projects[id as usize];
            results.push(
                SearchResult {
                    id,
                    name: entry.name.clone(),
                    description: entry.path.clone(),
                    icon: String::from_str(entry.ide.icon()),
                },
            );
            id += 1;
        }
        assert(hits(results@) =~= page_of(projects(self.projects@)));
        results
    }

    /// Answers a query. A query of the shape `idea <terms>` ranks the
    /// projects by `<terms>` as [`JetBrainsProjects::sort_match`] does and
    /// returns the first of them, at most [`PAGE_SIZE`]. Any other query
    /// returns nothing and leaves the order as it is. Either way the results
    /// returned are those that an activation can then pick from.
    pub fn search(&mut self, query: &str) -> (results: Vec<SearchResult>)
        ensures
            match search_terms(query@) {
                Some(terms) => is_ranking(
                    old(self)@.projects,
                    final(self)@.projects,
                    name_score(terms),
                ),
                None => final(self)@.projects == old(self)@.projects,
            },
            hits(results@) == (match search_terms(query@) {
                Some(_) => page_of(final(self)@.projects),
                None => Seq::empty(),
            }),
            final(self)@.shown == results@.len(),
            final(self)@.projects.len() == old(self)@.projects.len(),
            results@.len() <= PAGE_SIZE,
            results@.len() <= final(self)@.projects.len(),
    {
        match query_terms(query) {
            Some(terms) => {
                self.sort_match(terms.as_str());
                let results = self.page();
                assert(results@.len() == hits(results@).len());
                self.shown = results.len();
                results
            },
            None => {
                self.shown = 0;
                Vec::new()
            },
        }
    }

    /// Decides what an activation of `id` does: launch the project that the
    /// last search returned at that position, with the binary of its IDE and
    /// the project's path, or nothing where the last search returned no
    /// result there.
    pub fn activate(&self, id: u32) -> (action: Activation)
        ensures
            action@ == decision_for(self@, id),
    {
        proof {
            use_type_invariant(&*self);
        }
        if (id as usize) < self.shown {
            let entry = &self.projects[id as usize];
            Activation::Launch { bin: String::from_str(entry.ide.bin()), path: entry.path.clone() }
        } else {
            Activation::NotFound(id)
        }
    }
}

/// A page never holds more than [`PAGE_SIZE`] results, nor more than there
/// are projects, and result `id` stands for the project at position `id`.
pub proof fn lemma_page_bounded(ranked: Seq<TrustedProject>)
    ensures
        page_of(ranked).len() <= PAGE_SIZE,
        page_of(ranked).len() <= ranked.len(),
        ranked.len() >= PAGE_SIZE ==> page_of(ranked).len() == PAGE_SIZE,
        forall|id: int|
            0 <= id < page_of(ranked).len() ==> (#[trigger] page_of(ranked)[id]).id == id
                && page_of(ranked)[id].name == ranked[id].name,
{
}

/// An activation beyond the last result that was returned finds nothing,
/// whatever the projects are.
pub proof fn lemma_beyond_last_result(catalogue: Catalogue, id: u32)
    requires
        id >= catalogue.shown,
    ensures
        decision_for(catalogue, id) == Decision::NotFound(id),
{
}

/// In ranked projects, those whose names do not match the query come behind
/// all those whose names do.
pub proof fn lemma_unmatched_last(ranked: Seq<TrustedProject>, query: Seq<char>, i: int, j: int)
    requires
        is_ranked(ranked, name_score(query)),
        0 <= i < j < ranked.len(),
        skim_score(ranked[i].name, query) is None,
    ensures
        skim_score(ranked[j].name, query) is None,
{
    assert(!outranks(name_score(query)(ranked[j]), name_score(query)(ranked[i])));
}

} // verus!
