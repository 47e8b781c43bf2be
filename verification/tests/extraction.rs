use jetbrains_projects::{
    collect_projects, entries_of_keys, locate_configs, select_installations, Application,
    Component, ComponentOption, Ide, IdeConfigPath, List, PathMap, Project, ProjectEntry,
    TrustList, TrustListError,
};

fn record(key: &str) -> Project {
    Project { key: key.to_string(), value: "true".to_string() }
}

fn map_component(name: &str, keys: &[&str]) -> Component {
    Component {
        option: ComponentOption {
            map: Some(PathMap { entries: keys.iter().map(|k| record(k)).collect() }),
            list: None,
        },
        name: name.to_string(),
    }
}

fn list_component(name: &str) -> Component {
    Component { option: ComponentOption { map: None, list: Some(List {}) }, name: name.to_string() }
}

fn document(keys: &[&str]) -> Application {
    Application { components: vec![map_component("Trusted.Paths", keys)] }
}

fn summary(entries: &[ProjectEntry]) -> Vec<(String, String, Ide)> {
    entries.iter().map(|e| (e.path.clone(), e.name.clone(), e.ide)).collect()
}

fn clion() -> IdeConfigPath {
    IdeConfigPath::new("/cfg/JetBrains/CLion2023.1".to_string(), Ide::Clion, 20231)
}

#[test]
fn key_with_home_token_gives_path_and_name() {
    let entry = ProjectEntry::from_key("$USER_HOME$/proj/app", "/home/u", Ide::Clion).unwrap();
    assert_eq!(entry.path, "/home/u/proj/app");
    assert_eq!(entry.name, "app");
    assert_eq!(entry.ide, Ide::Clion);
    let copy = entry.clone();
    assert_eq!(copy.path, "/home/u/proj/app");
    assert_eq!(copy.name, "app");
    assert_eq!(copy.ide, Ide::Clion);
}

#[test]
fn keys_without_a_name_give_no_entry() {
    for key in ["", "/", "$USER_HOME$/..", "..", "."] {
        assert!(ProjectEntry::from_key(key, "/home/u", Ide::Clion).is_none(), "{key:?}");
    }
    assert!(ProjectEntry::from_key("$USER_HOME$", "/", Ide::Clion).is_none());
    assert!(ProjectEntry::from_key("$USER_HOME$", "", Ide::Clion).is_none());
    let entry = ProjectEntry::from_key("$USER_HOME$", "/home/u", Ide::Rider).unwrap();
    assert_eq!((entry.path.as_str(), entry.name.as_str()), ("/home/u", "u"));
}

#[test]
fn document_without_entries_gives_no_project_and_no_error() {
    let empty_map = document(&[]);
    assert_eq!(clion().get_entries(&TrustList::Document(empty_map), "/home/u").unwrap().len(), 0);
    let no_component = Application { components: Vec::new() };
    assert_eq!(clion().get_entries(&TrustList::Document(no_component), "/home/u").unwrap().len(), 0);
    let only_list = Application { components: vec![list_component("Other")] };
    assert_eq!(clion().get_entries(&TrustList::Document(only_list), "/home/u").unwrap().len(), 0);
}

#[test]
fn each_trusted_path_gives_one_project_in_order() {
    let doc = document(&["$USER_HOME$/proj/app", "/opt/work/tool/", "$USER_HOME$/a/b/../c"]);
    let entries = clion().get_entries(&TrustList::Document(doc), "/home/u").unwrap();
    assert_eq!(
        summary(&entries),
        vec![
            ("/home/u/proj/app".to_string(), "app".to_string(), Ide::Clion),
            ("/opt/work/tool/".to_string(), "tool".to_string(), Ide::Clion),
            ("/home/u/a/b/../c".to_string(), "c".to_string(), Ide::Clion),
        ]
    );
}

#[test]
fn records_without_a_name_are_passed_over() {
    let doc = document(&["/", "$USER_HOME$/one", "", "$USER_HOME$/x/..", "/two"]);
    let entries = clion().get_entries(&TrustList::Document(doc), "/home/u").unwrap();
    assert_eq!(
        summary(&entries),
        vec![
            ("/home/u/one".to_string(), "one".to_string(), Ide::Clion),
            ("/two".to_string(), "two".to_string(), Ide::Clion),
        ]
    );
}

#[test]
fn all_components_with_a_map_are_read() {
    let doc = Application {
        components: vec![
            map_component("First", &["/a/one"]),
            list_component("Second"),
            map_component("Third", &[]),
            map_component("Fourth", &["/b/two", "/c/three"]),
        ],
    };
    let keys = doc.keys();
    assert_eq!(keys, vec!["/a/one".to_string(), "/b/two".to_string(), "/c/three".to_string()]);
    let entries = clion().get_entries(&TrustList::Document(doc), "/home/u").unwrap();
    let names: Vec<&str> = entries.iter().map(|e| e.name.as_str()).collect();
    assert_eq!(names, vec!["one", "two", "three"]);
}

#[test]
fn entries_of_keys_takes_the_kind_it_is_given() {
    let keys = vec!["$USER_HOME$/x".to_string(), "/".to_string(), "/y".to_string()];
    let entries = entries_of_keys(&keys, "/h", Ide::Datagrip);
    assert_eq!(
        summary(&entries),
        vec![
            ("/h/x".to_string(), "x".to_string(), Ide::Datagrip),
            ("/y".to_string(), "y".to_string(), Ide::Datagrip),
        ]
    );
    assert!(entries_of_keys(&Vec::new(), "/h", Ide::Datagrip).is_empty());
}

#[test]
fn without_a_document_there_is_an_error_for_the_kind() {
    assert_eq!(
        clion().get_entries(&TrustList::Missing, "/home/u").unwrap_err(),
        TrustListError::NotFound(Ide::Clion)
    );
    assert_eq!(
        clion().get_entries(&TrustList::Unreadable, "/home/u").unwrap_err(),
        TrustListError::Unreadable(Ide::Clion)
    );
    assert_eq!(
        clion().get_entries(&TrustList::Malformed, "/home/u").unwrap_err(),
        TrustListError::Malformed(Ide::Clion)
    );
}

#[test]
fn errors_say_what_is_wrong_and_for_which_kind() {
    assert_eq!(
        TrustListError::NotFound(Ide::IntelliJCommunity).message(),
        "trusted-paths.xml not found for \"IdeaIC\""
    );
    assert_eq!(
        TrustListError::Unreadable(Ide::Clion).message(),
        "trusted-paths.xml could not be read for \"CLion\""
    );
    assert_eq!(
        TrustListError::Malformed(Ide::Rider).message(),
        "trusted-paths.xml is malformed for \"Rider\""
    );
    assert_eq!(TrustListError::NotFound(Ide::PhpStorm).ide(), Ide::PhpStorm);
    assert_eq!(TrustListError::Unreadable(Ide::WebStorm).ide(), Ide::WebStorm);
    assert_eq!(TrustListError::Malformed(Ide::Datagrip).ide(), Ide::Datagrip);
}

#[test]
fn installations_that_fail_are_left_out_and_the_others_stay() {
    let sources = vec![
        (
            IdeConfigPath::new("/cfg/Rider2023.2".to_string(), Ide::Rider, 20232),
            TrustList::Document(document(&["$USER_HOME$/game", "/srv/engine"])),
        ),
        (IdeConfigPath::new("/cfg/PhpStorm1".to_string(), Ide::PhpStorm, 1), TrustList::Missing),
        (IdeConfigPath::new("/cfg/WebStorm1".to_string(), Ide::WebStorm, 1), TrustList::Malformed),
        (IdeConfigPath::new("/cfg/Datagrip1".to_string(), Ide::Datagrip, 1), TrustList::Unreadable),
        (clion(), TrustList::Document(document(&["$USER_HOME$/proj/app"]))),
        (
            IdeConfigPath::new("/cfg/IdeaIC1".to_string(), Ide::IntelliJCommunity, 1),
            TrustList::Document(document(&[])),
        ),
    ];
    assert_eq!(
        summary(&collect_projects(&sources, "/home/u")),
        vec![
            ("/home/u/game".to_string(), "game".to_string(), Ide::Rider),
            ("/srv/engine".to_string(), "engine".to_string(), Ide::Rider),
            ("/home/u/proj/app".to_string(), "app".to_string(), Ide::Clion),
        ]
    );
    assert!(collect_projects(&Vec::new(), "/home/u").is_empty());
}

#[test]
fn only_the_newest_community_edition_contributes() {
    let children = vec![
        ("/cfg/JetBrains/IdeaIC2023.1".to_string(), true),
        ("/cfg/JetBrains/IdeaIC2022.3".to_string(), true),
    ];
    let selected = select_installations(&locate_configs(&children));
    assert_eq!(selected.len(), 1);
    assert_eq!(selected[0].path, "/cfg/JetBrains/IdeaIC2023.1");
    assert_eq!(selected[0].ide, Ide::IntelliJCommunity);
    assert_eq!(selected[0].version, 20231);
    assert_eq!(
        selected[0].trusted_paths_file(),
        "/cfg/JetBrains/IdeaIC2023.1/options/trusted-paths.xml"
    );

    let mut sources = Vec::new();
    for installation in selected {
        let trust_list = if installation.path.ends_with("2023.1") {
            TrustList::Document(document(&["$USER_HOME$/new/alpha", "$USER_HOME$/new/beta"]))
        } else {
            TrustList::Document(document(&["$USER_HOME$/old/gamma"]))
        };
        sources.push((installation, trust_list));
    }
    assert_eq!(
        summary(&collect_projects(&sources, "/home/u")),
        vec![
            ("/home/u/new/alpha".to_string(), "alpha".to_string(), Ide::IntelliJCommunity),
            ("/home/u/new/beta".to_string(), "beta".to_string(), Ide::IntelliJCommunity),
        ]
    );
}
