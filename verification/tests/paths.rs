use jetbrains_projects::{file_name, replace_token, resolve_home, starts_with, Ide, IdeConfigPath};
use std::path::Path;

fn chars(s: &str) -> Vec<char> {
    s.chars().collect()
}

#[test]
fn final_component_of_ordinary_paths() {
    assert_eq!(file_name("/home/u/proj/app"), Some("app".to_string()));
    assert_eq!(file_name("/home/u/proj/app/"), Some("app".to_string()));
    assert_eq!(file_name("app"), Some("app".to_string()));
    assert_eq!(file_name("/app"), Some("app".to_string()));
    assert_eq!(file_name("./app"), Some("app".to_string()));
    assert_eq!(file_name("/home/u/my project"), Some("my project".to_string()));
    assert_eq!(file_name("/home/u/.hidden"), Some(".hidden".to_string()));
    assert_eq!(file_name("/home/u/..."), Some("...".to_string()));
    assert_eq!(file_name("/home/u/a.b"), Some("a.b".to_string()));
    assert_eq!(file_name("/home/u/日本語"), Some("日本語".to_string()));
}

#[test]
fn paths_without_a_final_component() {
    for path in ["", "/", "//", "///", ".", "./", "./.", "/.", "..", "/..", "a/..", "a/../", "a/.././"] {
        assert_eq!(file_name(path), None, "{path:?}");
    }
}

#[test]
fn separators_and_single_dots_are_passed_over() {
    assert_eq!(file_name("a/."), Some("a".to_string()));
    assert_eq!(file_name("a/./"), Some("a".to_string()));
    assert_eq!(file_name("a//"), Some("a".to_string()));
    assert_eq!(file_name("a/.//./"), Some("a".to_string()));
    assert_eq!(file_name("/x/y/././."), Some("y".to_string()));
    assert_eq!(file_name("../a"), Some("a".to_string()));
    assert_eq!(file_name("a/..b"), Some("..b".to_string()));
    assert_eq!(file_name("a/b.."), Some("b..".to_string()));
    assert_eq!(file_name("a/.b"), Some(".b".to_string()));
}

#[test]
fn final_component_is_that_of_the_standard_library() {
    let parts = ["", "/", ".", "..", "a", "bc", ".d", "e.", "//", "/./", "/../", "x y", "é"];
    for a in parts {
        for b in parts {
            for c in parts {
                for d in parts {
                    let path = format!("{a}{b}{c}{d}");
                    let expected =
                        Path::new(&path).file_name().map(|name| name.to_str().unwrap().to_string());
                    assert_eq!(file_name(&path), expected, "{path:?}");
                }
            }
        }
    }
}

#[test]
fn home_token_is_replaced() {
    assert_eq!(resolve_home("$USER_HOME$/proj/app", "/home/u"), "/home/u/proj/app");
    assert_eq!(file_name(&resolve_home("$USER_HOME$/proj/app", "/home/u")), Some("app".to_string()));
}

#[test]
fn every_home_token_is_replaced() {
    assert_eq!(resolve_home("$USER_HOME$$USER_HOME$", "/h"), "/h/h");
    assert_eq!(resolve_home("a$USER_HOME$b$USER_HOME$c", "X"), "aXbXc");
    assert_eq!(resolve_home("$USER_HOME$", ""), "");
    assert_eq!(resolve_home("/opt/$USER_HOME$", "/home/u"), "/opt//home/u");
}

#[test]
fn keys_without_a_whole_token_stay_as_they_are() {
    for key in ["", "/abs/path", "$USER_HOME", "USER_HOME$", "$user_home$", "$USER_HOME $", "$$", "$"] {
        assert_eq!(resolve_home(key, "/home/u"), key, "{key:?}");
    }
    assert_eq!(resolve_home("$$USER_HOME$$", "/h"), "$/h$");
    assert_eq!(resolve_home("$USER_HOME$USER_HOME$", "/h"), "/hUSER_HOME$");
}

#[test]
fn a_home_that_holds_the_token_is_not_replaced_again() {
    assert_eq!(resolve_home("$USER_HOME$/x", "$USER_HOME$"), "$USER_HOME$/x");
    assert_eq!(resolve_home("$USER_HOME$/x", "a$USER_HOME$"), "a$USER_HOME$/x");
}

#[test]
fn replacing_is_that_of_the_standard_library() {
    let texts = [
        "", "a", "aa", "aaa", "aaaa", "ab", "aba", "abab", "ababa", "xabx", "abxab", "$USER_HOME$",
        "x$USER_HOME$y", "日本ab語", "aab", "baa",
    ];
    let tokens = ["a", "aa", "ab", "aba", "b", "x", "$USER_HOME$", "語", "abab"];
    let withs = ["", "a", "Z", "ab", "aa", "long replacement", "日"];
    for text in texts {
        for token in tokens {
            for with in withs {
                assert_eq!(
                    replace_token(text, token, with),
                    text.replace(token, with),
                    "{text:?} {token:?} {with:?}"
                );
            }
        }
    }
}

#[test]
fn an_empty_token_occurs_nowhere() {
    assert_eq!(replace_token("abc", "", "X"), "abc");
    assert_eq!(replace_token("", "", "X"), "");
}

#[test]
fn starts_with_compares_the_first_characters() {
    assert!(starts_with(&chars("CLion2023"), &chars("CLion")));
    assert!(starts_with(&chars("CLion"), &chars("CLion")));
    assert!(starts_with(&chars("CLion"), &chars("")));
    assert!(starts_with(&chars(""), &chars("")));
    assert!(!starts_with(&chars("CLio"), &chars("CLion")));
    assert!(!starts_with(&chars("cLion"), &chars("CLion")));
    assert!(!starts_with(&chars("xCLion"), &chars("CLion")));
    assert!(!starts_with(&chars(""), &chars("C")));
}

#[test]
fn trust_list_lies_below_the_installation() {
    let config = IdeConfigPath::new("/cfg/JetBrains/IdeaIC2023.1".to_string(), Ide::IntelliJCommunity, 20231);
    assert_eq!(config.trusted_paths_file(), "/cfg/JetBrains/IdeaIC2023.1/options/trusted-paths.xml");
    let config = IdeConfigPath::new("/cfg/JetBrains/IdeaIC2023.1/".to_string(), Ide::IntelliJCommunity, 20231);
    assert_eq!(config.trusted_paths_file(), "/cfg/JetBrains/IdeaIC2023.1/options/trusted-paths.xml");
    let config = IdeConfigPath::new(String::new(), Ide::IntelliJCommunity, 20231);
    assert_eq!(config.trusted_paths_file(), "options/trusted-paths.xml");
}

#[test]
fn trust_list_path_is_the_join_of_the_standard_library() {
    for dir in ["", "/", "a", "a/", "/a/b", "/a/b/", "/a//", "rel/dir", "."] {
        let config = IdeConfigPath::new(dir.to_string(), Ide::Rider, 1);
        let expected = Path::new(dir).join("options/trusted-paths.xml");
        assert_eq!(config.trusted_paths_file(), expected.to_str().unwrap(), "{dir:?}");
    }
}
