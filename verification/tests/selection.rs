use jetbrains_projects::{
    locate_configs, newest_of, order_versions, select_installations, Ide, IdeConfigPath,
};
use std::cmp::Ordering;

fn config(path: &str, ide: Ide, version: u32) -> IdeConfigPath {
    IdeConfigPath::new(path.to_string(), ide, version)
}

fn summary(configs: &[IdeConfigPath]) -> Vec<(String, Ide, u32)> {
    configs.iter().map(|c| (c.path.clone(), c.ide, c.version)).collect()
}

#[test]
fn newest_of_each_kind_is_selected() {
    let candidates = vec![
        config("/c/CLion2023.1", Ide::Clion, 20231),
        config("/c/CLion2022.4", Ide::Clion, 20224),
        config("/c/Rider2023.2", Ide::Rider, 20232),
    ];
    let selected = select_installations(&candidates);
    let mut kept: Vec<(Ide, u32)> = selected.iter().map(|c| (c.ide, c.version)).collect();
    assert_eq!(kept.len(), 2);
    assert!(kept.contains(&(Ide::Clion, 20231)));
    assert!(kept.contains(&(Ide::Rider, 20232)));
    kept.dedup();
    assert_eq!(kept.len(), 2);
    assert_eq!(
        summary(&selected),
        vec![
            ("/c/Rider2023.2".to_string(), Ide::Rider, 20232),
            ("/c/CLion2023.1".to_string(), Ide::Clion, 20231),
        ]
    );
}

#[test]
fn selection_does_not_depend_on_the_order_of_the_candidates() {
    let orders: [[usize; 3]; 6] = [[0, 1, 2], [0, 2, 1], [1, 0, 2], [1, 2, 0], [2, 0, 1], [2, 1, 0]];
    let all = [
        ("/c/CLion2023.1", Ide::Clion, 20231u32),
        ("/c/CLion2022.4", Ide::Clion, 20224),
        ("/c/Rider2023.2", Ide::Rider, 20232),
    ];
    for order in orders {
        let candidates: Vec<IdeConfigPath> =
            order.iter().map(|&i| config(all[i].0, all[i].1, all[i].2)).collect();
        assert_eq!(
            summary(&select_installations(&candidates)),
            vec![
                ("/c/Rider2023.2".to_string(), Ide::Rider, 20232),
                ("/c/CLion2023.1".to_string(), Ide::Clion, 20231),
            ],
            "{order:?}"
        );
    }
}

#[test]
fn nothing_is_selected_from_nothing() {
    assert!(select_installations(&Vec::new()).is_empty());
    assert_eq!(newest_of(&Vec::new(), Ide::Clion), None);
}

#[test]
fn one_installation_of_each_kind_is_kept_in_reverse_declaration_order() {
    let candidates = vec![
        config("a", Ide::IntelliJCommunity, 1),
        config("b", Ide::IntelliJUltimate, 2),
        config("c", Ide::Clion, 3),
        config("d", Ide::Rider, 4),
        config("e", Ide::WebStorm, 5),
        config("f", Ide::PhpStorm, 6),
        config("g", Ide::Datagrip, 7),
        config("h", Ide::Datagrip, 6),
        config("i", Ide::IntelliJCommunity, 9),
    ];
    let selected = select_installations(&candidates);
    assert_eq!(
        summary(&selected),
        vec![
            ("g".to_string(), Ide::Datagrip, 7),
            ("f".to_string(), Ide::PhpStorm, 6),
            ("e".to_string(), Ide::WebStorm, 5),
            ("d".to_string(), Ide::Rider, 4),
            ("c".to_string(), Ide::Clion, 3),
            ("b".to_string(), Ide::IntelliJUltimate, 2),
            ("i".to_string(), Ide::IntelliJCommunity, 9),
        ]
    );
}

#[test]
fn of_equal_versions_the_first_is_kept() {
    let candidates = vec![
        config("/c/CLion2023.1", Ide::Clion, 20231),
        config("/c/CLion20231", Ide::Clion, 20231),
        config("/c/CLion202.31", Ide::Clion, 20231),
        config("/c/CLion1", Ide::Clion, 1),
    ];
    assert_eq!(newest_of(&candidates, Ide::Clion), Some(0));
    assert_eq!(newest_of(&candidates, Ide::Rider), None);
    assert_eq!(
        summary(&select_installations(&candidates)),
        vec![("/c/CLion2023.1".to_string(), Ide::Clion, 20231)]
    );
}

#[test]
fn selected_kinds_are_distinct_and_maximal() {
    let kinds = [Ide::Clion, Ide::Rider, Ide::IntelliJCommunity, Ide::Datagrip];
    let mut candidates = Vec::new();
    let mut seed: u32 = 12345;
    for i in 0..60 {
        seed = seed.wrapping_mul(1664525).wrapping_add(1013904223);
        let ide = kinds[(seed >> 16) as usize % kinds.len()];
        let version = (seed >> 8) % 50;
        candidates.push(config(&format!("p{i}"), ide, version));
    }
    let selected = select_installations(&candidates);
    for (k, a) in selected.iter().enumerate() {
        for b in &selected[k + 1..] {
            assert_ne!(a.ide, b.ide);
        }
        let best = candidates.iter().filter(|c| c.ide == a.ide).map(|c| c.version).max();
        assert_eq!(best, Some(a.version));
        let first = candidates.iter().find(|c| c.ide == a.ide && c.version == a.version).unwrap();
        assert_eq!(first.path, a.path);
    }
    for c in &candidates {
        assert!(selected.iter().any(|s| s.ide == c.ide));
    }
    assert_eq!(selected.len(), kinds.len());
}

#[test]
fn installations_of_one_kind_compare_by_version() {
    let old = config("/c/CLion2022.4", Ide::Clion, 20224);
    let new = config("/c/CLion2023.1", Ide::Clion, 20231);
    let same = config("/elsewhere", Ide::Clion, 20231);
    assert_eq!(old.partial_cmp(&new), Some(Ordering::Less));
    assert_eq!(new.partial_cmp(&old), Some(Ordering::Greater));
    assert_eq!(new.partial_cmp(&same), Some(Ordering::Equal));
    assert_eq!(old.cmp(&new), Ordering::Less);
    assert_eq!(new.cmp(&old), Ordering::Greater);
    assert_eq!(new.cmp(&same), Ordering::Equal);
}

#[test]
fn installations_of_different_kinds_compare_by_kind_only() {
    let clion = config("/c/CLion2023.1", Ide::Clion, 20231);
    let rider = config("/c/Rider1", Ide::Rider, 1);
    let idea = config("/c/IdeaIC9", Ide::IntelliJCommunity, 99999);
    assert_eq!(clion.partial_cmp(&rider), None);
    assert_eq!(rider.partial_cmp(&clion), None);
    assert_eq!(clion.cmp(&rider), Ordering::Less);
    assert_eq!(rider.cmp(&clion), Ordering::Greater);
    assert_eq!(idea.cmp(&clion), Ordering::Less);
    assert_eq!(clion.cmp(&idea), Ordering::Greater);
}

#[test]
fn versions_order_as_numbers() {
    assert_eq!(order_versions(1, 2), Ordering::Less);
    assert_eq!(order_versions(2, 2), Ordering::Equal);
    assert_eq!(order_versions(3, 2), Ordering::Greater);
    assert_eq!(order_versions(0, u32::MAX), Ordering::Less);
}

#[test]
fn children_that_are_installations_are_located_in_order() {
    let children = vec![
        ("/cfg/JetBrains/IdeaIC2023.1".to_string(), true),
        ("/cfg/JetBrains/consentOptions".to_string(), true),
        ("/cfg/JetBrains/CLion2022.3".to_string(), false),
        ("/cfg/JetBrains/PhpStorm2021.2".to_string(), true),
        ("/cfg/JetBrains/Riderx".to_string(), true),
        ("/cfg/JetBrains/IdeaIC2022.3".to_string(), true),
    ];
    assert_eq!(
        summary(&locate_configs(&children)),
        vec![
            ("/cfg/JetBrains/IdeaIC2023.1".to_string(), Ide::IntelliJCommunity, 20231),
            ("/cfg/JetBrains/PhpStorm2021.2".to_string(), Ide::PhpStorm, 20212),
            ("/cfg/JetBrains/IdeaIC2022.3".to_string(), Ide::IntelliJCommunity, 20223),
        ]
    );
    assert!(locate_configs(&Vec::new()).is_empty());
}
