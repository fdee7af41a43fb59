use sway_switcher::candidate::SwitchType;
use sway_switcher::order::{sort_dedup, str_lt};
use sway_switcher::paths::{launchable_programs, search_path_dirs, split_colon_exec};
use sway_switcher::windows::{window_candidates, TopNode, TreeSnapshot, WindowInfo, WorkspaceInfo};

fn strings(items: &[&str]) -> Vec<String> {
    items.iter().map(|s| s.to_string()).collect()
}

#[test]
fn str_lt_orders_lexicographically() {
    assert!(str_lt("abc", "abd"));
    assert!(str_lt("ab", "abc"));
    assert!(!str_lt("b", "a"));
    assert!(!str_lt("same", "same"));
    assert!(str_lt("", "a"));
}

#[test]
fn sort_dedup_sorts_and_removes_duplicates() {
    let r = sort_dedup(strings(&["b", "a", "b", "c", "a"]));
    assert_eq!(r, strings(&["a", "b", "c"]));
}

#[test]
fn split_keeps_every_segment() {
    assert_eq!(split_colon_exec("a:b:a"), strings(&["a", "b", "a"]));
    assert_eq!(split_colon_exec(""), strings(&[""]));
    assert_eq!(split_colon_exec("::"), strings(&["", "", ""]));
    assert_eq!(split_colon_exec("/usr/bin"), strings(&["/usr/bin"]));
    assert_eq!(split_colon_exec("a:"), strings(&["a", ""]));
}

#[test]
fn search_path_dirs_sorted_and_distinct() {
    let r = search_path_dirs("/usr/bin:/bin:/usr/bin");
    assert_eq!(r, strings(&["/bin", "/usr/bin"]));
}

#[test]
fn search_path_dirs_empty_variable() {
    assert_eq!(search_path_dirs(""), strings(&[""]));
}

#[test]
fn launchable_programs_no_duplicates_across_directories() {
    let listings = vec![strings(&["zsh", "ls"]), strings(&["ls", "awk"])];
    let r = launchable_programs(&listings);
    let expected: Vec<SwitchType> = ["awk", "ls", "zsh"]
        .iter()
        .map(|n| SwitchType::Launch(n.to_string()))
        .collect();
    assert_eq!(r, expected);
}

#[test]
fn launchable_programs_empty_input() {
    let r = launchable_programs(&Vec::new());
    assert!(r.is_empty());
}

fn window(app_id: Option<&str>, title: Option<&str>) -> WindowInfo {
    WindowInfo {
        app_id: app_id.map(|s| s.to_string()),
        title: title.map(|s| s.to_string()),
    }
}

#[test]
fn window_candidates_preserve_traversal_order() {
    let tree = TreeSnapshot {
        top: vec![
            TopNode { workspaces: Vec::new() },
            TopNode {
                workspaces: vec![
                    WorkspaceInfo {
                        windows: vec![window(Some("a"), Some("A")), window(None, Some("B"))],
                    },
                    WorkspaceInfo { windows: vec![window(Some("c"), Some("C"))] },
                ],
            },
        ],
    };
    let r = window_candidates(&tree);
    assert_eq!(
        r,
        vec![
            SwitchType::Focus(Some("a".to_string()), Some("A".to_string())),
            SwitchType::Focus(None, Some("B".to_string())),
            SwitchType::Focus(Some("c".to_string()), Some("C".to_string())),
        ]
    );
}

#[test]
fn window_without_name_still_listed() {
    let tree = TreeSnapshot {
        top: vec![
            TopNode { workspaces: Vec::new() },
            TopNode {
                workspaces: vec![WorkspaceInfo { windows: vec![window(None, None)] }],
            },
        ],
    };
    let r = window_candidates(&tree);
    assert_eq!(r, vec![SwitchType::Focus(None, None)]);
    assert_eq!(r[0].command(), None);
}

#[test]
fn unexpected_tree_shape_yields_no_candidates() {
    let tree = TreeSnapshot { top: Vec::new() };
    assert!(window_candidates(&tree).is_empty());
    let one = TreeSnapshot {
        top: vec![TopNode {
            workspaces: vec![WorkspaceInfo { windows: vec![window(None, Some("X"))] }],
        }],
    };
    assert!(window_candidates(&one).is_empty());
}

#[test]
fn str_lt_compares_code_points() {
    // 'Z' (0x5A) sorts before 'a' (0x61).
    assert!(str_lt("Z", "a"));
    assert!(!str_lt("a", "Z"));
}

#[test]
fn insert_unique_keeps_order_and_drops_equal() {
    let mut list = strings(&["b", "d"]);
    sway_switcher::order::insert_unique(&mut list, "c".to_string());
    assert_eq!(list, strings(&["b", "c", "d"]));
    sway_switcher::order::insert_unique(&mut list, "c".to_string());
    assert_eq!(list, strings(&["b", "c", "d"]));
    sway_switcher::order::insert_unique(&mut list, "a".to_string());
    assert_eq!(list, strings(&["a", "b", "c", "d"]));
}
