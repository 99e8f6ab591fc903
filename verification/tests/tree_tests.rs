use rnm::DirTree;
use rnm::locate_in_tree;
use rnm::tree_has_module_child;

fn leaf(name: &str) -> DirTree {
    DirTree { name: String::from(name), children: Vec::new() }
}

fn node(name: &str, children: Vec<DirTree>) -> DirTree {
    DirTree { name: String::from(name), children }
}

#[test]
fn test_no_modules_no_matches_either_policy() {
    let tree = node(
        "project",
        vec![node("src", vec![leaf("nested")]), leaf("docs"), leaf("target")],
    );
    let root = String::from("/project");
    assert!(!tree_has_module_child(&tree));
    assert_eq!(locate_in_tree(&tree, &root, true), Vec::<String>::new());
    assert_eq!(locate_in_tree(&tree, &root, false), Vec::<String>::new());
}

#[test]
fn test_single_module_child_all_policies() {
    let tree = node("project", vec![leaf("node_modules")]);
    let root = String::from("/project");
    let expected = vec![String::from("/project/node_modules")];
    assert!(tree_has_module_child(&tree));
    assert_eq!(locate_in_tree(&tree, &root, true), expected);
    assert_eq!(locate_in_tree(&tree, &root, false), expected);
}

#[test]
fn test_pruning_single_nested_match() {
    let tree = node("base", vec![node("custom_1", vec![leaf("node_modules")])]);
    let root = String::from("/base");
    assert_eq!(
        locate_in_tree(&tree, &root, true),
        vec![String::from("/base/custom_1/node_modules")]
    );
}

#[test]
fn test_pruning_does_not_descend_into_match() {
    // The matched node_modules has a whole subtree below it, with a further
    // node_modules nested inside; pruning must report only the outer one.
    let inner = node("custom_2_2", vec![leaf("node_modules")]);
    let tree = node("base", vec![node("custom_2", vec![node("node_modules", vec![inner])])]);
    let root = String::from("/base");
    assert_eq!(
        locate_in_tree(&tree, &root, true),
        vec![String::from("/base/custom_2/node_modules")]
    );
}

#[test]
fn test_exhaustive_reports_outer_and_nested_match() {
    // The exhaustive policy descends into matched directories as well, so it
    // reports the outer match first and the nested one after it.
    let inner = node("custom_2_2", vec![leaf("node_modules")]);
    let tree = node("base", vec![node("custom_2", vec![node("node_modules", vec![inner])])]);
    let root = String::from("/base");
    let result = locate_in_tree(&tree, &root, false);
    let outer = String::from("/base/custom_2/node_modules");
    let nested = String::from("/base/custom_2/node_modules/custom_2_2/node_modules");
    assert!(result.contains(&outer));
    assert_eq!(result, vec![outer, nested]);
}

#[test]
fn test_policies_agree_without_nesting() {
    let tree = node(
        "base",
        vec![
            node("app_a", vec![leaf("node_modules"), leaf("src")]),
            node("app_b", vec![leaf("src")]),
            node("app_c", vec![leaf("node_modules")]),
        ],
    );
    let root = String::from("/base");
    let expected = vec![
        String::from("/base/app_a/node_modules"),
        String::from("/base/app_c/node_modules"),
    ];
    assert_eq!(locate_in_tree(&tree, &root, true), expected);
    assert_eq!(locate_in_tree(&tree, &root, false), expected);
}
