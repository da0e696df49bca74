use github_cli::remote::{wiki_page_file, wiki_page_slugs};
use github_cli::remote::{
    find_secret_id, plan_tree, secret_key, title_from_slug, wiki_page_title, SecretListItem,
    TreeAction, TreeNode,
};

fn node(path: Option<&str>, kind: Option<&str>, content: Option<&str>, children: Option<Vec<TreeNode>>) -> TreeNode {
    TreeNode {
        path: path.map(|s| s.to_string()),
        kind: kind.map(|s| s.to_string()),
        content: content.map(|s| s.to_string()),
        children,
    }
}

#[test]
fn tree_plan_in_order() {
    let tree = vec![
        node(Some("src"), Some("dir"), None, Some(vec![
            node(Some("src/main.rs"), Some("file"), Some("fn main() {}"), None),
            node(Some("src/empty.txt"), Some("file"), None, None),
        ])),
        node(Some("link"), Some("symlink"), Some("x"), None),
        node(Some("README.md"), Some("file"), Some("# hi"), None),
    ];
    let plan = plan_tree(&tree);
    assert_eq!(plan.error, None);
    assert_eq!(plan.actions, vec![
        TreeAction::MakeDir { path: "src".to_string() },
        TreeAction::WriteFile { path: "src/main.rs".to_string(), content: "fn main() {}".to_string() },
        TreeAction::WriteFile { path: "src/empty.txt".to_string(), content: "".to_string() },
        TreeAction::WriteFile { path: "README.md".to_string(), content: "# hi".to_string() },
    ]);
}

#[test]
fn tree_plan_stops_at_first_bad_node() {
    let tree = vec![
        node(Some("a.txt"), Some("file"), Some("A"), None),
        node(Some("d"), Some("dir"), None, Some(vec![node(Some("d/x"), None, None, None)])),
        node(Some("b.txt"), Some("file"), Some("B"), None),
    ];
    let plan = plan_tree(&tree);
    assert_eq!(plan.error, Some("Node type missing".to_string()));
    assert_eq!(plan.actions, vec![
        TreeAction::WriteFile { path: "a.txt".to_string(), content: "A".to_string() },
        TreeAction::MakeDir { path: "d".to_string() },
    ]);
    let plan2 = plan_tree(&vec![node(None, Some("file"), None, None)]);
    assert_eq!(plan2.error, Some("Node path missing".to_string()));
    assert!(plan2.actions.is_empty());
}

#[test]
fn dir_without_children_list() {
    let plan = plan_tree(&vec![node(Some("d"), Some("dir"), None, None)]);
    assert_eq!(plan.actions, vec![TreeAction::MakeDir { path: "d".to_string() }]);
    assert_eq!(plan.error, None);
}

#[test]
fn titles_from_slugs() {
    assert_eq!(title_from_slug("getting-started"), "Getting Started");
    assert_eq!(title_from_slug("api_reference--v2"), "Api Reference V2");
    assert_eq!(title_from_slug(""), "");
    assert_eq!(title_from_slug("éclair"), "Éclair");
}

#[test]
fn wiki_titles_only_for_markdown() {
    assert_eq!(wiki_page_title("home.md"), Some("Home".to_string()));
    assert_eq!(wiki_page_title("how-to.setup.md"), Some("How To.setup".to_string()));
    assert_eq!(wiki_page_title("notes.txt"), None);
    assert_eq!(wiki_page_title(".md"), None);
    assert_eq!(wiki_page_title("README"), None);
}

#[test]
fn secrets_are_found_by_upper_case_name() {
    assert_eq!(secret_key("api_key"), "API_KEY");
    let secrets = vec![
        SecretListItem { id: "1".to_string(), name: "TOKEN".to_string(), created_at: "t".to_string() },
        SecretListItem { id: "2".to_string(), name: "API_KEY".to_string(), created_at: "t".to_string() },
        SecretListItem { id: "3".to_string(), name: "API_KEY".to_string(), created_at: "t".to_string() },
    ];
    assert_eq!(find_secret_id(&secrets, "api_key"), Ok("2".to_string()));
    assert_eq!(
        find_secret_id(&secrets, "missing"),
        Err("Secret 'MISSING' not found in this repository.".to_string())
    );
    assert_eq!(
        find_secret_id(&Vec::new(), "x"),
        Err("Secret 'X' not found in this repository.".to_string())
    );
}

#[test]
fn tree_plans_concatenate() {
    let a = || vec![node(Some("a.txt"), Some("file"), Some("A"), None)];
    let b = || vec![node(Some("d"), Some("dir"), None, None), node(Some("d/b.txt"), Some("file"), Some("B"), None)];
    let mut ab = a();
    ab.extend(b());
    let whole = plan_tree(&ab);
    let mut parts = plan_tree(&a()).actions;
    parts.extend(plan_tree(&b()).actions);
    assert_eq!(whole.actions, parts);
    assert_eq!(whole.error, None);

    let bad = || vec![node(None, Some("file"), None, None)];
    let mut bad_then_b = bad();
    bad_then_b.extend(b());
    assert_eq!(plan_tree(&bad_then_b), plan_tree(&bad()));
}

#[test]
fn wiki_pages_to_pull() {
    assert_eq!(wiki_page_slugs(None), Err("Invalid wiki pages format from server.".to_string()));
    assert_eq!(
        wiki_page_slugs(Some(vec![Some("home".to_string()), Some("setup".to_string())])),
        Ok((vec!["home".to_string(), "setup".to_string()], None))
    );
    assert_eq!(
        wiki_page_slugs(Some(vec![Some("home".to_string()), None, Some("later".to_string())])),
        Ok((vec!["home".to_string()], Some("Missing page slug".to_string())))
    );
    assert_eq!(wiki_page_slugs(Some(vec![])), Ok((vec![], None)));
    assert_eq!(
        wiki_page_file("home", true, Some("# Home".to_string())),
        Some(("home.md".to_string(), "# Home".to_string()))
    );
    assert_eq!(wiki_page_file("home", false, Some("# Home".to_string())), None);
    assert_eq!(wiki_page_file("home", true, None), None);
}
