use github_cli::ignore::{classify_entry, parse_gitignore, should_ignore, EntryAction};

fn pats(v: &[&str]) -> Vec<String> {
    v.iter().map(|p| p.to_string()).collect()
}

#[test]
fn reserved_names_are_always_ignored() {
    let none: Vec<String> = Vec::new();
    assert!(should_ignore(".git", &none));
    assert!(should_ignore(".git/HEAD", &none));
    assert!(should_ignore("sub\\.git\\config", &none));
    assert!(should_ignore("config.toml", &none));
    assert!(should_ignore("a/.gh-repo.json", &none));
    assert!(!should_ignore("src/main.rs", &none));
    assert!(!should_ignore(".gitignore", &none));
}

#[test]
fn extension_patterns() {
    let p = pats(&["*.log"]);
    assert!(should_ignore("debug.log", &p));
    assert!(should_ignore("deep/dir/app.log", &p));
    assert!(!should_ignore("log.txt", &p));
    assert!(!should_ignore("catalog", &p));
    assert!(!should_ignore("src/catalog", &p));
    assert!(should_ignore("notes/app.log", &p));
    assert!(should_ignore(".log", &p));
}

#[test]
fn component_and_prefix_patterns() {
    let p = pats(&["node_modules/"]);
    assert!(should_ignore("node_modules", &p));
    assert!(should_ignore("web/node_modules/react/index.js", &p));
    assert!(should_ignore("node_modules_backup", &p));
    assert!(!should_ignore("src/lib.rs", &p));
    let q = pats(&["build"]);
    assert!(should_ignore("a/build", &q));
    assert!(should_ignore("a/build/out.o", &q));
    assert!(!should_ignore("a/rebuild.sh", &q));
}

#[test]
fn backslashes_count_as_slashes() {
    let p = pats(&["dist\\"]);
    assert!(should_ignore("web\\dist\\bundle.js", &p));
}

#[test]
fn adding_patterns_never_brings_a_path_back() {
    let p = pats(&["*.tmp"]);
    let pq = pats(&["*.tmp", "docs"]);
    for path in ["a.tmp", "docs/x.md", "src/a.rs", ".git/x"] {
        let in_p = should_ignore(path, &p);
        let in_pq = should_ignore(path, &pq);
        assert!(!in_p || in_pq);
    }
    assert!(!should_ignore("docs/x.md", &p));
    assert!(should_ignore("docs/x.md", &pq));
}

#[test]
fn classify_walked_entries() {
    let p = pats(&["target"]);
    assert_eq!(classify_entry("", &p, true), EntryAction::Skip);
    assert_eq!(classify_entry("target", &p, true), EntryAction::SkipDir);
    assert_eq!(classify_entry("target", &p, false), EntryAction::Skip);
    assert_eq!(classify_entry("src", &p, true), EntryAction::Include);
    assert_eq!(classify_entry("src/a.rs", &p, false), EntryAction::Include);
}

#[test]
fn gitignore_lines_become_patterns() {
    let text = "# deps\nnode_modules/\n\n  *.log  \r\n#x\ndist\n";
    assert_eq!(parse_gitignore(text), pats(&["node_modules/", "*.log", "dist"]));
    assert_eq!(parse_gitignore(""), Vec::<String>::new());
    assert_eq!(parse_gitignore("\n   \n"), Vec::<String>::new());
}

#[test]
fn normalized_forms_give_the_same_answer() {
    let raw = pats(&["build\\out//", "*.tmp"]);
    let clean = pats(&["build/out", "*.tmp"]);
    for path in ["build\\out\\a.o", "build/out/a.o", "src\\x.tmp", "src/x.rs", "a\\build\\out"] {
        let slashed = path.replace('\\', "/");
        assert_eq!(should_ignore(path, &raw), should_ignore(&slashed, &raw));
        assert_eq!(should_ignore(path, &raw), should_ignore(path, &clean));
    }
}
