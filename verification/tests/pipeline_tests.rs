use rust_repos::config::{split_tokens, Config};
use rust_repos::data::{Data, Forge, Repo};
use rust_repos::pipeline::{
    apply_tree, error_is_ignorable, has_target_language, pace_remainder, process_page,
    timeout_reached, GitHubErrorType, GraphLanguage, GraphLanguages, GraphRef, GraphRepository,
    RestRepository,
};
use rust_repos::PAGE_SIZE;

fn listed(id: usize, name: &str, node: &str, fork: bool) -> RestRepository {
    RestRepository {
        id,
        full_name: name.to_string(),
        node_id: node.to_string(),
        fork,
    }
}

#[test]
fn page_with_fork_advances_cursor_but_skips_fork() {
    // cursor starts at 0; the page lists ids 5 and 9, the second a fork
    let page = vec![listed(5, "o/a", "N5", false), listed(9, "o/b", "N9", true)];
    let o = process_page(0, Vec::new(), &page);
    assert_eq!(o.cursor, 9);
    assert!(o.batches.is_empty());
    assert_eq!(o.pending, vec!["N5".to_string()]);
    assert!(o.end_of_listing);
}

#[test]
fn cursor_never_decreases_across_pages() {
    let page1 = vec![listed(50, "o/a", "N50", false)];
    let o1 = process_page(0, Vec::new(), &page1);
    assert_eq!(o1.cursor, 50);
    let page2 = vec![listed(30, "o/old", "N30", false)];
    let o2 = process_page(o1.cursor, o1.pending, &page2);
    assert_eq!(o2.cursor, 50);
}

#[test]
fn full_batches_are_cut_at_page_size() {
    let mut page = Vec::new();
    for i in 0..250 {
        page.push(listed(i + 1, "o/r", &format!("N{i}"), false));
    }
    let o = process_page(0, Vec::new(), &page);
    assert_eq!(o.cursor, 250);
    assert_eq!(o.batches.len(), 2);
    assert_eq!(o.batches[0].len(), PAGE_SIZE);
    assert_eq!(o.batches[1].len(), PAGE_SIZE);
    assert_eq!(o.pending.len(), 50);
    assert_eq!(o.batches[0][0], "N0");
    assert_eq!(o.batches[1][0], "N100");
    assert_eq!(o.pending[0], "N200");
}

#[test]
fn pending_carries_over_between_pages() {
    let mut page1 = Vec::new();
    for i in 0..60 {
        page1.push(listed(i + 1, "o/r", &format!("A{i}"), false));
    }
    let o1 = process_page(0, Vec::new(), &page1);
    assert!(o1.batches.is_empty());
    assert_eq!(o1.pending.len(), 60);
    let mut page2 = Vec::new();
    for i in 0..60 {
        page2.push(listed(i + 100, "o/r", &format!("B{i}"), false));
    }
    let o2 = process_page(o1.cursor, o1.pending, &page2);
    assert_eq!(o2.batches.len(), 1);
    assert_eq!(o2.batches[0].len(), PAGE_SIZE);
    assert_eq!(o2.batches[0][0], "A0");
    assert_eq!(o2.batches[0][60], "B0");
    assert_eq!(o2.pending.len(), 20);
}

#[test]
fn forks_never_reach_a_batch() {
    let mut page = Vec::new();
    for i in 0..200 {
        // every other entry is a fork
        page.push(listed(i + 1, "o/r", &format!("N{i}"), i % 2 == 1));
    }
    let o = process_page(0, Vec::new(), &page);
    let mut dispatched: Vec<String> = Vec::new();
    for b in &o.batches {
        dispatched.extend(b.iter().cloned());
    }
    dispatched.extend(o.pending.iter().cloned());
    assert_eq!(dispatched.len(), 100);
    for id in dispatched {
        let n: usize = id[1..].parse().unwrap();
        assert_eq!(n % 2, 0, "fork {id} was dispatched");
    }
    assert_eq!(o.cursor, 200);
}

fn summary(langs: &[&str]) -> GraphRepository {
    GraphRepository {
        id: "NODE".to_string(),
        name_with_owner: "owner/repo".to_string(),
        default_branch_ref: Some(GraphRef { name: "main".to_string() }),
        languages: GraphLanguages {
            nodes: langs
                .iter()
                .map(|l| Some(GraphLanguage { name: l.to_string() }))
                .collect(),
        },
    }
}

#[test]
fn language_filter_requires_rust() {
    assert!(has_target_language(&summary(&["C", "Rust", "Shell"])));
    assert!(!has_target_language(&summary(&["C", "Python"])));
    assert!(!has_target_language(&summary(&[])));
    let mut with_hole = summary(&["Go"]);
    with_hole.languages.nodes.push(None);
    assert!(!has_target_language(&with_hole));
    with_hole.languages.nodes.push(Some(GraphLanguage { name: "Rust".to_string() }));
    assert!(has_target_language(&with_hole));
}

#[test]
fn into_repo_carries_identity() {
    let r = summary(&["Rust"]).into_repo(false, false);
    assert_eq!(r.id, "NODE");
    assert_eq!(r.name, "owner/repo");
    assert!(!r.has_cargo_toml);
    assert!(!r.has_cargo_lock);
}

#[test]
fn tree_marks_exact_paths_only() {
    let mut r: Repo = summary(&["Rust"]).into_repo(false, false);
    let tree = vec![
        "src/main.rs".to_string(),
        "Cargo.toml".to_string(),
        "sub/Cargo.lock".to_string(),
    ];
    apply_tree(&mut r, Some(&tree));
    assert!(r.has_cargo_toml);
    assert!(!r.has_cargo_lock, "nested path must not count as a marker");

    let tree2 = vec!["Cargo.lock".to_string(), "Cargo.toml".to_string()];
    apply_tree(&mut r, Some(&tree2));
    assert!(r.has_cargo_toml);
    assert!(r.has_cargo_lock);
}

#[test]
fn failed_tree_fetch_keeps_record_with_flags_false() {
    let mut r: Repo = summary(&["Rust"]).into_repo(false, false);
    apply_tree(&mut r, None);
    assert_eq!(r.name, "owner/repo");
    assert!(!r.has_cargo_toml);
    assert!(!r.has_cargo_lock);
}

#[test]
fn timeout_and_pacing() {
    assert!(!timeout_reached(None, 1_000_000));
    assert!(!timeout_reached(Some(60), 59));
    assert!(timeout_reached(Some(60), 60));
    assert_eq!(pace_remainder(0), 250);
    assert_eq!(pace_remainder(100), 150);
    assert_eq!(pace_remainder(250), 0);
    assert_eq!(pace_remainder(1000), 0);
}

#[test]
fn not_found_errors_are_ignorable() {
    assert!(error_is_ignorable(&GitHubErrorType::NotFound));
    assert!(!error_is_ignorable(&GitHubErrorType::Other("SERVICE_UNAVAILABLE".to_string())));
}

#[test]
fn scenario_one_page_with_fork_then_persist() {
    // cursor starts at 0; page 1 lists ids 5 and 9, the second a fork;
    // afterwards the cursor persists as 9 and only id 5 awaits enrichment
    let cfg = Config {
        github_token: vec!["t".to_string()],
        data_dir: ".".to_string(),
        timeout: None,
    };
    let mut d = Data::new(&cfg, None).unwrap();
    let page = vec![listed(5, "o/a", "N5", false), listed(9, "o/b", "N9", true)];
    let o = process_page(d.get_last_id(Forge::Github), Vec::new(), &page);
    let plan = d.set_last_id(Forge::Github, o.cursor);
    assert_eq!(d.get_last_id(Forge::Github), 9);
    assert_eq!(plan.checkpoint, b"{\n  \"Github\": 9\n}\n".to_vec());
    assert!(o.batches.is_empty());
    assert_eq!(o.pending, vec!["N5".to_string()]);
}

#[test]
fn token_list_splitting() {
    assert_eq!(split_tokens("a,b,c"), vec!["a", "b", "c"]);
    assert_eq!(split_tokens("single"), vec!["single"]);
    assert_eq!(split_tokens(""), vec![""]);
    assert_eq!(split_tokens("a,,b,"), vec!["a", "", "b", ""]);
}
