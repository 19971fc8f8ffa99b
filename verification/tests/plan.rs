use installer::command::K8sCommand;
use installer::plan::{blobs, crd_url, definition_url, drop_skipped, plan, skips};
use installer::plan::{sort_by_path, tree_url};
use installer::tree::{clone_entries, Tree, TreeDefinition};

fn entry(path: &str, file_type: &str) -> TreeDefinition {
    TreeDefinition {
        path: path.to_string(),
        url: format!("https://api.example/blobs/{}", path),
        file_type: file_type.to_string(),
    }
}

fn listing(entries: Vec<TreeDefinition>) -> Tree {
    Tree { tree: entries, url: "https://api.example/trees/1".to_string() }
}

fn paths(entries: &[TreeDefinition]) -> Vec<&str> {
    entries.iter().map(|entry| entry.path.as_str()).collect()
}

#[test]
fn tree_url_joins_interface_and_revision() {
    assert_eq!(
        tree_url(),
        "https://api.github.com/repos/Xabaril/AspNetCore.Diagnostics.HealthChecks/git/trees/31bb25e1778dd3af99501ca457d0ef653ea31618"
    );
}

#[test]
fn crd_url_points_below_the_raw_root() {
    assert_eq!(
        crd_url(),
        "https://raw.githubusercontent.com/Xabaril/AspNetCore.Diagnostics.HealthChecks/master/deploy/operator/crd/healthcheck-crd.yaml"
    );
}

#[test]
fn definition_url_points_below_the_operator_directory() {
    assert_eq!(
        definition_url("a.yaml"),
        "https://raw.githubusercontent.com/Xabaril/AspNetCore.Diagnostics.HealthChecks/master/deploy/operator/a.yaml"
    );
    assert_eq!(
        definition_url("definitions/00-namespace.yaml"),
        "https://raw.githubusercontent.com/Xabaril/AspNetCore.Diagnostics.HealthChecks/master/deploy/operator/definitions/00-namespace.yaml"
    );
    assert_eq!(
        definition_url(""),
        "https://raw.githubusercontent.com/Xabaril/AspNetCore.Diagnostics.HealthChecks/master/deploy/operator/"
    );
}

#[test]
fn delete_skips_locators_with_the_mark() {
    assert!(skips(K8sCommand::Delete, &definition_url("00-namespace.yaml")));
    assert!(skips(K8sCommand::Delete, &definition_url("namespaces/role.yaml")));
    assert!(skips(K8sCommand::Delete, "namespace"));
    assert!(!skips(K8sCommand::Delete, &definition_url("deployment.yaml")));
    assert!(!skips(K8sCommand::Delete, &definition_url("Namespace.yaml")));
    assert!(!skips(K8sCommand::Delete, ""));
}

#[test]
fn apply_skips_nothing() {
    assert!(!skips(K8sCommand::Apply, &definition_url("00-namespace.yaml")));
    assert!(!skips(K8sCommand::Apply, "namespace"));
    assert!(!skips(K8sCommand::Apply, &definition_url("deployment.yaml")));
}

#[test]
fn blobs_keeps_exactly_the_files() {
    let tree = listing(vec![
        entry("crd", "tree"),
        entry("b.yaml", "blob"),
        entry("link", "commit"),
        entry("a.yaml", "blob"),
        entry("odd", "Blob"),
        entry("none", ""),
    ]);
    let files = blobs(tree);
    assert_eq!(paths(&files), vec!["b.yaml", "a.yaml"]);
    assert!(files.iter().all(|file| file.file_type == "blob"));
    assert_eq!(files[0].url, "https://api.example/blobs/b.yaml");
}

#[test]
fn blobs_of_an_empty_listing_is_empty() {
    assert!(blobs(listing(vec![])).is_empty());
    assert!(blobs(listing(vec![entry("dir", "tree")])).is_empty());
}

#[test]
fn sort_by_path_orders_the_example() {
    let sorted = sort_by_path(vec![entry("b.yaml", "blob"), entry("a.yaml", "blob")]);
    assert_eq!(paths(&sorted), vec!["a.yaml", "b.yaml"]);
}

#[test]
fn sort_by_path_orders_by_bytes() {
    let sorted = sort_by_path(vec![
        entry("service.yaml", "blob"),
        entry("10-role.yaml", "blob"),
        entry("Deployment.yaml", "blob"),
        entry("2-account.yaml", "blob"),
        entry("deployment.yaml", "blob"),
        entry("\u{e9}.yaml", "blob"),
        entry("deploy", "blob"),
    ]);
    assert_eq!(
        paths(&sorted),
        vec![
            "10-role.yaml",
            "2-account.yaml",
            "Deployment.yaml",
            "deploy",
            "deployment.yaml",
            "service.yaml",
            "\u{e9}.yaml",
        ]
    );
}

#[test]
fn sort_by_path_agrees_with_a_stable_sort() {
    let names = ["m", "c", "x", "a", "c", "b", "m", "a", "zz", "z", "", "c"];
    let entries: Vec<TreeDefinition> = names
        .iter()
        .enumerate()
        .map(|(i, name)| TreeDefinition {
            path: name.to_string(),
            url: i.to_string(),
            file_type: "blob".to_string(),
        })
        .collect();
    let mut expected = clone_entries(&entries);
    expected.sort_by(|a, b| a.path.cmp(&b.path));
    let sorted = sort_by_path(entries);
    assert_eq!(sorted.len(), expected.len());
    for (got, want) in sorted.iter().zip(expected.iter()) {
        assert_eq!(got.path, want.path);
        assert_eq!(got.url, want.url);
    }
}

#[test]
fn sort_by_path_keeps_sorted_and_empty_input() {
    assert!(sort_by_path(vec![]).is_empty());
    let sorted = sort_by_path(vec![entry("a", "blob"), entry("b", "blob"), entry("c", "blob")]);
    assert_eq!(paths(&sorted), vec!["a", "b", "c"]);
    let sorted = sort_by_path(vec![entry("c", "blob"), entry("b", "blob"), entry("a", "blob")]);
    assert_eq!(paths(&sorted), vec!["a", "b", "c"]);
}

#[test]
fn drop_skipped_removes_marked_entries_on_delete_only() {
    let entries = vec![
        entry("00-namespace.yaml", "blob"),
        entry("deployment.yaml", "blob"),
        entry("my-namespaces.yaml", "blob"),
    ];
    let kept = drop_skipped(K8sCommand::Delete, clone_entries(&entries));
    assert_eq!(paths(&kept), vec!["deployment.yaml"]);
    let kept = drop_skipped(K8sCommand::Apply, entries);
    assert_eq!(paths(&kept), vec!["00-namespace.yaml", "deployment.yaml", "my-namespaces.yaml"]);
}

#[test]
fn plan_for_apply_is_every_file_in_path_order() {
    let tree = listing(vec![
        entry("service.yaml", "blob"),
        entry("crd", "tree"),
        entry("namespace.yaml", "blob"),
        entry("deployment.yaml", "blob"),
    ]);
    let planned = plan(K8sCommand::Apply, tree);
    assert_eq!(paths(&planned), vec!["deployment.yaml", "namespace.yaml", "service.yaml"]);
}

#[test]
fn plan_for_delete_leaves_marked_files_out() {
    let tree = listing(vec![
        entry("service.yaml", "blob"),
        entry("crd", "tree"),
        entry("namespace.yaml", "blob"),
        entry("deployment.yaml", "blob"),
        entry("namespaced", "tree"),
    ]);
    let planned = plan(K8sCommand::Delete, tree);
    assert_eq!(paths(&planned), vec!["deployment.yaml", "service.yaml"]);
}

#[test]
fn plan_of_a_listing_without_files_is_empty() {
    assert!(plan(K8sCommand::Apply, listing(vec![])).is_empty());
    assert!(plan(K8sCommand::Delete, listing(vec![entry("namespace.yaml", "blob")])).is_empty());
}

#[test]
fn clones_keep_every_field() {
    let tree = listing(vec![entry("b.yaml", "blob"), entry("dir", "tree")]);
    let copy = tree.clone();
    assert_eq!(copy.url, tree.url);
    assert_eq!(copy.tree.len(), 2);
    for (got, want) in copy.tree.iter().zip(tree.tree.iter()) {
        assert_eq!(got.path, want.path);
        assert_eq!(got.url, want.url);
        assert_eq!(got.file_type, want.file_type);
    }
    assert!(tree.tree[0].is_blob());
    assert!(!tree.tree[1].is_blob());
}

/// A listing made from `seed`: paths over a few letters and pieces, so that
/// equal paths, prefixes and the mark all occur, and kinds of every sort.
fn generated(seed: u64, len: usize) -> Vec<TreeDefinition> {
    let pieces = ["a", "b", "name", "space", "namespace", "/", ".yaml", "B", "\u{e9}", ""];
    let kinds = ["blob", "tree", "blob", "commit", "blob", "blobs"];
    let mut state = seed;
    let mut next = move || {
        state = state.wrapping_mul(6364136223846793005).wrapping_add(1442695040888963407);
        (state >> 33) as usize
    };
    let mut entries = Vec::new();
    for i in 0..len {
        let mut path = String::new();
        for _ in 0..next() % 4 {
            path.push_str(pieces[next() % pieces.len()]);
        }
        entries.push(TreeDefinition {
            path,
            url: i.to_string(),
            file_type: kinds[next() % kinds.len()].to_string(),
        });
    }
    entries
}

#[test]
fn plan_agrees_with_filter_sort_and_skip() {
    for seed in 0..200u64 {
        let entries = generated(seed, (seed % 13) as usize);
        for command in [K8sCommand::Apply, K8sCommand::Delete] {
            let mut expected: Vec<TreeDefinition> = clone_entries(&entries)
                .into_iter()
                .filter(|entry| entry.file_type == "blob")
                .collect();
            expected.sort_by(|a, b| a.path.cmp(&b.path));
            expected.retain(|entry| {
                !(command == K8sCommand::Delete
                    && definition_url(&entry.path).contains("namespace"))
            });
            let planned = plan(command, listing(clone_entries(&entries)));
            assert_eq!(planned.len(), expected.len(), "seed {}", seed);
            for (got, want) in planned.iter().zip(expected.iter()) {
                assert_eq!(got.path, want.path, "seed {}", seed);
                assert_eq!(got.url, want.url, "seed {}", seed);
                assert_eq!(got.file_type, "blob");
            }
        }
    }
}
