use mofi::discovery::{AppInfo, FsEntry, FsNode, FsRoot};

fn file(name: &str) -> FsEntry {
    FsEntry { name: name.to_string(), node: FsNode::File }
}

fn dir(name: &str, children: Vec<FsEntry>) -> FsEntry {
    FsEntry { name: name.to_string(), node: FsNode::Dir(children) }
}

fn root(path: &str, entries: Vec<FsEntry>) -> FsRoot {
    FsRoot { path: path.to_string(), entries }
}

fn list(roots: Vec<FsRoot>) -> Vec<AppInfo> {
    mofi::discovery::list_apps_from_tree(&roots)
}

fn names(apps: &[AppInfo]) -> Vec<String> {
    apps.iter().map(|a| a.name.clone()).collect()
}

fn paths(apps: &[AppInfo]) -> Vec<String> {
    apps.iter().map(|a| a.path.clone()).collect()
}

#[test]
fn top_level_bundles_found_exactly() {
    let roots = vec![root(
        "/Applications",
        vec![
            dir("Alpha.app", vec![file("inner")]),
            file("notes.txt"),
            dir("Beta.app", vec![]),
            dir("Plain", vec![file("readme")]),
            dir("Gamma.app", vec![]),
        ],
    )];
    let apps = list(roots);
    assert_eq!(names(&apps), vec!["Alpha", "Beta", "Gamma"]);
    assert_eq!(
        paths(&apps),
        vec![
            "/Applications/Alpha.app",
            "/Applications/Beta.app",
            "/Applications/Gamma.app"
        ]
    );
}

#[test]
fn output_sorted_for_any_input_order() {
    let roots = vec![root(
        "/Applications",
        vec![
            dir("Zed.app", vec![]),
            dir("alpha.app", vec![]),
            dir("Beta.app", vec![]),
        ],
    )];
    let apps = list(roots);
    // ordinal, case-sensitive: upper-case letters sort before lower-case
    assert_eq!(names(&apps), vec!["Beta", "Zed", "alpha"]);
}

#[test]
fn bundle_nested_one_level_found() {
    let roots = vec![root(
        "/Applications",
        vec![dir("Folder", vec![dir("App.app", vec![])])],
    )];
    let apps = list(roots);
    assert_eq!(names(&apps), vec!["App"]);
    assert_eq!(paths(&apps), vec!["/Applications/Folder/App.app"]);
}

#[test]
fn bundle_nested_two_levels_found_when_level_one_empty() {
    let roots = vec![root(
        "/Applications",
        vec![dir(
            "Outer",
            vec![dir("Inner", vec![dir("Deep.app", vec![])]), file("stray")],
        )],
    )];
    let apps = list(roots);
    assert_eq!(names(&apps), vec!["Deep"]);
    assert_eq!(paths(&apps), vec!["/Applications/Outer/Inner/Deep.app"]);
}

#[test]
fn sibling_bundle_stops_deeper_recursion() {
    let roots = vec![root(
        "/Applications",
        vec![dir(
            "Outer",
            vec![
                dir("Shallow.app", vec![]),
                dir("Sub", vec![dir("Deep.app", vec![])]),
            ],
        )],
    )];
    let apps = list(roots);
    assert_eq!(names(&apps), vec!["Shallow"]);
    assert_eq!(paths(&apps), vec!["/Applications/Outer/Shallow.app"]);
}

#[test]
fn hidden_directories_skipped() {
    let roots = vec![root(
        "/Applications",
        vec![dir(".hidden", vec![dir("Secret.app", vec![])])],
    )];
    let apps = list(roots);
    assert!(apps.is_empty());
}

#[test]
fn bundle_named_file_counts() {
    let roots = vec![root("/Applications", vec![file("Loose.app")])];
    let apps = list(roots);
    assert_eq!(names(&apps), vec!["Loose"]);
    assert_eq!(paths(&apps), vec!["/Applications/Loose.app"]);
}

#[test]
fn repeated_suffix_fully_stripped() {
    let roots = vec![root("/Applications", vec![dir("Weird.app.app", vec![])])];
    let apps = list(roots);
    assert_eq!(names(&apps), vec!["Weird"]);
    assert_eq!(paths(&apps), vec!["/Applications/Weird.app.app"]);
}

#[test]
fn several_roots_combined_and_sorted() {
    let roots = vec![
        root("/System/Applications", vec![dir("Calc.app", vec![])]),
        root("/Applications", vec![dir("Browser.app", vec![])]),
    ];
    let apps = list(roots);
    assert_eq!(names(&apps), vec!["Browser", "Calc"]);
    assert_eq!(
        paths(&apps),
        vec!["/Applications/Browser.app", "/System/Applications/Calc.app"]
    );
}

#[test]
fn empty_tree_yields_nothing() {
    let apps = list(vec![root("/Applications", vec![])]);
    assert!(apps.is_empty());
}
