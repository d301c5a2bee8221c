use sovereign::watcher::{
    admits, ancestors, index_command, is_skipped_directory, marker_paths, project_root,
    root_markers, should_index, Coalescer, IncrementalIndexer, DEBOUNCE_MS,
};

fn strings(items: &[&str]) -> Vec<String> {
    items.iter().map(|s| s.to_string()).collect()
}

#[test]
fn paths_that_count() {
    assert!(should_index("/home/u/project/src/main.rs"));
    assert!(should_index("src/App.TSX"));
    assert!(should_index("notes/todo.txt"));
    assert!(should_index("README.md"));
    assert!(should_index("conf/settings.yaml"));
    assert!(IncrementalIndexer::should_index("a/b/c.py"));
    assert!(should_index("src/a.cc"));
    assert!(should_index("src/a.cpp"));
    assert!(should_index("include/a.HPP"));
}

#[test]
fn paths_that_do_not_count() {
    assert!(!should_index("/home/u/project/.env"));
    assert!(!should_index("/home/u/project/.hidden.rs"));
    assert!(!should_index("/home/u/project/node_modules/pkg/index.js"));
    assert!(!should_index("target/debug/build.rs"));
    assert!(!should_index("app/dist/bundle.js"));
    assert!(!should_index("x/.git/config.toml"));
    assert!(!should_index("x/__pycache__/m.py"));
    assert!(!should_index("venv/lib/site.py"));
    assert!(!should_index(".venv/lib/site.py"));
    assert!(!should_index("build/out.c"));
    assert!(!should_index("src/main"));
    assert!(!should_index("src/image.png"));
    assert!(!should_index("src/lib.rs.bak"));
    assert!(!should_index(""));
    assert!(!IncrementalIndexer::should_index("node_modules/a.js"));
}

#[test]
fn admission_by_parts() {
    let name = Some("main.rs".to_string());
    let rs = Some("rs".to_string());
    assert!(admits(&name, &strings(&["src", "main.rs"]), &rs));
    assert!(admits(&None, &Vec::new(), &rs));
    assert!(!admits(&Some(".main.rs".to_string()), &strings(&["src"]), &rs));
    assert!(!admits(&name, &strings(&["src", "target", "main.rs"]), &rs));
    assert!(!admits(&name, &strings(&["src"]), &None));
    assert!(!admits(&name, &strings(&["src"]), &Some("exe".to_string())));
    assert!(!admits(&name, &strings(&["src"]), &Some("RS".to_string())));
    assert!(admits(&name, &strings(&["targets", "Build"]), &Some("svelte".to_string())));
    assert!(is_skipped_directory("node_modules"));
    assert!(is_skipped_directory(".venv"));
    assert!(!is_skipped_directory("src"));
    assert!(!is_skipped_directory("Target"));
}

#[test]
fn a_burst_brings_one_request() {
    let mut coalescer = Coalescer::new(1_000);
    assert_eq!(coalescer.on_tick(1_600), None);
    coalescer.on_paths(&strings(&["/p/src/a.rs", "/p/.git/index", "/p/src/b.rs"]), 2_000);
    assert_eq!(coalescer.on_tick(2_100), None);
    coalescer.on_paths(&strings(&["/p/src/a.rs"]), 2_200);
    coalescer.on_paths(&strings(&["/p/src/c.rs", "/p/target/x.rs"]), 2_400);
    assert_eq!(coalescer.pending, strings(&["/p/src/a.rs", "/p/src/b.rs", "/p/src/c.rs"]));
    assert_eq!(coalescer.last_event, 2_400);
    assert_eq!(coalescer.on_tick(2_600), None);
    assert_eq!(coalescer.on_tick(2_400 + DEBOUNCE_MS - 1), None);
    assert_eq!(coalescer.on_tick(2_400 + DEBOUNCE_MS), Some("/p/src/a.rs".to_string()));
    assert!(coalescer.pending.is_empty());
    assert_eq!(coalescer.on_tick(3_400), None);
    assert_eq!(coalescer.on_tick(9_000), None);
}

#[test]
fn events_without_admitted_paths_still_move_the_clock() {
    let mut coalescer = Coalescer::new(0);
    coalescer.on_admitted(&strings(&["a.rs"]), 100);
    coalescer.on_paths(&strings(&["node_modules/x.js"]), 550);
    assert_eq!(coalescer.pending, strings(&["a.rs"]));
    assert_eq!(coalescer.on_tick(600), None);
    assert_eq!(coalescer.on_tick(1_049), None);
    assert_eq!(coalescer.on_tick(1_050), Some("a.rs".to_string()));
    coalescer.on_admitted(&strings(&["b.rs", "b.rs"]), 2_000);
    assert_eq!(coalescer.pending, strings(&["b.rs"]));
    assert_eq!(coalescer.on_tick(1_000), None);
}

#[test]
fn the_root_of_a_project() {
    let above = strings(&["/p/src/deep", "/p/src", "/p", "/"]);
    assert_eq!(project_root("/p/src/deep/a.rs", &above, &vec![false, false, true, false]), "/p");
    assert_eq!(project_root("/p/src/deep/a.rs", &above, &vec![true, false, true, true]), "/p/src/deep");
    assert_eq!(project_root("/p/src/deep/a.rs", &above, &vec![false, false, false, false]), "/");
    assert_eq!(project_root("a.rs", &Vec::new(), &Vec::new()), "a.rs");
    assert_eq!(index_command("/p"), "/index /p");
    assert_eq!(index_command(""), "/index ");
}

#[test]
fn markers_and_ancestors() {
    assert_eq!(root_markers(), strings(&["Cargo.toml", "package.json", ".git", "pyproject.toml"]));
    let under: Vec<String> = marker_paths("/p");
    assert_eq!(under.len(), 4);
    for (path, name) in under.iter().zip(root_markers()) {
        assert_eq!(std::path::Path::new(path), std::path::Path::new("/p").join(name));
    }
    for path in ["/p/src/a.rs", "a/b/c", "./x/y.rs", "/", "", "a", "/a//b/./c/", "../up/x"] {
        let expected: Vec<String> = std::path::Path::new(path)
            .ancestors()
            .skip(1)
            .map(|p| p.to_string_lossy().into_owned())
            .collect();
        assert_eq!(ancestors(path), expected, "above {:?}", path);
    }
    assert_eq!(ancestors("/p/src/a.rs"), strings(&["/p/src", "/p", "/"]));
    assert_eq!(ancestors("a.rs"), strings(&[""]));
    assert_eq!(ancestors("./x/y.rs"), strings(&["./x", ".", ""]));
    assert!(ancestors("").is_empty());
    assert!(ancestors("/").is_empty());
}

#[test]
fn steady_ticks_bring_the_request_within_a_second() {
    for first in [0_u64, 1, 250, 499, 500] {
        for step in [1_u64, 7, 123, 499, 500] {
            let last_change: u64 = 10_000;
            let mut coalescer = Coalescer::new(0);
            coalescer.on_paths(&strings(&["/p/src/a.rs"]), last_change);
            let mut now = last_change + first;
            let mut requests = Vec::new();
            while now < last_change + 3_000 {
                if let Some(path) = coalescer.on_tick(now) {
                    requests.push((now, path));
                }
                now += step;
            }
            assert_eq!(requests.len(), 1);
            assert_eq!(requests[0].1, "/p/src/a.rs");
            assert!(requests[0].0 >= last_change + DEBOUNCE_MS);
            assert!(requests[0].0 < last_change + 1_000);
        }
    }
}
