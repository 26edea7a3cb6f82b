use cc_sandbox::config::{Config, FilesystemEntry};
use cc_sandbox::name::{error_message, name_candidates, resolve_name, suggest_names, NameError};
use cc_sandbox::path::FsPath;
use cc_sandbox::shadow::shadow_path_with;

fn path(name: &str) -> FsPath {
    FsPath::from_text(name)
}

fn paths(names: &[&str]) -> Vec<FsPath> {
    names.iter().map(|n| path(n)).collect()
}

fn config(roots: &[&str]) -> Config {
    let mut config = Config::for_agent("agent");
    for root in roots {
        config.filesystem.push(FilesystemEntry {
            mount_point: path("/"),
            device_id: 1,
            shadow_root: path(root),
        });
    }
    config
}

#[test]
fn a_leaf_name_is_matched_whole() {
    let known = config(&["/a/s", "/b/s"]);
    let listings = vec![
        paths(&["/a/s/p-one", "/a/s/x/p-two"]),
        paths(&["/b/s/p-three"]),
    ];
    let found = |name: &str| resolve_name(name, &known, &vec![], &listings);
    assert_eq!(found("p-two").unwrap().display(), "/a/s/x/p-two");
    assert_eq!(found("p-three").unwrap().display(), "/b/s/p-three");
    assert!(matches!(found("p-"), Err(NameError::NotFound)));
    assert!(matches!(found("p-ONE"), Err(NameError::NotFound)));
    assert!(matches!(found(""), Err(NameError::NotFound)));
}

#[test]
fn an_ambiguous_name_is_refused() {
    let known = config(&["/a/s", "/b/s"]);
    let listings = vec![
        paths(&["/a/s/one/p-same", "/a/s/two/p-same"]),
        paths(&["/b/s/p-other"]),
    ];
    match resolve_name("p-same", &known, &vec![], &listings) {
        Err(error @ NameError::Ambiguous(_)) => assert_eq!(
            error_message("p-same", &error, &listings),
            "Ambiguous name 'p-same' matches 2 shadows:\n  /a/s/one/p-same\n  /a/s/two/p-same\n\
             Use more of the path or the full name including the timestamp to disambiguate."
        ),
        other => panic!("{other:?}"),
    }
}

#[test]
fn a_relative_path_is_looked_up_under_each_root() {
    let known = config(&["/a/s", "/b/s"]);
    let candidates: Vec<String> = name_candidates("x/p-1", &known)
        .iter()
        .map(|p| p.display())
        .collect();
    assert_eq!(candidates, ["/a/s/x/p-1", "/b/s/x/p-1"]);
    assert!(name_candidates("p-1", &known).is_empty());

    let one = paths(&["/b/s/x/p-1/.cc-sandbox-meta.json"]);
    assert_eq!(
        resolve_name("x/p-1", &known, &one, &vec![]).unwrap().display(),
        "/b/s/x/p-1"
    );
    let both = paths(&[
        "/b/s/x/p-1/.cc-sandbox-meta.json",
        "/a/s/x/p-1/.cc-sandbox-meta.json",
    ]);
    match resolve_name("x/p-1", &known, &both, &vec![]) {
        Err(NameError::Ambiguous(places)) => assert_eq!(places.len(), 2),
        other => panic!("{other:?}"),
    }
    // A name with a slash is no leaf, whatever the shadows are called.
    let listings = vec![paths(&["/a/s/x/p-1"]), vec![]];
    assert!(matches!(
        resolve_name("x/p-1", &known, &vec![], &listings),
        Err(NameError::NotFound)
    ));
}

#[test]
fn an_absolute_path_outside_the_roots_means_nothing() {
    let known = config(&["/a/s", "/b/s"]);
    let existing = paths(&[
        "/elsewhere/p/.cc-sandbox-meta.json",
        "/a/s/p/.cc-sandbox-meta.json",
    ]);
    assert!(name_candidates("/elsewhere/p", &known).is_empty());
    assert!(matches!(
        resolve_name("/elsewhere/p", &known, &existing, &vec![]),
        Err(NameError::NotFound)
    ));
    assert!(matches!(
        resolve_name("/a/sx/p", &known, &existing, &vec![]),
        Err(NameError::NotFound)
    ));
    assert_eq!(
        resolve_name("/a/s/p", &known, &existing, &vec![]).unwrap().display(),
        "/a/s/p"
    );
}

#[test]
fn a_shadow_found_twice_is_one_shadow() {
    // Two filesystems share a root, and a third root lies within it.
    let known = config(&["/r", "/r", "/r/x"]);
    let listings = vec![
        paths(&["/r/x/p-1", "/r/p-2"]),
        paths(&["/r/x/p-1", "/r/p-2"]),
        paths(&["/r/x//p-1"]),
    ];
    let found = |name: &str| resolve_name(name, &known, &vec![], &listings);
    assert_eq!(found("p-1").unwrap().display(), "/r/x/p-1");
    assert_eq!(found("p-2").unwrap().display(), "/r/p-2");
    let existing = paths(&["/r/x/p-1/.cc-sandbox-meta.json"]);
    assert_eq!(
        resolve_name("x/p-1", &known, &existing, &vec![]).unwrap().display(),
        "/r/x/p-1"
    );
}

#[test]
fn the_order_of_the_roots_does_not_decide() {
    let one = paths(&["/a/p", "/a/q"]);
    let two = paths(&["/b/p"]);
    let again = || (paths(&["/a/q", "/a/p"]), paths(&["/b/p"]));
    let here = config(&["/a", "/b"]);
    let there = config(&["/b", "/a"]);
    let (a, b) = again();
    let first = vec![one, two];
    let second = vec![b, a];
    for name in ["q", "none"] {
        let x = resolve_name(name, &here, &vec![], &first).map(|p| p.display()).ok();
        let y = resolve_name(name, &there, &vec![], &second).map(|p| p.display()).ok();
        assert_eq!(x, y);
    }
    for (known, listings) in [(&here, &first), (&there, &second)] {
        assert!(matches!(
            resolve_name("p", known, &vec![], listings),
            Err(NameError::Ambiguous(_))
        ));
    }
}

#[test]
fn close_names_are_suggested() {
    let listings = vec![
        paths(&["/a/s/project-auth", "/a/s/auth/other"]),
        paths(&["/b/s/auth-2"]),
    ];
    let close = suggest_names("auth", &listings);
    assert_eq!(close, ["project-auth", "auth-2"]);
    assert_eq!(
        error_message("auth", &NameError::NotFound, &listings),
        "No shadow named 'auth' found. Did you mean one of these?\n  project-auth\n  auth-2"
    );
    assert_eq!(
        error_message("zzz", &NameError::NotFound, &listings),
        "No shadow named 'zzz' found. Run `cc-sandbox list` to see all shadows."
    );
}

#[test]
fn a_new_shadow_is_found_by_its_name() {
    let known = config(&["/data/s"]);
    let place =
        shadow_path_with(&path("/data/s"), &path("/data"), &path("/data/x/proj"), "auth").unwrap();
    let listings = vec![vec![place]];
    assert_eq!(
        resolve_name("proj-auth", &known, &vec![], &listings)
            .unwrap()
            .display(),
        "/data/s/x/proj-auth"
    );
}
