use cc_sandbox::path::FsPath;
use std::path::Path;

/// All names up to a length over a few telling characters.
fn names(longest: usize) -> Vec<String> {
    let mut all = vec![String::new()];
    let mut last = all.clone();
    for _ in 0..longest {
        let mut next = Vec::new();
        for name in &last {
            for c in ['/', '.', 'a'] {
                next.push(format!("{name}{c}"));
            }
        }
        all.extend(next.clone());
        last = next;
    }
    all
}

fn text(path: &FsPath) -> String {
    String::from_utf8(path.bytes.clone()).unwrap()
}

#[test]
fn parents_and_file_names_are_those_of_std() {
    for name in names(7) {
        let ours = FsPath::from_text(&name);
        let theirs = Path::new(&name);
        assert_eq!(
            ours.parent().map(|p| text(&p)),
            theirs.parent().map(|p| p.to_str().unwrap().to_string()),
            "parent of {name:?}"
        );
        assert_eq!(
            ours.file_name().map(|p| text(&p)),
            theirs.file_name().map(|p| p.to_str().unwrap().to_string()),
            "file name of {name:?}"
        );
        assert_eq!(ours.is_absolute(), theirs.is_absolute(), "{name:?}");
        assert_eq!(ours.is_empty(), theirs.as_os_str().is_empty(), "{name:?}");
    }
}

#[test]
fn pairs_of_paths_behave_as_in_std() {
    let all = names(5);
    for a in &all {
        let ours = FsPath::from_text(a);
        let theirs = Path::new(a);
        for b in &all {
            let other = FsPath::from_text(b);
            assert_eq!(
                ours.starts_with(&other),
                theirs.starts_with(b),
                "{a:?} starts with {b:?}"
            );
            assert_eq!(ours.same(&other), theirs == Path::new(b), "{a:?} is {b:?}");
            assert_eq!(ours.same_name(&other), a == b);
            assert_eq!(
                text(&ours.join(&other)),
                theirs.join(b).to_str().unwrap(),
                "{b:?} in {a:?}"
            );
            assert_eq!(
                ours.strip_prefix(&other).map(|p| text(&p)),
                theirs
                    .strip_prefix(b)
                    .ok()
                    .map(|p| p.to_str().unwrap().to_string()),
                "{a:?} without {b:?}"
            );
        }
    }
}

#[test]
fn bytes_that_are_no_text_are_shown_with_a_stand_in() {
    let path = FsPath::from_bytes(vec![b'/', b'a', 0xff, b'b']);
    assert_eq!(path.display(), "/a\u{fffd}b");
    assert_eq!(FsPath::from_text("/home/Å").display(), "/home/Å");
}

#[test]
fn a_path_without_a_parent_has_the_empty_one() {
    assert_eq!(FsPath::from_text("/").parent_or_empty().display(), "");
    assert_eq!(FsPath::from_text("/a/b").parent_or_empty().display(), "/a");
    assert_eq!(FsPath::from_text("/a").join_name("b c").display(), "/a/b c");
}
