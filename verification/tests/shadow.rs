use cc_sandbox::moment::{Moment, LATEST};
use cc_sandbox::path::FsPath;
use cc_sandbox::shadow::{
    change_summary, compute_shadow_path, measure_invocation, merge_invocation, meta_at, meta_path,
    new_meta, shadow_path_at, shadow_path_message, shadow_path_with, ChangeSummary,
    ShadowPathError,
};
use chrono::DateTime;

fn path(name: &str) -> FsPath {
    FsPath::from_text(name)
}

fn place(root: &str, mount: &str, source: &str, name: &str) -> Result<String, ShadowPathError> {
    compute_shadow_path(&path(root), &path(mount), &path(source), Some(name)).map(|p| p.display())
}

#[test]
fn a_shadow_lies_under_its_root_as_the_source_under_its_mount() {
    assert_eq!(
        place("/data/.cc-sandbox", "/data", "/data/myproject", "auth"),
        Ok("/data/.cc-sandbox/myproject-auth".to_string())
    );
    assert_eq!(
        place("/data/.cc-sandbox", "/data", "/data/a/b/project", "deep"),
        Ok("/data/.cc-sandbox/a/b/project-deep".to_string())
    );
    assert_eq!(
        place("/.cc-sandbox", "/", "/home/u/p", ""),
        Ok("/.cc-sandbox/home/u/p-".to_string())
    );
    assert_eq!(
        place("/data/s", "/data", "/data/p", "x/y"),
        Ok("/data/s/p-x/y".to_string())
    );
}

#[test]
fn a_source_without_a_place_is_refused() {
    assert_eq!(
        place("/s", "/data", "/home/p", "n"),
        Err(ShadowPathError::NotUnderMount)
    );
    assert_eq!(
        place("/s", "/data", "/data", "n"),
        Err(ShadowPathError::FilesystemRoot)
    );
    assert_eq!(
        place("/s", "/data", "/data/..", "n"),
        Err(ShadowPathError::NoName)
    );
    let said = |e| shadow_path_message(e, &path("/src"), &path("/mnt"));
    assert_eq!(
        said(ShadowPathError::NotUnderMount),
        "Source /src is not under mount point /mnt"
    );
    assert_eq!(
        said(ShadowPathError::FilesystemRoot),
        "Cannot shadow the filesystem root /mnt. Use a subdirectory."
    );
    assert_eq!(
        said(ShadowPathError::NoName),
        "Source path has no final component"
    );
    assert_eq!(
        said(ShadowPathError::NoDate),
        "The clock shows a time without a date"
    );
}

#[test]
fn without_a_name_the_suffix_is_the_time() {
    let found = compute_shadow_path(&path("/data/s"), &path("/data"), &path("/data/p"), None)
        .unwrap()
        .display();
    let stamp = found.strip_prefix("/data/s/p-").unwrap();
    let then = DateTime::parse_from_rfc3339(stamp).unwrap();
    let age = chrono::Local::now().signed_duration_since(then).num_seconds();
    assert!((0..60).contains(&age));
    assert_eq!(
        compute_shadow_path(&path("/s"), &path("/data"), &path("/data"), None)
            .map(|p| p.display()),
        Err(ShadowPathError::FilesystemRoot)
    );
}

#[test]
fn a_name_that_is_no_text_is_shown() {
    let source = FsPath::from_bytes(b"/data/p\xff".to_vec());
    let found = shadow_path_with(&path("/s"), &path("/data"), &source, "n").unwrap();
    assert_eq!(found.display(), "/s/p\u{fffd}-n");
}

#[test]
fn a_shadow_records_its_source() {
    let meta = new_meta(&path("/data/p"), Some("auth")).unwrap();
    assert_eq!(meta.source.display(), "/data/p");
    assert_eq!(meta.name_suffix, "auth");
    assert!(meta.created_at.is_valid());
    let unnamed = new_meta(&path("/data/p"), None).unwrap();
    assert!(DateTime::parse_from_rfc3339(&unnamed.name_suffix).is_ok());
    assert_eq!(
        meta_path(&path("/s/p-auth")).display(),
        "/s/p-auth/.cc-sandbox-meta.json"
    );
}

const NOW: Moment = Moment {
    secs: 1776180622,
    nanos: 7,
    offset_secs: 0,
};

/// A moment after the end of the local calendar.
const NEVER: Moment = Moment {
    secs: LATEST,
    nanos: 0,
    offset_secs: 3600,
};

#[test]
fn a_record_holds_the_moments_it_is_given() {
    let created = Moment {
        secs: 5,
        nanos: 6,
        offset_secs: 60,
    };
    let unnamed = meta_at(&path("/data/p"), None, created, NOW).unwrap();
    assert_eq!(unnamed.created_at, created);
    assert_eq!(unnamed.source.display(), "/data/p");
    assert_eq!(unnamed.name_suffix, "2026-04-14T15:30:22+00:00");
    let named = meta_at(&path("/data/p"), Some("auth"), created, NEVER).unwrap();
    assert_eq!(named.name_suffix, "auth");
    assert!(meta_at(&path("/data/p"), None, created, NEVER).is_none());
}

#[test]
fn a_shadow_without_a_name_is_placed_by_the_moment() {
    let at = |source: &str, now| {
        shadow_path_at(&path("/data/s"), &path("/data"), &path(source), now).map(|p| p.display())
    };
    assert_eq!(
        at("/data/p", NOW),
        Ok("/data/s/p-2026-04-14T15:30:22+00:00".to_string())
    );
    assert_eq!(at("/home/p", NOW), Err(ShadowPathError::NotUnderMount));
    assert_eq!(at("/data/p", NEVER), Err(ShadowPathError::NoDate));
    assert_eq!(at("/data", NEVER), Err(ShadowPathError::FilesystemRoot));
}

#[test]
fn different_sources_have_different_places() {
    let sources = ["/data/p", "/data/q", "/data/p-x", "/data/a/p", "/data/a-p", "/data/a/b/p"];
    for suffix in ["x", "", "x/y", "/", "../p"] {
        let mut places: Vec<String> = sources
            .iter()
            .map(|s| place("/data/s", "/data", s, suffix).unwrap())
            .collect();
        places.sort();
        places.dedup();
        assert_eq!(places.len(), sources.len(), "{suffix:?}");
    }
}

#[test]
fn changes_are_counted_by_kind() {
    let printed = b"*deleting   gone.txt\n\
        *deleting   dir/\n\
        >f+++++++++ new.txt\n\
        >f.st...... changed.txt\n\
        >fcst...... other.txt\n\
        cd+++++++++ newdir/\n\
        .d..t...... ./\n\
        >f\n\
        >f+++++++++\n\
        \n";
    assert_eq!(
        change_summary(true, printed, b"ignored"),
        Ok(ChangeSummary {
            modified: 2,
            added: 3,
            deleted: 2
        })
    );
    assert_eq!(
        change_summary(true, b"", b""),
        Ok(ChangeSummary {
            modified: 0,
            added: 0,
            deleted: 0
        })
    );
    assert_eq!(
        change_summary(false, printed, b"no such dir\n"),
        Err("rsync dry-run failed: no such dir\n".to_string())
    );
    assert_eq!(
        ChangeSummary {
            modified: 1,
            added: 20,
            deleted: 0
        }
        .to_text(),
        "1 modified, 20 added, 0 deleted"
    );
}

#[test]
fn comparing_is_a_dry_run_of_the_merge() {
    let measure = measure_invocation(&path("/s/p-x"), &path("/data/p"));
    let merge = merge_invocation(&path("/s/p-x"), &path("/data/p"));
    assert_eq!(measure.program, "rsync");
    assert_eq!(merge.program, "rsync");
    assert_eq!(
        merge.args,
        [
            "-a",
            "--delete",
            "--exclude=.cc-sandbox-meta.json",
            "/s/p-x/",
            "/data/p/"
        ]
    );
    assert_eq!(measure.args[0], "-ain");
    assert_eq!(measure.args[1..], merge.args[1..]);
}
