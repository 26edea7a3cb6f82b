use cc_sandbox::config::{Config, FilesystemEntry};
use cc_sandbox::fs_lookup::{
    adopt_shadow_root, device_warning, find_mount_point, no_mount_message, prompt_shadow_root,
    relative_root_message, resolve_shadow_root, shadow_root_question, unescape_mount_path,
    RootLookup,
};
use cc_sandbox::path::FsPath;

fn path(name: &str) -> FsPath {
    FsPath::from_text(name)
}

#[test]
fn test_unescape_plain_string() {
    assert_eq!(unescape_mount_path("/home/user"), "/home/user");
}

#[test]
fn test_unescape_space() {
    // \040 is the octal escape for space (ASCII 32)
    assert_eq!(unescape_mount_path("/home/my\\040user"), "/home/my user");
}

#[test]
fn test_unescape_tab() {
    // \011 is the octal escape for tab (ASCII 9)
    assert_eq!(unescape_mount_path("/mnt/my\\011dir"), "/mnt/my\tdir");
}

#[test]
fn test_unescape_backslash() {
    // \134 is the octal escape for backslash (ASCII 92)
    assert_eq!(unescape_mount_path("/mnt/my\\134dir"), "/mnt/my\\dir");
}

#[test]
fn test_unescape_multiple() {
    assert_eq!(
        unescape_mount_path("/data/my\\040cool\\040project"),
        "/data/my cool project"
    );
}

#[test]
fn what_is_no_escape_is_kept() {
    assert_eq!(unescape_mount_path("a\\04"), "a\\04");
    assert_eq!(unescape_mount_path("a\\04x"), "a\\04x");
    assert_eq!(unescape_mount_path("a\\"), "a\\");
    assert_eq!(unescape_mount_path("a\\089"), "a\\089");
    assert_eq!(unescape_mount_path("a\\999"), "a\\999");
    assert_eq!(unescape_mount_path("a\\400"), "a\\400");
    assert_eq!(unescape_mount_path("a\\377"), "a\u{ff}");
    assert_eq!(unescape_mount_path("a\\\\040"), "a\\ ");
    assert_eq!(unescape_mount_path("a\\0401"), "a 1");
}

#[test]
fn unescaping_undoes_the_escapes_of_the_table() {
    let name = "/mnt/a b\tc\nd\\e\\040#é";
    let mut table = String::new();
    for c in name.chars() {
        if [' ', '\t', '\n', '\\', '#'].contains(&c) {
            table.push_str(&format!("\\{:03o}", c as u32));
        } else {
            table.push(c);
        }
    }
    assert_ne!(table, name);
    assert_eq!(unescape_mount_path(&table), name);
}

const MOUNTS: &str = "/dev/sda1 / ext4 rw 0 0\n\
    short\n\
    /dev/sdb1 /data btrfs rw 0 0\n\
    /dev/sdc1 /data/my\\040disk xfs rw 0 0\n\
    /dev/sdd1 /database ext4 rw 0 0\n";

#[test]
fn the_longest_mount_point_wins() {
    let found = |p: &str| find_mount_point(&path(p), MOUNTS).map(|m| m.display());
    assert_eq!(found("/data/project"), Some("/data".to_string()));
    assert_eq!(found("/data/my disk/x"), Some("/data/my disk".to_string()));
    assert_eq!(found("/database/x"), Some("/database".to_string()));
    assert_eq!(found("/home/user"), Some("/".to_string()));
    assert_eq!(found("/data"), Some("/data".to_string()));
}

#[test]
fn without_a_mount_point_there_is_none() {
    assert!(find_mount_point(&path("/home"), "").is_none());
    assert!(find_mount_point(&path("/home"), "x /data y\nroot\n").is_none());
    assert_eq!(
        no_mount_message(&path("/home")),
        "Could not determine mount point for /home"
    );
}

fn config() -> Config {
    let mut config = Config::for_agent("agent");
    config.filesystem.push(FilesystemEntry {
        mount_point: path("/data"),
        device_id: 2049,
        shadow_root: path("/data/.cc-sandbox"),
    });
    config
}

#[test]
fn a_known_filesystem_has_its_root() {
    match resolve_shadow_root(&config(), &path("/data"), 2049) {
        RootLookup::Known(root) => assert_eq!(root.display(), "/data/.cc-sandbox"),
        other => panic!("{other:?}"),
    }
    assert!(matches!(
        resolve_shadow_root(&config(), &path("/data"), 7),
        RootLookup::DeviceChanged(2049)
    ));
    assert!(matches!(
        resolve_shadow_root(&config(), &path("/home"), 2049),
        RootLookup::Unknown
    ));
    // A trailing slash makes no other path.
    assert!(matches!(
        resolve_shadow_root(&config(), &path("/data/"), 2049),
        RootLookup::Known(_)
    ));
}

#[test]
fn an_adopted_root_is_known_and_leaves_the_others() {
    let mut known = config();
    adopt_shadow_root(&mut known, &path("/home"), 3, &path("/home/shadows"));
    assert_eq!(known.filesystem.len(), 2);
    adopt_shadow_root(&mut known, &path("/data"), 9, &path("/data/new"));
    assert_eq!(known.filesystem.len(), 2);
    match resolve_shadow_root(&known, &path("/data"), 9) {
        RootLookup::Known(root) => assert_eq!(root.display(), "/data/new"),
        other => panic!("{other:?}"),
    }
    match resolve_shadow_root(&known, &path("/home"), 3) {
        RootLookup::Known(root) => assert_eq!(root.display(), "/home/shadows"),
        other => panic!("{other:?}"),
    }
}

#[test]
fn the_answer_to_the_question_is_the_default_or_an_absolute_path() {
    assert_eq!(
        shadow_root_question(&path("/data")),
        "Source is on filesystem mounted at /data. Where should shadows live? [/data/.cc-sandbox]: "
    );
    let answer = |text: &str| prompt_shadow_root(&path("/data"), text);
    assert_eq!(answer(" \n").unwrap().display(), "/data/.cc-sandbox");
    assert_eq!(answer("").unwrap().display(), "/data/.cc-sandbox");
    assert_eq!(answer(" /data/x y \n").unwrap().display(), "/data/x y");
    let refused = answer("shadows\n").unwrap_err();
    assert_eq!(
        relative_root_message(&refused),
        "Shadow root must be an absolute path, got: shadows"
    );
}

#[test]
fn a_changed_device_is_warned_of() {
    assert_eq!(
        device_warning(&path("/data"), 2049, 7),
        "Warning: The device behind /data has changed (was 2049, now 7). \
         The shadow root may need updating."
    );
}
