use cc_sandbox::moment::Moment;
use cc_sandbox::path::FsPath;
use cc_sandbox::shadow::ShadowMeta;
use cc_sandbox::walk::{enumerate_shadows, Entry, Visit};

fn path(name: &str) -> FsPath {
    FsPath::from_text(name)
}

fn meta(source: &str) -> ShadowMeta {
    ShadowMeta {
        source: path(source),
        created_at: Moment {
            secs: 0,
            nanos: 0,
            offset_secs: 0,
        },
        name_suffix: "x".to_string(),
    }
}

fn entries(listed: &[(&str, bool)]) -> Visit {
    Visit::Entries(
        listed
            .iter()
            .map(|(name, is_dir)| Entry {
                place: path(name),
                is_dir: *is_dir,
            })
            .collect(),
    )
}

#[test]
fn a_search_visits_in_order_and_finds_all() {
    let mut walk = enumerate_shadows(&path("/s"), true);
    let mut order = Vec::new();
    while let Some(dir) = walk.next() {
        let name = dir.display();
        walk.visit(match name.as_str() {
            "/s" => entries(&[
                ("/s/a", true),
                ("/s/file", false),
                ("/s/broken", true),
                ("/s/z", true),
                ("/s/shut", true),
            ]),
            "/s/a" => entries(&[("/s/a/p-1", true), ("/s/a/p-2", true)]),
            "/s/a/p-1" => Visit::Shadow(meta("/one")),
            "/s/a/p-2" => Visit::Shadow(meta("/two")),
            "/s/broken" => Visit::Broken,
            "/s/shut" => Visit::Unreadable,
            "/s/z" => Visit::Shadow(meta("/three")),
            other => panic!("{other}"),
        });
        order.push(name);
    }
    assert_eq!(
        order,
        ["/s", "/s/a", "/s/a/p-1", "/s/a/p-2", "/s/broken", "/s/z", "/s/shut"]
    );
    let found: Vec<(String, String)> = walk
        .found
        .iter()
        .map(|f| (f.place.display(), f.meta.source.display()))
        .collect();
    assert_eq!(
        found,
        [
            ("/s/a/p-1".to_string(), "/one".to_string()),
            ("/s/a/p-2".to_string(), "/two".to_string()),
            ("/s/z".to_string(), "/three".to_string()),
        ]
    );
}

#[test]
fn a_root_that_does_not_exist_holds_nothing() {
    let mut walk = enumerate_shadows(&path("/s"), false);
    assert!(walk.next().is_none());
    walk.visit(Visit::Shadow(meta("/one")));
    assert!(walk.found.is_empty());
}
