use slotstudio::digits::decimal_string;
use slotstudio::NameSet;
use slotstudio::resolve_unique;

fn set_of(paths: &[&str]) -> NameSet {
    let mut ns = NameSet::new();
    for p in paths {
        ns.insert(p.to_string());
    }
    ns
}

#[test]
fn free_path_is_returned_unchanged() {
    let ns = NameSet::new();
    let r = resolve_unique(&ns, &"photo.png".to_string());
    assert_eq!(r, "photo.png");
}

#[test]
fn free_path_with_directory_is_returned_unchanged() {
    let ns = set_of(&["other.png"]);
    let r = resolve_unique(&ns, &"a/b/photo.png".to_string());
    assert_eq!(r, "a/b/photo.png");
}

#[test]
fn taken_path_is_never_returned() {
    let ns = set_of(&["photo.png"]);
    let r = resolve_unique(&ns, &"photo.png".to_string());
    assert_ne!(r, "photo.png");
    assert!(!ns.contains(&r));
    assert_eq!(r, "photo-1.png");
}

#[test]
fn sequential_disambiguation() {
    let ns = set_of(&["photo.png", "photo-1.png"]);
    let r = resolve_unique(&ns, &"photo.png".to_string());
    assert_eq!(r, "photo-2.png");
}

#[test]
fn counter_skips_every_taken_candidate() {
    let mut ns = set_of(&["photo.png"]);
    for n in 1..10 {
        ns.insert(format!("photo-{}.png", n));
    }
    let r = resolve_unique(&ns, &"photo.png".to_string());
    assert_eq!(r, "photo-10.png");
}

#[test]
fn directory_is_kept_in_candidates() {
    let ns = set_of(&["a/b/photo.png", "a/b/photo-1.png"]);
    let r = resolve_unique(&ns, &"a/b/photo.png".to_string());
    assert_eq!(r, "a/b/photo-2.png");
}

#[test]
fn fallback_stem_for_bare_extension() {
    let ns = set_of(&[".png"]);
    let r = resolve_unique(&ns, &".png".to_string());
    assert_eq!(r, "asset-1.png");
}

#[test]
fn fallback_stem_for_dotfile() {
    let ns = set_of(&[".gitignore"]);
    let r = resolve_unique(&ns, &".gitignore".to_string());
    assert_eq!(r, "asset-1.gitignore");
}

#[test]
fn fallback_stem_for_empty_path() {
    let ns = set_of(&[""]);
    let r = resolve_unique(&ns, &"".to_string());
    assert_eq!(r, "asset-1");
}

#[test]
fn no_extension_gets_plain_counter() {
    let ns = set_of(&["photo"]);
    let r = resolve_unique(&ns, &"photo".to_string());
    assert_eq!(r, "photo-1");
}

#[test]
fn only_last_extension_is_split_off() {
    let ns = set_of(&["archive.tar.gz"]);
    let r = resolve_unique(&ns, &"archive.tar.gz".to_string());
    assert_eq!(r, "archive.tar-1.gz");
}

#[test]
fn name_set_tracks_insertions() {
    let mut ns = NameSet::new();
    assert!(!ns.contains(&"a.txt".to_string()));
    ns.insert("a.txt".to_string());
    assert!(ns.contains(&"a.txt".to_string()));
    assert!(!ns.contains(&"b.txt".to_string()));
}

#[test]
fn decimal_rendering_is_exact() {
    assert_eq!(decimal_string(0), "0");
    assert_eq!(decimal_string(7), "7");
    assert_eq!(decimal_string(10), "10");
    assert_eq!(decimal_string(120), "120");
    assert_eq!(decimal_string(1234567890), "1234567890");
}
