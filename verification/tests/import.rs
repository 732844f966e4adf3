use slotstudio::batch_has_work;
use slotstudio::managed_dir;
use slotstudio::ImportError;
use slotstudio::Importer;

#[test]
fn empty_batch_needs_no_work() {
    let none: Vec<String> = Vec::new();
    assert!(!batch_has_work(&none));
    assert!(batch_has_work(&vec!["a.txt".to_string()]));
}

#[test]
fn managed_dir_sits_below_root() {
    assert_eq!(managed_dir(&"proj".to_string()), "proj/static/imports");
    assert_eq!(
        managed_dir(&"/home/user/proj".to_string()),
        "/home/user/proj/static/imports"
    );
}

#[test]
fn reports_follow_input_order() {
    let mut imp = Importer::new("proj".to_string(), Vec::new());
    let a = imp.import_one(&"a.txt".to_string(), true).unwrap();
    let b = imp.import_one(&"b.txt".to_string(), true).unwrap();
    assert_eq!(a.source, "a.txt");
    assert_eq!(a.dest, "proj/static/imports/a.txt");
    assert_eq!(b.source, "b.txt");
    assert_eq!(b.dest, "proj/static/imports/b.txt");
    let reports = imp.into_reports();
    assert_eq!(
        reports,
        vec![
            "static/imports/a.txt".to_string(),
            "static/imports/b.txt".to_string()
        ]
    );
}

#[test]
fn missing_source_aborts_with_its_path() {
    let mut imp = Importer::new("proj".to_string(), Vec::new());
    let first = imp.import_one(&"exists.txt".to_string(), true);
    assert!(first.is_ok());
    let second = imp.import_one(&"missing.txt".to_string(), false);
    let err = second.unwrap_err();
    assert_eq!(
        err,
        ImportError::SourceNotFound {
            source: "missing.txt".to_string()
        }
    );
    assert_eq!(err.message(), "Asset not found: missing.txt");
}

#[test]
fn path_without_file_name_is_invalid() {
    let mut imp = Importer::new("proj".to_string(), Vec::new());
    for bad in ["", "/", "some/dir/", "..", "a/.."] {
        let r = imp.import_one(&bad.to_string(), true);
        let err = r.unwrap_err();
        assert_eq!(
            err,
            ImportError::InvalidPath {
                source: bad.to_string()
            }
        );
        assert_eq!(err.message(), format!("Invalid asset path: {}", bad));
    }
}

#[test]
fn batch_collision_yields_distinct_destinations() {
    let mut imp = Importer::new("proj".to_string(), Vec::new());
    let first = imp.import_one(&"one/logo.png".to_string(), true).unwrap();
    let second = imp.import_one(&"two/logo.png".to_string(), true).unwrap();
    assert_eq!(first.dest, "proj/static/imports/logo.png");
    assert_eq!(second.dest, "proj/static/imports/logo-1.png");
    assert_ne!(first.dest, second.dest);
    let reports = imp.into_reports();
    assert_eq!(reports[0], "static/imports/logo.png");
    assert_eq!(reports[1], "static/imports/logo-1.png");
    assert_ne!(reports[0], reports[1]);
}

#[test]
fn existing_listing_forces_disambiguation() {
    let listing = vec!["logo.png".to_string(), "logo-1.png".to_string()];
    let mut imp = Importer::new("proj".to_string(), listing);
    let job = imp.import_one(&"art/logo.png".to_string(), true).unwrap();
    assert_eq!(job.dest, "proj/static/imports/logo-2.png");
}

#[test]
fn reports_are_root_relative() {
    let mut imp = Importer::new("/home/user/proj".to_string(), Vec::new());
    let job = imp.import_one(&"/tmp/pic.jpg".to_string(), true).unwrap();
    assert_eq!(job.dest, "/home/user/proj/static/imports/pic.jpg");
    let reports = imp.into_reports();
    assert_eq!(reports, vec!["static/imports/pic.jpg".to_string()]);
}

#[test]
fn dest_dir_accessor_matches_managed_dir() {
    let imp = Importer::new("proj".to_string(), Vec::new());
    assert_eq!(imp.dest_dir(), "proj/static/imports");
}

#[test]
fn error_messages_flatten_each_variant() {
    let env = ImportError::Environment {
        message: "no current directory".to_string(),
    };
    assert_eq!(env.message(), "no current directory");
    let dir = ImportError::DirectoryCreation {
        message: "permission denied".to_string(),
    };
    assert_eq!(dir.message(), "permission denied");
    let copy = ImportError::CopyFailed {
        source: "a.txt".to_string(),
        message: "disk full".to_string(),
    };
    assert_eq!(copy.message(), "Failed to copy asset: disk full");
}
