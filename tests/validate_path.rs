use ev3_runner::path::{
    has_parent_components, is_absolute, probe_paths, resolve_and_validate, split_components,
    validate_path, Resolution,
};
use ev3_runner::protocol::PathStatus;

const WD: &str = "/srv/work";

fn parent_is_wd() -> Resolution {
    Resolution::Parent(Some(WD.to_string()))
}

#[test]
fn test_rejects_absolute_paths() {
    let result = validate_path("/etc/passwd", WD, &Resolution::NoParent);
    assert!(matches!(result, Err(PathStatus::AbsolutePath)));
}

#[test]
fn test_rejects_parent_directory() {
    let result = validate_path("../etc/passwd", WD, &Resolution::NoParent);
    assert!(matches!(result, Err(PathStatus::InvalidComponents)));
}

#[test]
fn test_accepts_simple_filename() {
    let result = validate_path("program.bin", WD, &parent_is_wd());
    assert!(result.is_ok());
    assert_eq!(result.unwrap(), "program.bin".to_string());
}

#[test]
fn test_accepts_subdirectory() {
    let result = validate_path(
        "bin/program",
        WD,
        &Resolution::Parent(Some("/srv/work/bin".to_string())),
    );
    assert!(result.is_ok());
}

#[test]
fn test_rejects_hidden_traversal() {
    // Even valid-looking paths that resolve outside working dir
    let result = validate_path("subdir/../../etc/passwd", WD, &Resolution::NoParent);
    assert!(result.is_err());
}

#[test]
fn hidden_traversal_without_leading_dots_is_rejected() {
    let result = validate_path("a/../../etc/passwd", WD, &parent_is_wd());
    assert_eq!(result, Err(PathStatus::InvalidComponents));
}

#[test]
fn subdirectory_keeps_its_components() {
    let result = validate_path(
        "bin/program",
        WD,
        &Resolution::Parent(Some("/srv/work/bin".to_string())),
    );
    assert_eq!(result, Ok("bin/program".to_string()));
}

#[test]
fn symlink_out_of_the_working_dir_escapes() {
    let result = validate_path(
        "link",
        WD,
        &Resolution::Existing(Some("/etc/passwd".to_string())),
    );
    assert_eq!(result, Err(PathStatus::EscapesWorkingDir));
}

#[test]
fn parent_symlinked_out_escapes() {
    let result = validate_path(
        "out/file",
        WD,
        &Resolution::Parent(Some("/tmp/elsewhere".to_string())),
    );
    assert_eq!(result, Err(PathStatus::EscapesWorkingDir));
}

#[test]
fn existing_file_inside_is_confined() {
    let result = validate_path(
        "./a//b/",
        WD,
        &Resolution::Existing(Some("/srv/work/a/b".to_string())),
    );
    assert_eq!(result, Ok("a/b".to_string()));
}

#[test]
fn failed_canonicalization_is_reported() {
    assert_eq!(
        validate_path("x", WD, &Resolution::Existing(None)),
        Err(PathStatus::CanonicalizationFailed)
    );
    assert_eq!(
        validate_path("x", WD, &Resolution::Parent(None)),
        Err(PathStatus::CanonicalizationFailed)
    );
}

#[test]
fn missing_parent_keeps_the_target() {
    let result = validate_path("new/dir/file", WD, &Resolution::NoParent);
    assert_eq!(result, Ok("new/dir/file".to_string()));
}

#[test]
fn empty_target_has_no_file_name() {
    let result = resolve_and_validate("", "/", &Resolution::Parent(Some("/".to_string())));
    assert_eq!(result, Err(PathStatus::InvalidComponents));
}

#[test]
fn component_checks() {
    assert!(is_absolute("/a"));
    assert!(!is_absolute("a/b"));
    assert!(has_parent_components("a/../b"));
    assert!(!has_parent_components("a/..b/c"));
    let cs = split_components("/x//./y/");
    assert_eq!(cs, vec![vec!['x'], vec!['y']]);
}

#[test]
fn probe_paths_join_the_working_dir() {
    let (target, parent) = probe_paths("bin/prog", WD);
    assert_eq!(target, "/srv/work/bin/prog");
    assert_eq!(parent, "/srv/work/bin");
    let (target, parent) = probe_paths("", "/");
    assert_eq!(target, "/");
    assert_eq!(parent, "/");
}
