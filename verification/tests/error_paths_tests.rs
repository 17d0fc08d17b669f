use hazard_analyzer::error::{Error, ErrorKind};
use hazard_analyzer::paths::{
    ascot_devices, ascot_paths, check_ascot_path, check_extension, check_manifest_path,
    is_rust_file, is_source_extension, needs_ascot_firmware, to_ascii_lowercase,
};

fn text(s: &str) -> Option<String> {
    Some(s.to_string())
}

#[test]
fn descriptions_of_the_kinds() {
    assert_eq!(ErrorKind::Io.description(), "I/O error");
    assert_eq!(ErrorKind::Git.description(), "Git error");
    assert_eq!(ErrorKind::Toml.description(), "TOML error");
    assert_eq!(ErrorKind::Rustdoc.description(), "Rustdoc error");
    assert_eq!(ErrorKind::Concurrent.description(), "Concurrent error");
    assert_eq!(ErrorKind::Json.description(), "JSON error");
}

#[test]
fn message_of_an_error() {
    let error = Error::new(ErrorKind::Concurrent, "Sender error");
    assert_eq!(error.kind(), ErrorKind::Concurrent);
    assert_eq!(error.info(), "Sender error");
    assert_eq!(error.error(), "Concurrent error: Sender error");
    assert_eq!(Error::new(ErrorKind::Io, "").error(), "I/O error: ");
}

#[test]
fn manifest_path_must_be_json() {
    assert!(check_manifest_path("report.json").is_ok());
    assert!(check_manifest_path("out/dir/report.JSON").is_ok());
    assert!(check_manifest_path("report.Json").is_ok());
    // A path without extension is let through.
    assert!(check_manifest_path("manifest").is_ok());
    assert!(check_manifest_path("").is_ok());
    assert!(check_manifest_path(".json").is_ok());
    let error = check_manifest_path("report.yaml").unwrap_err();
    assert_eq!(error.kind(), ErrorKind::Io);
    assert_eq!(error.error(), "I/O error: Manifest path must be a json file");
    assert!(check_manifest_path("report.json.bak").is_err());
    assert!(check_manifest_path("report.jsonx").is_err());
    assert!(check_manifest_path("manifest.").is_err());
}

#[test]
fn ascot_path_must_be_toml() {
    assert!(check_ascot_path("ascot/Cargo.toml").is_ok());
    assert!(check_ascot_path("ascot/Cargo.TOML").is_ok());
    assert!(check_ascot_path("ascot/Cargo").is_ok());
    let error = check_ascot_path("ascot/Cargo.lock").unwrap_err();
    assert_eq!(
        error.error(),
        "I/O error: Ascot path must be a path to the .toml manifest."
    );
}

#[test]
fn extension_that_is_asked_for() {
    assert!(check_extension(None, "json", "no").is_ok());
    assert!(check_extension(text("json"), "json", "no").is_ok());
    assert!(check_extension(text("JsOn"), "json", "no").is_ok());
    assert_eq!(check_extension(text("jso"), "json", "no").unwrap_err().error(), "I/O error: no");
    assert!(check_extension(text(""), "json", "no").is_err());
    // What is asked for is compared as it is written.
    assert!(check_extension(text("json"), "JSON", "no").is_err());
    assert_eq!(to_ascii_lowercase("A.b-Z\u{c9}"), "a.b-z\u{c9}");
}

#[test]
fn source_files_by_extension() {
    assert!(is_rust_file("firmware.rs"));
    assert!(is_rust_file("a/b.c/firmware.rs"));
    assert!(!is_rust_file("firmware.RS"));
    assert!(!is_rust_file("firmware.rs.bak"));
    assert!(!is_rust_file("firmware"));
    assert!(!is_rust_file(".rs"));
    assert!(!is_rust_file("rs"));
    assert!(is_source_extension(text("rs")));
    assert!(!is_source_extension(text("r")));
    assert!(!is_source_extension(None));
}

#[test]
fn directory_of_the_devices() {
    let devices = ascot_devices("ascot-firmware".to_string());
    let parts: Vec<&str> = devices.split(std::path::MAIN_SEPARATOR).collect();
    assert_eq!(parts, vec!["ascot-firmware", "ascot-axum", "src", "devices"]);
}

#[test]
fn paths_of_the_two_manifests() {
    assert!(needs_ascot_firmware(&None, &None));
    assert!(needs_ascot_firmware(&text("l"), &None));
    assert!(needs_ascot_firmware(&None, &text("a")));
    assert!(!needs_ascot_firmware(&text("l"), &text("a")));
    let (library, axum) = ascot_paths(text("l/Cargo.toml"), text("a/Cargo.toml"), "root");
    assert_eq!((library.as_str(), axum.as_str()), ("l/Cargo.toml", "a/Cargo.toml"));
    let (library, axum) = ascot_paths(None, None, "root");
    assert_eq!(std::path::Path::new(&library), std::path::Path::new("root").join("Cargo.toml"));
    assert_eq!(
        std::path::Path::new(&axum),
        std::path::Path::new("root").join("ascot-axum/Cargo.toml")
    );
    let (library, axum) = ascot_paths(text("l"), None, "root");
    assert_eq!(library, "l");
    assert!(axum.ends_with("Cargo.toml"));
}

#[test]
fn extension_of_a_bare_file_name() {
    // The text after the last dot decides.
    assert!(is_rust_file("main.rs"));
    assert!(is_rust_file("a.b.rs"));
    assert!(is_rust_file("..rs"));
    assert!(!is_rust_file("main.rs."));
    assert!(!is_rust_file("main.rsx"));
    assert!(!is_rust_file("main"));
    // A dot in front alone makes no extension, nor do the two names of
    // directories.
    assert!(!is_rust_file(".rs"));
    assert!(!is_rust_file("."));
    assert!(!is_rust_file(".."));
    assert!(!is_rust_file(""));
    assert!(check_manifest_path("out.json").is_ok());
    assert!(check_manifest_path("out.v2.JSON").is_ok());
    assert!(check_manifest_path("..").is_ok());
    assert!(check_manifest_path(".json").is_ok());
    assert!(check_manifest_path("out.json.txt").is_err());
    assert!(check_manifest_path("a..").is_err());
    assert!(check_ascot_path("Cargo.toml").is_ok());
    assert!(check_ascot_path("Cargo.toml.orig").is_err());
}

#[test]
fn devices_lie_below_the_root() {
    for root in ["ascot-firmware", "/tmp/ascot-firmware", "a", "/", "./x/"] {
        let devices = ascot_devices(root.to_string());
        assert!(devices.starts_with(root));
        assert!(devices.ends_with("devices"));
        assert!(devices.len() > root.len());
        let (library, axum) = ascot_paths(None, None, root);
        assert!(library.starts_with(root) && library.ends_with("Cargo.toml"));
        assert!(axum.starts_with(root) && axum.ends_with("Cargo.toml"));
        assert!(axum.len() > library.len());
    }
    // Below no root at all.
    assert!(ascot_devices(String::new()).ends_with("devices"));
}
