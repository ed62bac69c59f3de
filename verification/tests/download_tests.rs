use mm_installer::download::{
    disposition_file_name, ensure_success, extract_file_name, make_snippet, url_file_name,
};
use mm_installer::error::InstallError;

#[test]
fn name_from_content_disposition_header() {
    let name = extract_file_name(
        Some("attachment; filename=\"thing.jar\""),
        "https://cdn.example.net/redirected/elsewhere.bin",
    )
    .unwrap();
    assert_eq!(name, "thing.jar");
}

#[test]
fn name_from_final_url_with_query() {
    let name = extract_file_name(None, "https://files.example.net/x/mod-7.2.jar?token=abc")
        .unwrap();
    assert_eq!(name, "mod-7.2.jar");
}

#[test]
fn header_without_filename_falls_back_to_url() {
    let name =
        extract_file_name(Some("attachment; charset=utf-8"), "https://h.example/a/b.zip").unwrap();
    assert_eq!(name, "b.zip");
}

#[test]
fn header_with_empty_filename_falls_back_to_url() {
    let name =
        extract_file_name(Some("attachment; filename=\"\""), "https://h.example/a/c.zip").unwrap();
    assert_eq!(name, "c.zip");
}

#[test]
fn unquoted_filename_accepted() {
    assert_eq!(disposition_file_name("inline; filename=plain.txt").unwrap(), "plain.txt");
}

#[test]
fn filename_attribute_found_among_later_parts() {
    assert_eq!(
        disposition_file_name("form-data; name=upload; filename=\"deep.jar\"").unwrap(),
        "deep.jar"
    );
    assert!(disposition_file_name("inline; name=upload").is_none());
}

#[test]
fn url_fragment_is_stripped() {
    assert_eq!(url_file_name("https://h.example/dir/file.jar#section").unwrap(), "file.jar");
}

#[test]
fn url_trailing_slash_uses_last_nonempty_segment() {
    assert_eq!(url_file_name("https://h.example/a/").unwrap(), "a");
}

#[test]
fn url_without_path_yields_no_name() {
    assert!(url_file_name("https://h.example").is_none());
    assert!(url_file_name("not a url").is_none());
}

#[test]
fn no_name_anywhere_is_name_resolution_error() {
    let err = extract_file_name(None, "https://h.example").unwrap_err();
    assert!(matches!(err, InstallError::NameResolution));
}

#[test]
fn ensure_success_accepts_2xx() {
    assert!(ensure_success(200, "").is_ok());
    assert!(ensure_success(204, "").is_ok());
    assert!(ensure_success(299, "").is_ok());
}

#[test]
fn ensure_success_rejects_other_statuses() {
    let err = ensure_success(404, "not found").unwrap_err();
    match err {
        InstallError::Http { status, snippet } => {
            assert_eq!(status, 404);
            assert_eq!(snippet, "not found");
        }
        other => panic!("expected http error, got {:?}", other),
    }
    assert!(ensure_success(301, "moved").is_err());
    assert!(ensure_success(199, "").is_err());
}

#[test]
fn snippet_truncates_and_substitutes() {
    assert_eq!(make_snippet(""), "<failed to read body>");
    assert_eq!(make_snippet("short"), "short");
    let long = "x".repeat(600);
    assert_eq!(make_snippet(&long).len(), 512);
}
