use rget::download::resolve_target;

#[test]
fn remote_url_names_output_by_last_segment() {
    let (output, url) = resolve_target("https://example.com/a/b.tar.gz", None);
    assert_eq!(output, "b.tar.gz");
    assert_eq!(url.as_deref(), Some("https://example.com/a/b.tar.gz"));
}

#[test]
fn explicit_output_wins_over_url_segment() {
    let (output, url) = resolve_target(
        "https://example.com/a/b.tar.gz",
        Some(String::from("saved.bin")),
    );
    assert_eq!(output, "saved.bin");
    assert!(url.is_some());
}

#[test]
fn file_scheme_is_local_and_trimmed() {
    let (output, url) = resolve_target("file:///tmp/data.bin.toml", None);
    assert_eq!(output, "/tmp/data.bin");
    assert_eq!(url, None);
}

#[test]
fn non_url_input_is_local() {
    let (output, url) = resolve_target("not a url", None);
    assert_eq!(output, "not a url");
    assert_eq!(url, None);
}

#[test]
fn local_descriptor_path_maps_to_target() {
    let (output, url) = resolve_target("downloads/archive.zip.toml", None);
    assert_eq!(output, "downloads/archive.zip");
    assert_eq!(url, None);
}
