use rget::config::DownloadConfig;
use rget::download::{reload_state, LoadOutcome};
use rget::error::RgetError;

#[test]
fn fresh_run_takes_callers_url_and_count() {
    // No descriptor on disk and a URL given: a fresh, resumable run starts
    // with the caller's URL and segment count.
    let r = reload_state(
        LoadOutcome::NotFound,
        String::from("out.bin.toml"),
        Some(String::from("https://example.net/out.bin")),
        4,
    );
    let (config, fresh) = r.unwrap();
    assert!(fresh);
    assert_eq!(config.path, "out.bin.toml");
    assert_eq!(config.url, "https://example.net/out.bin");
    assert_eq!(config.parallel, 4);
}

#[test]
fn resumed_run_uses_persisted_state_verbatim() {
    let stored = DownloadConfig {
        path: String::from("ignored"),
        parallel: 8,
        url: String::from("https://example.net/old"),
    };
    let r = reload_state(
        LoadOutcome::Loaded(stored),
        String::from("out.bin.toml"),
        None,
        4,
    );
    let (config, fresh) = r.unwrap();
    assert!(!fresh);
    assert_eq!(config.path, "out.bin.toml");
    assert_eq!(config.url, "https://example.net/old");
    assert_eq!(config.parallel, 8);
}

#[test]
fn given_url_overrides_persisted_url_only() {
    let stored = DownloadConfig {
        path: String::from("ignored"),
        parallel: 8,
        url: String::from("https://example.net/old"),
    };
    let r = reload_state(
        LoadOutcome::Loaded(stored),
        String::from("out.bin.toml"),
        Some(String::from("https://example.net/new")),
        4,
    );
    let (config, fresh) = r.unwrap();
    assert!(!fresh);
    assert_eq!(config.url, "https://example.net/new");
    assert_eq!(config.parallel, 8);
}

#[test]
fn no_descriptor_and_no_url_is_fatal() {
    let r = reload_state(LoadOutcome::NotFound, String::from("out.bin.toml"), None, 4);
    assert_eq!(r, Err(RgetError::MissingUrl));
}

#[test]
fn corrupt_descriptor_is_reported() {
    let r = reload_state(
        LoadOutcome::Corrupt(RgetError::InvalidToml(String::from("bad key"))),
        String::from("out.bin.toml"),
        Some(String::from("https://example.net/out.bin")),
        4,
    );
    assert_eq!(r, Err(RgetError::InvalidToml(String::from("bad key"))));
}
