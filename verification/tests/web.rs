use eidos_service::web::{
    cache_control, content_type, embedded_available, embedded_file_count, etag, not_modified,
    requested_file, serve_embedded, served_file, EmbeddedAnswer,
};
use eidos_service::{ServiceConfig, WebAssets};

fn names(list: &[&str]) -> Vec<String> {
    list.iter().map(|n| n.to_string()).collect()
}

#[test]
fn embedded_index_matches_availability() {
    // The two probes agree.
    let files = names(&["index.html", "assets/app.js"]);
    assert_eq!(
        embedded_available(&files),
        files.iter().any(|f| f == "index.html")
    );
    assert_eq!(
        embedded_available(&files),
        embedded_file_count(&files) > 0 || !embedded_available(&files)
    );
}

#[test]
fn a_build_without_a_ui_has_none() {
    assert!(!embedded_available(&names(&[])));
    assert_eq!(embedded_file_count(&names(&[])), 0);
    assert!(!embedded_available(&names(&["assets/app.js"])));
}

#[test]
fn unknown_paths_fall_back_to_the_index() {
    let files = names(&["index.html", "assets/app.js"]);
    assert_eq!(
        served_file("/assets/app.js", &files).as_deref(),
        Some("assets/app.js")
    );
    assert_eq!(
        served_file("/search/deep/link", &files).as_deref(),
        Some("index.html")
    );
    assert_eq!(served_file("/", &names(&["assets/app.js"])), None);
    assert_eq!(requested_file("///a/b.css"), "a/b.css");
    assert_eq!(requested_file("/a/../secret"), "index.html");
    assert_eq!(requested_file("/a\\b"), "index.html");
    assert_eq!(requested_file("/a.b..c"), "index.html");
    assert_eq!(requested_file("/a.b.c"), "a.b.c");
}

#[test]
fn files_are_tagged_by_their_digest() {
    let digest: Vec<u8> = vec![0x00, 0xab, 0xff];
    assert_eq!(etag(&digest), "\"00abff\"");
    assert!(not_modified(Some("\"x\", \"00abff\""), "\"00abff\""));
    assert!(!not_modified(Some("\"00abfe\""), "\"00abff\""));
    assert!(!not_modified(None, "\"00abff\""));
    assert_eq!(
        cache_control("assets/app.js"),
        "public, max-age=31536000, immutable"
    );
    assert_eq!(cache_control("index.html"), "no-cache");
    assert_eq!(content_type("text/html"), "text/html; charset=utf-8");
    assert_eq!(
        content_type("application/javascript"),
        "application/javascript; charset=utf-8"
    );
    assert_eq!(content_type("image/png"), "image/png");
    match serve_embedded("assets/a.css".into(), &digest, "text/css", None) {
        EmbeddedAnswer::File {
            name,
            content_type,
            cache_control,
            etag,
        } => {
            assert_eq!(name, "assets/a.css");
            assert_eq!(content_type, "text/css; charset=utf-8");
            assert!(cache_control.contains("immutable"));
            assert_eq!(etag, "\"00abff\"");
        }
        other => panic!("{other:?}"),
    }
    assert!(matches!(
        serve_embedded("a".into(), &digest, "text/css", Some(" \"00abff\" ")),
        EmbeddedAnswer::NotModified
    ));
}

#[test]
fn the_configuration_chooses_the_ui() {
    let mut c = ServiceConfig::default();
    assert_eq!(c.bind, "127.0.0.1:7700");
    assert_eq!((c.scan_threads, c.content_workers), (8, 4));
    assert!(matches!(c.web_assets(), WebAssets::Embedded));
    c.embedded_web = false;
    assert!(matches!(c.web_assets(), WebAssets::Disabled));
    c.web_dir = Some("web/dist".into());
    assert!(matches!(c.web_assets(), WebAssets::Directory(d) if d == "web/dist"));
}
