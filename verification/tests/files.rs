use grafbabe::files::etag_from_hash;
use grafbabe::files::{
    file_contents, file_reply, included_file, included_key, read_included, reads_from_disk,
    should_include, strong_etag, url_path, weak_etag, FileResult, IncludedFile,
};
use grafbabe::config::BuildFeatures;
use grafbabe::http::StatusCode;

fn found(contents: &str, etag: &str) -> Result<FileResult, ()> {
    Ok(FileResult::Found { contents: contents.to_string(), etag: etag.to_string() })
}

#[test]
fn matching_etag_is_not_modified() {
    assert!(matches!(file_contents(found("x", "\"e\""), Some("\"e\"")), Ok(FileResult::NotModified)));
    assert!(matches!(
        file_contents(found("x", "\"e\""), Some("\"f\"")),
        Ok(FileResult::Found { .. })
    ));
    assert!(matches!(file_contents(found("x", "\"e\""), None), Ok(FileResult::Found { .. })));
    assert!(matches!(file_contents::<()>(Ok(FileResult::NotFound), Some("\"e\"")), Ok(FileResult::NotFound)));
    assert!(matches!(file_contents::<u8>(Err(7), Some("\"e\"")), Err(7)));
}

#[test]
fn disk_or_included() {
    let release = BuildFeatures {
        debug_assertions: false,
        tls: false,
        mock_data: false,
        serve_live: false,
        systemd_journal: false,
    };
    assert!(!reads_from_disk(&release, None));
    assert!(reads_from_disk(&release, Some("frontend")));
    let dev = BuildFeatures { debug_assertions: true, ..release };
    assert!(reads_from_disk(&dev, None));
}

#[test]
fn included_files_are_found_by_name() {
    let files = vec![
        IncludedFile { path: "a.html".into(), contents: "A".into(), etag: "\"1\"".into() },
        IncludedFile { path: "b.js".into(), contents: "B".into(), etag: "\"2\"".into() },
    ];
    match read_included(&files, "b.js") {
        FileResult::Found { contents, etag } => {
            assert_eq!(contents, "B");
            assert_eq!(etag, "\"2\"");
        }
        _ => panic!("expected b.js"),
    }
    assert!(matches!(read_included(&files, "c.css"), FileResult::NotFound));
}

#[test]
fn file_replies() {
    let (s, r) = file_reply("x.html", &FileResult::NotModified);
    assert_eq!(s.as_str(), "304");
    assert_eq!(r, "HTTP/1.1 304 Not Modified\r\nConnection: close\r\n\r\n");
    let (s, r) = file_reply("x.html", &FileResult::NotFound);
    assert_eq!(s.as_str(), StatusCode::NOT_FOUND.as_str());
    assert_eq!(r, "HTTP/1.1 404 Not Found\r\nConnection: close\r\n\r\n");
    let file = FileResult::Found { contents: "<p>hé</p>".into(), etag: "\"t\"".into() };
    let (s, r) = file_reply("x.html", &file);
    assert_eq!(s.as_str(), "200");
    assert_eq!(
        r,
        "HTTP/1.1 200 Ok\r\nContent-Length: 10\r\nEtag: \"t\"\r\nContent-Type: text/html;charset=utf-8\r\n\r\n<p>hé</p>"
    );
    let (_, r) = file_reply("x.map", &file);
    assert_eq!(r, "HTTP/1.1 200 Ok\r\nContent-Length: 10\r\nEtag: \"t\"\r\n\r\n<p>hé</p>");
}

#[test]
fn weak_etags() {
    assert_eq!(weak_etag(false, 1700000000123, 42), "W/\"1700000000123-42\"");
    assert_eq!(weak_etag(true, 5, 0), "W/\"-5-0\"");
}

#[test]
fn strong_etags_hash_the_contents() {
    let a = strong_etag("hello");
    let b = strong_etag("hello!");
    assert_eq!(a.len(), 34);
    assert!(a.starts_with('"') && a.ends_with('"'));
    assert!(a[1..33].chars().all(|c| c.is_ascii_hexdigit() && !c.is_ascii_uppercase()));
    assert_ne!(a, b);
    assert_eq!(a, strong_etag("hello"));
    let expected: String = std::iter::once('"')
        .chain(
            xxhash_rust::xxh3::xxh3_128(b"hello")
                .to_le_bytes()
                .iter()
                .flat_map(|b| format!("{:02x}", b).chars().collect::<Vec<_>>()),
        )
        .chain(std::iter::once('"'))
        .collect();
    assert_eq!(a, expected);
    let f = included_file("k".into(), "hello".into());
    assert_eq!(f.etag, a);
}

#[test]
fn which_files_are_included() {
    assert!(should_include("dashboard.html"));
    assert!(!should_include(".hidden"));
    assert!(!should_include("chart.umd.min.js.map"));
    assert!(should_include("chart.umd.min.js"));
}

#[test]
fn included_keys_drop_the_frontend_dir() {
    let p = url_path(&vec!["frontend".to_string(), "dashboard.html".to_string()]);
    assert_eq!(p, "frontend/dashboard.html");
    assert_eq!(included_key(&p, "frontend"), "dashboard.html");
    assert_eq!(included_key("other/x.js", "frontend"), "other/x.js");
    assert_eq!(url_path(&vec![]), "");
}

#[test]
fn etag_of_a_hash() {
    assert_eq!(etag_from_hash(0), format!("\"{}\"", "0".repeat(32)));
    assert_eq!(
        etag_from_hash(0x0123456789abcdef_fedcba9876543210),
        "\"1032547698badcfeefcdab8967452301\""
    );
}
