use seam::files::{drop_list, file_url_from_path, path_from_file_url};

#[test]
fn a_file_url_names_its_path() {
    for path in ["/", "/tmp/a b.txt", "/Users/mö/100%/x#y?.zip", "/日本/ی"] {
        let url = file_url_from_path(path);
        assert!(url.starts_with(b"file://"));
        assert!(url.is_ascii());
        assert_eq!(path_from_file_url(&url).as_deref(), Some(path));
    }
    assert_eq!(file_url_from_path("/a b"), b"file:///a%20b");
}

#[test]
fn a_host_is_skipped_and_nonsense_is_no_path() {
    assert_eq!(path_from_file_url(b"file://localhost/tmp/x").as_deref(), Some("/tmp/x"));
    assert_eq!(path_from_file_url(b"http://example.com/x"), None);
    assert_eq!(path_from_file_url(b"file:///bad%zz"), None);
    assert_eq!(path_from_file_url(b"file:///bad%ff"), None, "not text");
    assert_eq!(path_from_file_url(b""), None);
}

#[test]
fn a_drop_list_holds_every_path() {
    let block = drop_list(&vec![vec![0x41, 0x42], vec![0x263A]]);
    assert_eq!(block[..4], 20u32.to_le_bytes());
    assert_eq!(block[4..16], [0; 12]);
    assert_eq!(block[16..20], 1u32.to_le_bytes());
    assert_eq!(block[20..], [0x41, 0, 0x42, 0, 0, 0, 0x3A, 0x26, 0, 0, 0, 0]);
}

#[test]
fn an_escape_is_two_digits() {
    assert_eq!(path_from_file_url(b"file:///a%41").as_deref(), Some("/aA"));
    assert_eq!(path_from_file_url(b"file:///a%+1b"), None);
    assert_eq!(path_from_file_url(b"file:///a%4").as_deref(), Some("/a%4"));
}
