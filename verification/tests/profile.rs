use landlock::profile::{is_alnum, parse_entry, parse_path_list, parse_profile, Entry, Intent};

fn entry(intent: Intent, paths: &[&str]) -> Entry {
    Entry { intent, paths: paths.iter().map(|p| p.as_bytes().to_vec()).collect() }
}

#[test]
fn letters_and_digits_only() {
    for b in 0u8..=255 {
        let c = b as char;
        assert_eq!(is_alnum(b), c.is_ascii_alphanumeric());
    }
    assert!(is_alnum(b'0') && is_alnum(b'9') && is_alnum(b'A') && is_alnum(b'Z'));
    assert!(is_alnum(b'a') && is_alnum(b'z'));
    assert!(!is_alnum(b'/') && !is_alnum(b':') && !is_alnum(b'@') && !is_alnum(b'['));
    assert!(!is_alnum(b'`') && !is_alnum(b'{') && !is_alnum(b'_') && !is_alnum(b'-'));
}

#[test]
fn profile_of_two_entries() {
    let text = "LL_FS_RO=\"/usr:/etc/ssl\"\nLL_FS_RW=\"/tmp\"\n";
    assert_eq!(
        parse_profile(text.as_bytes()),
        Some(vec![
            entry(Intent::ReadOnly, &["/usr", "/etc/ssl"]),
            entry(Intent::ReadWrite, &["/tmp"]),
        ])
    );
}

#[test]
fn empty_profile_has_no_entry() {
    assert_eq!(parse_profile(b""), Some(vec![]));
}

#[test]
fn empty_path_list() {
    assert_eq!(parse_profile(b"LL_FS_RO=\"\""), Some(vec![entry(Intent::ReadOnly, &[])]));
}

#[test]
fn root_alone_is_a_path() {
    assert_eq!(parse_profile(b"LL_FS_RW=\"/\"\n"), Some(vec![entry(Intent::ReadWrite, &["/"])]));
    assert_eq!(
        parse_profile(b"LL_FS_RW=\"/:/a/b/c\""),
        Some(vec![entry(Intent::ReadWrite, &["/", "/a/b/c"])])
    );
}

#[test]
fn line_feed_between_entries_is_optional() {
    assert_eq!(
        parse_profile(b"LL_FS_RO=\"/a\"LL_FS_RW=\"/b\""),
        Some(vec![entry(Intent::ReadOnly, &["/a"]), entry(Intent::ReadWrite, &["/b"])])
    );
}

#[test]
fn same_name_may_come_twice() {
    assert_eq!(
        parse_profile(b"LL_FS_RO=\"/a\"\nLL_FS_RO=\"/b9\"\n"),
        Some(vec![entry(Intent::ReadOnly, &["/a"]), entry(Intent::ReadOnly, &["/b9"])])
    );
}

#[test]
fn malformed_profiles_are_refused() {
    let bad: Vec<&[u8]> = vec![
        b"LL_FS_RO=\"/a/\"",
        b"LL_FS_RO=\"a/b\"",
        b"LL_FS_RO=\"/a//b\"",
        b"LL_FS_RO=\"//\"",
        b"LL_FS_RO=\"/a:\"",
        b"LL_FS_RO=\":/a\"",
        b"LL_FS_RO=\"/a::/b\"",
        b"LL_FS_RO=\"/a-b\"",
        b"LL_FS_RO=\"/a/../b\"",
        b"LL_FS_RO=\"/a b\"",
        b"LL_FS_RX=\"/a\"",
        b"ll_fs_ro=\"/a\"",
        b"LL_FS_RO=/a",
        b"LL_FS_RO=\"/a",
        b"LL_FS_RO \"/a\"",
        b"LL_FS_RO",
        b"LL_FS_RO=",
        b"LL_FS_RO=\"",
        b" LL_FS_RO=\"/a\"",
        b"LL_FS_RO=\"/a\"\n\n",
        b"LL_FS_RO=\"/a\" \n",
        b"LL_FS_RO=\"/a\"\nrest",
        b"\n",
        b"# note\nLL_FS_RO=\"/a\"\n",
    ];
    for text in bad {
        assert_eq!(parse_profile(text), None);
    }
}

#[test]
fn entry_tells_where_the_text_goes_on() {
    let text = b"xxLL_FS_RW=\"/a/b:/c\"\nLL_FS_RO=\"\"";
    let (first, next) = parse_entry(text, 2).unwrap();
    assert_eq!(first, entry(Intent::ReadWrite, &["/a/b", "/c"]));
    assert_eq!(next, 21);
    let (second, end) = parse_entry(text, next).unwrap();
    assert_eq!(second, entry(Intent::ReadOnly, &[]));
    assert_eq!(end, text.len());
    assert_eq!(parse_entry(text, 0), None);
    assert_eq!(parse_entry(text, text.len()), None);
}

#[test]
fn path_list_takes_what_it_can() {
    let text = b"/a/b:/c9/:rest";
    let (paths, end) = parse_path_list(text, 0);
    assert_eq!(paths, vec![b"/a/b".to_vec(), b"/c9".to_vec()]);
    assert_eq!(end, 8);
    let (paths, end) = parse_path_list(text, 9);
    assert!(paths.is_empty());
    assert_eq!(end, 9);
    let (paths, end) = parse_path_list(b"/a:b", 0);
    assert_eq!(paths, vec![b"/a".to_vec()]);
    assert_eq!(end, 2);
}
