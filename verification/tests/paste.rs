use rqs_lib::paste::{
    decide_paste, paste_candidates, paste_lines, PasteCandidates, PasteDecision, PasteError,
    MAX_TEXT_BYTES,
};

fn s(v: &[&str]) -> Vec<String> {
    v.iter().map(|x| x.to_string()).collect()
}

fn b(v: &[&str]) -> Vec<Vec<u8>> {
    v.iter().map(|x| x.as_bytes().to_vec()).collect()
}

#[test]
fn blank_clipboard_is_empty() {
    assert_eq!(paste_lines("").unwrap_err(), PasteError::Empty);
    assert_eq!(paste_lines(" \n\t\r\n\u{3000}\u{a0}").unwrap_err(), PasteError::Empty);
}

#[test]
fn oversized_clipboard_is_refused() {
    let big = "a".repeat(MAX_TEXT_BYTES + 1);
    assert_eq!(paste_lines(&big).unwrap_err(), PasteError::TooLarge);
    let exact = "a".repeat(MAX_TEXT_BYTES);
    assert_eq!(paste_lines(&exact).unwrap().len(), 1);
    // The limit counts UTF-8 bytes, not characters.
    let wide = "é".repeat(MAX_TEXT_BYTES / 2 + 1);
    assert_eq!(paste_lines(&wide).unwrap_err(), PasteError::TooLarge);
}

#[test]
fn lines_are_trimmed_and_blank_ones_dropped() {
    let lines = paste_lines("  /tmp/a \n\n\t/tmp/b\r\n \u{2003}\n last").unwrap();
    assert_eq!(lines, s(&["/tmp/a", "/tmp/b", "last"]));
    assert_eq!(paste_lines("one").unwrap(), s(&["one"]));
}

#[test]
fn file_uris_become_paths() {
    match paste_candidates(&s(&["file:///tmp/a%20b.txt", "file:///home/u/%C3%A9.png"])) {
        PasteCandidates::Uris(Some(p)) => assert_eq!(p, b(&["/tmp/a b.txt", "/home/u/é.png"])),
        other => panic!("unexpected {other:?}"),
    }
    match paste_candidates(&s(&["file://localhost/etc/hosts"])) {
        PasteCandidates::Uris(Some(p)) => assert_eq!(p, b(&["/etc/hosts"])),
        other => panic!("unexpected {other:?}"),
    }
}

#[test]
fn file_uri_path_keeps_raw_bytes() {
    match paste_candidates(&s(&["file:///tmp/x%FFy"])) {
        PasteCandidates::Uris(Some(p)) => assert_eq!(p, vec![b"/tmp/x\xffy".to_vec()]),
        other => panic!("unexpected {other:?}"),
    }
}

#[test]
fn file_uri_without_local_path() {
    assert!(matches!(
        paste_candidates(&s(&["file:///tmp/a", "file://server/share/x"])),
        PasteCandidates::Uris(None)
    ));
}

#[test]
fn absolute_paths_and_text() {
    match paste_candidates(&s(&["/tmp/a", "/tmp/b c"])) {
        PasteCandidates::Paths(p) => assert_eq!(p, b(&["/tmp/a", "/tmp/b c"])),
        other => panic!("unexpected {other:?}"),
    }
    assert!(matches!(paste_candidates(&s(&["/tmp/a", "see above"])), PasteCandidates::Text));
    assert!(matches!(paste_candidates(&s(&["file:///tmp/a", "/tmp/b"])), PasteCandidates::Text));
    assert!(matches!(paste_candidates(&s(&["file:///tmp/a", "notes"])), PasteCandidates::Text));
}

#[test]
fn decisions() {
    let uris = || PasteCandidates::Uris(Some(b(&["/a", "/b"])));
    let paths = || PasteCandidates::Paths(b(&["/a", "/b"]));
    match decide_paste(uris(), &vec![true, true], &vec![false, false]) {
        PasteDecision::Files(p) => assert_eq!(p, b(&["/a", "/b"])),
        other => panic!("unexpected {other:?}"),
    }
    assert!(matches!(
        decide_paste(uris(), &vec![true, true], &vec![false, true]),
        PasteDecision::Fail(PasteError::Folders)
    ));
    assert!(matches!(
        decide_paste(uris(), &vec![true, false], &vec![false, false]),
        PasteDecision::Fail(PasteError::Stale)
    ));
    assert!(matches!(
        decide_paste(paths(), &vec![false, true], &vec![false, false]),
        PasteDecision::Text
    ));
    assert!(matches!(
        decide_paste(paths(), &vec![true, true], &vec![true, false]),
        PasteDecision::Fail(PasteError::Folders)
    ));
    match decide_paste(paths(), &vec![true, true], &vec![false, false]) {
        PasteDecision::Files(p) => assert_eq!(p, b(&["/a", "/b"])),
        other => panic!("unexpected {other:?}"),
    }
    assert!(matches!(decide_paste(PasteCandidates::Uris(None), &vec![], &vec![]), PasteDecision::Text));
    assert!(matches!(decide_paste(PasteCandidates::Text, &vec![], &vec![]), PasteDecision::Text));
}

#[test]
fn log_excerpt_with_one_real_path_is_text() {
    let lines = paste_lines("error at\n/etc/hosts\nsee log").unwrap();
    let c = paste_candidates(&lines);
    assert!(matches!(decide_paste(c, &vec![], &vec![]), PasteDecision::Text));
}

#[test]
fn error_messages() {
    assert_eq!(PasteError::NoText.message(), "Clipboard is empty or has no text");
    assert_eq!(PasteError::Empty.message(), "Clipboard is empty");
    assert_eq!(PasteError::TooLarge.message(), "Clipboard text is too large to share");
    assert_eq!(PasteError::Folders.message(), "Folders can't be shared — copy files instead");
    assert_eq!(PasteError::Stale.message(), "Copied file(s) no longer exist");
}
