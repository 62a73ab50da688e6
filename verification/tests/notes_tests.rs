use torsearch::note_page::{
    file_type, find_note_links, note_from_decoded, note_from_parts, parse_ransom_notes_html,
};

/// The links a regular-expression search for the link shape finds, for comparison.
fn regex_links(html: &str) -> Vec<(String, String)> {
    let re = regex::Regex::new(r#"href="/ransomnote/([^/]+)/([^"]+)""#).unwrap();
    re.captures_iter(html)
        .map(|c| (c[1].to_string(), c[2].to_string()))
        .collect()
}

const PAGE: &str = r#"<ul>
<li><a href="/ransomnote/lockbit3/Restore-My-Files.txt">LockBit</a></li>
<li><a href="/ransomnote/akira/akira_readme.txt">Akira</a></li>
<li><a href="/ransomnote/play/ReadMe%20Now.html">Play</a></li>
<li><a href="/ransomnote/blackcat/RECOVER-FILES.hta">BlackCat</a></li>
<li><a href="/ransomnote/qilin/README-RECOVER.exe">Qilin</a></li>
<li><a href="/ransomnote//empty-group.txt">broken</a></li>
<li><a href="/ransomnote/nofile/">broken</a></li>
<li><a href="/other/x/y">other</a></li>
</ul>"#;

#[test]
fn links_match_regular_expression() {
    let found = find_note_links(PAGE);
    assert_eq!(found, regex_links(PAGE));
    assert_eq!(found.len(), 5);
}

#[test]
fn links_match_regular_expression_on_odd_pages() {
    let pages = [
        "",
        "href=\"/ransomnote/",
        "href=\"/ransomnote/a/b\"",
        "href=\"/ransomnote/a/b/c\" href=\"/ransomnote/d/e\"",
        "href=\"/ransomnote/a\nb/c\"",
        "href=\"/ransomnote/a/\"x\" href=\"/ransomnote/g/f\"",
        "href=\"/ransomnote/href=\"/ransomnote/x/y\"",
        "href=\"/ransomnote/日本/ノート.txt\"",
        "xxhref=\"/ransomnote/a/b\"href=\"/ransomnote/c/d\"",
    ];
    for p in pages {
        assert_eq!(find_note_links(p), regex_links(p), "page {:?}", p);
    }
}

#[test]
fn notes_from_page() {
    let notes = parse_ransom_notes_html(PAGE).unwrap();
    assert_eq!(notes.len(), 5);
    assert_eq!(notes[0].group_name, "lockbit3");
    assert_eq!(notes[0].filename, "Restore-My-Files.txt");
    assert_eq!(notes[0].file_type, "txt");
    assert_eq!(notes[0].url, "https://www.ransomware.live/ransomnote/lockbit3/Restore-My-Files.txt");
    assert_eq!(notes[2].filename, "ReadMe Now.html");
    assert_eq!(notes[2].file_type, "html");
    assert_eq!(notes[2].url, "https://www.ransomware.live/ransomnote/play/ReadMe%20Now.html");
    assert_eq!(notes[3].file_type, "hta");
    assert_eq!(notes[4].file_type, "unknown");
}

#[test]
fn undecodable_name_is_kept_encoded() {
    let note = note_from_parts("g", "bad%FFname.txt");
    assert_eq!(note.filename, "bad%FFname.txt");
    assert_eq!(note.file_type, "txt");
    let note = note_from_parts("g", "%E3%83%8E.txt");
    assert_eq!(note.filename, "ノ.txt");
}

#[test]
fn file_types_by_extension() {
    assert_eq!(file_type("a.txt"), "txt");
    assert_eq!(file_type("a.TXT"), "unknown");
    assert_eq!(file_type(".html"), "html");
    assert_eq!(file_type("x.hta"), "hta");
    assert_eq!(file_type("txt"), "unknown");
}

#[test]
fn empty_page_has_no_notes() {
    assert!(parse_ransom_notes_html("<html></html>").unwrap().is_empty());
}

#[test]
fn note_from_decoded_name() {
    let n = note_from_decoded("play", "ReadMe%20Now.html", Some("ReadMe Now.html".to_string()));
    assert_eq!(n.group_name, "play");
    assert_eq!(n.filename, "ReadMe Now.html");
    assert_eq!(n.file_type, "html");
    assert_eq!(n.url, "https://www.ransomware.live/ransomnote/play/ReadMe%20Now.html");
    let n = note_from_decoded("x", "bad%FF.txt", None);
    assert_eq!(n.filename, "bad%FF.txt");
    assert_eq!(n.file_type, "txt");
    let m = note_from_parts("x", "bad%FF.txt");
    assert_eq!(m.filename, n.filename);
    assert_eq!(m.url, n.url);
}
