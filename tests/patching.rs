use uprooted::markers::{is_patched, strip_injection};
use uprooted::patcher::{install, repair, uninstall, Document};

const SETTINGS: &str = "{\"enabled\":true,\"plugins\":{},\"customCss\":\"\"}";
const DIR: &str = "/home/u/.local/share/uprooted";
const PAGE: &str = "<html>\n  <head>\n    <title>Root</title>\n  </head>\n  <body></body>\n</html>";

fn doc(path: &str, content: &str) -> Document {
    Document { path: path.to_string(), content: Ok(content.to_string()), backup: None }
}

fn text(d: &Document) -> String {
    d.content.clone().unwrap()
}

#[test]
fn install_patches_both_clean_documents() {
    let mut docs = vec![
        doc("/p/WebRtcBundle/index.html", PAGE),
        doc("/p/RootApps/pluginA/index.html", PAGE),
    ];
    let r = install(&mut docs, SETTINGS, DIR, false);
    assert!(r.success);
    assert_eq!(r.message, "Uprooted installed. 2 files patched.");
    assert_eq!(
        r.files_patched,
        vec!["/p/WebRtcBundle/index.html".to_string(), "/p/RootApps/pluginA/index.html".to_string()]
    );
    for d in &docs {
        let t = text(d);
        assert!(t.contains("<!-- uprooted:start -->"));
        assert!(t.contains("<!-- uprooted:end -->"));
        assert!(t.contains("<script>window.__UPROOTED_SETTINGS__={\"enabled\":true,"));
        assert_eq!(d.backup.as_deref(), Some(PAGE));
    }
}

#[test]
fn install_inserts_exact_block() {
    let mut docs = vec![doc("/p/a.html", "<head>\n  </head>")];
    let r = install(&mut docs, "{}", "/d", false);
    assert!(r.success);
    let expected = "<head>\n      <!-- uprooted:start -->\n    <script>window.__UPROOTED_SETTINGS__={};</script>\n    <script src=\"file:///d/uprooted-preload.js\"></script>\n    <link rel=\"stylesheet\" href=\"file:///d/uprooted.css\">\n    <!-- uprooted:end -->\n  </head>";
    assert_eq!(text(&docs[0]), expected);
}

#[test]
fn install_windows_urls() {
    let mut docs = vec![doc("C:\\p\\a.html", "<head></head>")];
    install(&mut docs, "{}", "C:\\Users\\u\\AppData\\Local\\Root\\uprooted", true);
    let t = text(&docs[0]);
    assert!(t.contains("src=\"file:///C:/Users/u/AppData/Local/Root/uprooted/uprooted-preload.js\""));
    assert!(t.contains("href=\"file:///C:/Users/u/AppData/Local/Root/uprooted/uprooted.css\""));
}

#[test]
fn install_stops_at_unreadable_document() {
    let mut docs = vec![
        doc("/p/WebRtcBundle/index.html", PAGE),
        Document {
            path: "/p/RootApps/x/index.html".to_string(),
            content: Err("Permission denied".to_string()),
            backup: None,
        },
    ];
    let r = install(&mut docs, SETTINGS, DIR, false);
    assert!(!r.success);
    assert_eq!(r.message, "Failed to read /p/RootApps/x/index.html: Permission denied");
    assert_eq!(r.files_patched, vec!["/p/WebRtcBundle/index.html".to_string()]);
    assert!(docs[1].content.is_err());
    assert!(docs[1].backup.is_none());
    assert!(is_patched(&text(&docs[0])));
}

#[test]
fn install_without_head_tag_leaves_document() {
    let body_only = "<html><body>no head</body></html>";
    let mut docs = vec![doc("/p/a.html", body_only), doc("/p/b.html", PAGE)];
    let r = install(&mut docs, SETTINGS, DIR, false);
    assert!(r.success);
    assert_eq!(r.files_patched, vec!["/p/b.html".to_string()]);
    assert_eq!(text(&docs[0]), body_only);
    assert_eq!(docs[0].backup.as_deref(), Some(body_only));
}

#[test]
fn install_without_targets_fails() {
    let mut docs: Vec<Document> = Vec::new();
    let r = install(&mut docs, SETTINGS, DIR, false);
    assert!(!r.success);
    assert_eq!(r.message, "No target HTML files found in profile directory.");
    assert!(r.files_patched.is_empty());
}

#[test]
fn install_twice_same_as_once() {
    let mut docs = vec![doc("/p/a.html", PAGE), doc("/p/b.html", "<p>no head</p>")];
    install(&mut docs, SETTINGS, DIR, false);
    let once: Vec<(Result<String, String>, Option<String>)> =
        docs.iter().map(|d| (d.content.clone(), d.backup.clone())).collect();
    let r2 = install(&mut docs, SETTINGS, DIR, false);
    let twice: Vec<(Result<String, String>, Option<String>)> =
        docs.iter().map(|d| (d.content.clone(), d.backup.clone())).collect();
    assert_eq!(once, twice);
    assert!(r2.success);
    assert!(r2.files_patched.is_empty());
    assert_eq!(r2.message, "Uprooted installed. 0 files patched.");
}

#[test]
fn install_then_uninstall_round_trip() {
    let mut docs = vec![doc("/p/a.html", PAGE)];
    install(&mut docs, SETTINGS, DIR, false);
    assert!(docs[0].backup.is_some());
    let r = uninstall(&mut docs);
    assert!(r.success);
    assert_eq!(r.message, "Uprooted uninstalled. 1 files restored.");
    assert_eq!(r.files_patched, vec!["/p/a.html".to_string()]);
    assert_eq!(text(&docs[0]), PAGE);
    assert!(docs[0].backup.is_none());
}

#[test]
fn install_keeps_existing_backup() {
    let mut docs = vec![Document {
        path: "/p/a.html".to_string(),
        content: Ok(PAGE.to_string()),
        backup: Some("original".to_string()),
    }];
    install(&mut docs, SETTINGS, DIR, false);
    assert_eq!(docs[0].backup.as_deref(), Some("original"));
    install(&mut docs, "{\"enabled\":false}", DIR, false);
    assert_eq!(docs[0].backup.as_deref(), Some("original"));
}

#[test]
fn legacy_marker_document_is_migrated() {
    let legacy = "<html>\n<head>\n<!-- uprooted -->\n<script src=\"x.js\"></script>\n</head>\n</html>";
    assert!(is_patched(legacy));
    let mut docs = vec![doc("/p/a.html", legacy)];
    let r = uninstall(&mut docs);
    assert_eq!(r.files_patched.len(), 1);
    let t = text(&docs[0]);
    assert_eq!(t, "<html>\n<head>\n<script src=\"x.js\"></script>\n</head>\n</html>");
    assert!(!t.contains("uprooted"));
}

#[test]
fn bare_signature_document_is_migrated() {
    let bare = "<html>\n<head>\n<script>window.__UPROOTED_SETTINGS__={};</script>\n<script src=\"file:///d/uprooted-preload.js\"></script>\n<link rel=\"stylesheet\" href=\"file:///d/uprooted.css\">\n</head>\n</html>";
    assert!(is_patched(bare));
    let mut docs = vec![doc("/p/a.html", bare)];
    uninstall(&mut docs);
    let t = text(&docs[0]);
    assert_eq!(t, "<html>\n<head>\n</head>\n</html>");
    assert!(!is_patched(&t));
}

#[test]
fn uninstall_falls_back_to_backup() {
    let odd = "<html><!-- uprooted-preload cache --></html>";
    let mut docs = vec![Document {
        path: "/p/a.html".to_string(),
        content: Ok(odd.to_string()),
        backup: Some("<html></html>".to_string()),
    }];
    let r = uninstall(&mut docs);
    assert_eq!(r.files_patched, vec!["/p/a.html".to_string()]);
    assert_eq!(text(&docs[0]), "<html></html>");
    assert!(docs[0].backup.is_none());
}

#[test]
fn uninstall_skips_clean_documents() {
    let mut docs = vec![
        doc("/p/a.html", PAGE),
        Document {
            path: "/p/c.html".to_string(),
            content: Ok("<!-- uprooted-preload -->".to_string()),
            backup: None,
        },
    ];
    let r = uninstall(&mut docs);
    assert!(r.success);
    assert!(r.files_patched.is_empty());
    assert_eq!(r.message, "Uprooted uninstalled. 0 files restored.");
    assert_eq!(text(&docs[0]), PAGE);
    assert_eq!(text(&docs[1]), "<!-- uprooted-preload -->");
}

#[test]
fn uninstall_stops_at_unreadable_document() {
    let mut docs = vec![doc("/p/a.html", PAGE), doc("/p/b.html", PAGE), doc("/p/c.html", PAGE)];
    install(&mut docs, SETTINGS, DIR, false);
    docs[1].content = Err("denied".to_string());
    let r = uninstall(&mut docs);
    assert!(!r.success);
    assert_eq!(r.message, "Failed to read /p/b.html: denied");
    assert_eq!(r.files_patched, vec!["/p/a.html".to_string()]);
    assert_eq!(text(&docs[0]), PAGE);
    assert!(docs[1].content.is_err());
    assert!(is_patched(&text(&docs[2])));
    assert!(docs[2].backup.is_some());
}

#[test]
fn round_trip_keeps_indentation() {
    for page in ["<head>\n</head>", "<html>\n\t<head>\n\t</head>\n</html>", "  </head>", "<head>\n        </head><body></body>"] {
        let mut docs = vec![doc("/p/a.html", page)];
        let r = install(&mut docs, SETTINGS, DIR, false);
        assert_eq!(r.files_patched.len(), 1);
        uninstall(&mut docs);
        assert_eq!(text(&docs[0]), page);
    }
}

#[test]
fn repair_failure_names_unreadable_document() {
    let mut docs = vec![
        doc("/p/a.html", PAGE),
        Document { path: "/p/b.html".to_string(), content: Err("denied".to_string()), backup: None },
    ];
    let r = repair(&mut docs, SETTINGS, DIR, false);
    assert!(!r.success);
    assert_eq!(r.message, "Failed to read /p/b.html: denied");
    assert_eq!(r.files_patched, vec!["/p/a.html".to_string()]);
}

#[test]
fn repair_uses_new_settings() {
    let mut docs = vec![doc("/p/a.html", PAGE)];
    install(&mut docs, "{\"enabled\":true}", DIR, false);
    let r = repair(&mut docs, "{\"enabled\":false}", DIR, false);
    assert!(r.success);
    assert_eq!(r.files_patched, vec!["/p/a.html".to_string()]);
    let t = text(&docs[0]);
    assert!(t.contains("window.__UPROOTED_SETTINGS__={\"enabled\":false};"));
    assert!(!t.contains("{\"enabled\":true}"));
    assert_eq!(docs[0].backup.as_deref(), Some(PAGE));
    assert_eq!(t.matches("<!-- uprooted:start -->").count(), 1);
}

#[test]
fn strip_injection_exact() {
    let c = "a\n<!-- uprooted:start -->\nb\n<!-- uprooted:end -->\nc\n";
    assert_eq!(strip_injection(c), "a\nc");
    assert_eq!(strip_injection(""), "");
    assert_eq!(strip_injection("x\r\ny\r\n"), "x\ny");
    assert_eq!(strip_injection("<link href=\"uprooted.css\">\nkeep"), "keep");
    assert_eq!(strip_injection("uprooted.css alone"), "uprooted.css alone");
    assert_eq!(strip_injection("</script uprooted-preload>\nz"), "z");
}

#[test]
fn strip_unterminated_block_drops_rest() {
    assert_eq!(strip_injection("a\n<!-- uprooted:start -->\nb\nc"), "a");
}

#[test]
fn is_patched_forms() {
    assert!(is_patched("x <!-- uprooted:start --> y"));
    assert!(is_patched("<!-- uprooted -->"));
    assert!(is_patched("uprooted-preload"));
    assert!(!is_patched("<!-- uprooted:end -->"));
    assert!(!is_patched(""));
    assert!(!is_patched("<html></html>"));
}
