use fpvjp_app::static_files::{get_mime_type, mime_for_path, static_file_path, static_reply, StaticReply, VRX_DIR};

#[test]
fn directory_paths_name_index_html() {
    assert_eq!(static_file_path("/"), "vrx/index.html");
    assert_eq!(static_file_path("/app/"), "vrx/app/index.html");
    assert_eq!(VRX_DIR, "vrx");
}

#[test]
fn plain_paths_are_kept() {
    assert_eq!(static_file_path("/main.js"), "vrx/main.js");
    assert_eq!(static_file_path("///main.js"), "vrx/main.js");
    assert_eq!(static_file_path(""), "vrx/");
}

#[test]
fn parent_references_are_removed_once() {
    assert_eq!(static_file_path("/../etc/passwd"), "vrx/etc/passwd");
    assert_eq!(static_file_path("/a/../../b"), "vrx/a/b");
    // one pass: a reference spelled across a removed one survives
    assert_eq!(static_file_path("/....//x"), "vrx/../x");
}

#[test]
fn percent_escapes_are_decoded() {
    assert_eq!(static_file_path("/a%20b.js"), "vrx/a b.js");
    assert_eq!(static_file_path("/%2e%2e/x"), "vrx/x");
    assert_eq!(static_file_path("/%ff"), "vrx/\u{FFFD}");
}

#[test]
fn content_types_by_extension() {
    assert_eq!(get_mime_type(".html"), Some("text/html"));
    assert_eq!(get_mime_type(".ico"), Some("image/x-icon"));
    assert_eq!(get_mime_type(".js"), Some("application/javascript"));
    assert_eq!(get_mime_type(".css"), Some("text/css"));
    assert_eq!(get_mime_type(".jpg"), Some("image/jpeg"));
    assert_eq!(get_mime_type(".png"), Some("image/png"));
    assert_eq!(get_mime_type(".gif"), Some("image/gif"));
    assert_eq!(get_mime_type(".svg"), Some("image/svg+xml"));
    assert_eq!(get_mime_type(".wasm"), Some("application/wasm"));
    assert_eq!(get_mime_type(".txt"), None);
    assert_eq!(get_mime_type(""), None);
    assert_eq!(get_mime_type(".HTML"), None);
}

#[test]
fn content_type_of_a_path_ignores_case() {
    assert_eq!(mime_for_path("vrx/App.JS"), Some("application/javascript"));
    assert_eq!(mime_for_path("vrx/index.html"), Some("text/html"));
    assert_eq!(mime_for_path("vrx/notes.txt"), None);
    assert_eq!(mime_for_path("vrx/Makefile"), None);
    assert_eq!(mime_for_path("vrx/.html"), None);
    assert_eq!(mime_for_path("vrx/"), None);
}

#[test]
fn replies_in_order_of_checks() {
    assert_eq!(static_reply(false, true, true, Some("text/html")), StaticReply::MissingRoot);
    assert_eq!(static_reply(true, false, true, Some("text/html")), StaticReply::NotFound);
    assert_eq!(static_reply(true, true, false, Some("text/html")), StaticReply::Forbidden);
    assert_eq!(static_reply(true, true, true, None), StaticReply::Forbidden);
    assert_eq!(static_reply(true, true, true, Some("text/css")), StaticReply::Serve { mime: "text/css" });
}

#[test]
fn reply_status_and_text() {
    assert_eq!(StaticReply::MissingRoot.status(), 500);
    assert_eq!(StaticReply::MissingRoot.message(), "Static directory not found");
    assert_eq!(StaticReply::NotFound.status(), 404);
    assert_eq!(StaticReply::NotFound.message(), "Not Found");
    assert_eq!(StaticReply::Forbidden.status(), 403);
    assert_eq!(StaticReply::Forbidden.message(), "Forbidden");
    assert_eq!(StaticReply::Serve { mime: "image/png" }.status(), 200);
    assert_eq!(StaticReply::ReadFailed.status(), 500);
    assert_eq!(StaticReply::ReadFailed.message(), "Internal Server Error");
}

#[test]
fn extension_case_is_ignored_for_content_type() {
    assert_eq!(mime_for_path("vrx/INDEX.HTML"), Some("text/html"));
    assert_eq!(mime_for_path("vrx/logo.Png"), Some("image/png"));
}
