use fpvjp_app::connection::{on_frame, on_write, Frame, FrameAction};
use fpvjp_app::static_files::within_root;

#[test]
fn frames_decide_what_the_connection_does() {
    assert_eq!(on_frame(Frame::Text), FrameAction::Handle);
    assert_eq!(on_frame(Frame::Ping), FrameAction::AnswerPong);
    assert_eq!(on_frame(Frame::Binary), FrameAction::Ignore);
    assert_eq!(on_frame(Frame::Pong), FrameAction::Ignore);
    assert_eq!(on_frame(Frame::Close), FrameAction::Stop);
    assert_eq!(on_frame(Frame::Ended), FrameAction::Stop);
    assert_eq!(on_frame(Frame::Failed), FrameAction::Stop);
}

#[test]
fn failed_write_ends_the_connection() {
    assert_eq!(on_write(true), FrameAction::Ignore);
    assert_eq!(on_write(false), FrameAction::Stop);
}

#[test]
fn containment_is_by_whole_components() {
    assert!(within_root(b"/srv/vrx", b"/srv/vrx"));
    assert!(within_root(b"/srv/vrx", b"/srv/vrx/index.html"));
    assert!(within_root(b"/srv/vrx", b"/srv/vrx/a/b.js"));
    assert!(!within_root(b"/srv/vrx", b"/srv/vrx2/index.html"));
    assert!(!within_root(b"/srv/vrx", b"/srv/vr"));
    assert!(!within_root(b"/srv/vrx", b"/etc/passwd"));
    assert!(within_root(b"/", b"/etc/passwd"));
}

#[test]
fn containment_agrees_with_path_starts_with_on_canonical_paths() {
    let cases: [(&str, &str); 5] = [
        ("/srv/vrx", "/srv/vrx/x"),
        ("/srv/vrx", "/srv/vrxy"),
        ("/srv/vrx", "/srv"),
        ("/", "/a"),
        ("/a/b", "/a/b"),
    ];
    for (root, file) in cases {
        assert_eq!(
            within_root(root.as_bytes(), file.as_bytes()),
            std::path::Path::new(file).starts_with(root),
            "{} in {}",
            file,
            root
        );
    }
}
