use std::collections::HashMap;
use workmux::paths::FilePath;
use workmux::sandbox::notice::{
    notice_dir, notice_marker, plain_pieces, show_once_in, show_once_next, styled_pieces,
    write_notice, NoticeAnswer, NoticeStage, DOCS_URL, MARKER_TEXT, NOTICE_VERSION,
};

/// Shows the notice in a state directory that is kept in memory.
fn show(
    files: &mut HashMap<String, String>,
    interactive: bool,
    output: &mut String,
) -> Option<bool> {
    let marker = notice_marker(&FilePath::parse("/state")).text();
    let mut stage = show_once_in(interactive);
    loop {
        let answer = match stage {
            NoticeStage::LookForMarker => files.contains_key(&marker),
            NoticeStage::CreateDir => true,
            NoticeStage::WriteNotice => {
                output.push_str(&write_notice(&styled_pieces()));
                true
            }
            NoticeStage::CreateMarker => {
                files.insert(marker.clone(), String::new());
                true
            }
            NoticeStage::WriteMarker => {
                files.insert(marker.clone(), MARKER_TEXT.to_string());
                true
            }
            NoticeStage::Done(shown) => return Some(shown),
            NoticeStage::Failed => return None,
        };
        let answer = if answer {
            NoticeAnswer::Yes
        } else {
            NoticeAnswer::No
        };
        stage = show_once_next(stage, answer);
    }
}

#[test]
fn interactive_notice_is_shown_once() {
    let mut files = HashMap::new();
    let mut output = String::new();

    assert_eq!(show(&mut files, true, &mut output), Some(true));
    assert_eq!(show(&mut files, true, &mut output), Some(false));

    assert_eq!(output.matches("Sandbox Security").count(), 1);
    assert!(output.contains("┌"));
    assert!(output.contains("└─"));
    assert!(output.contains(DOCS_URL));
    let marker = notice_dir(&FilePath::parse("/state"))
        .child(NOTICE_VERSION)
        .text();
    assert_eq!(marker, "/state/notices/security-boundary-v1");
    assert_eq!(files[&marker], "shown\n");
}

#[test]
fn noninteractive_invocation_does_not_mark_notice_seen() {
    let mut files = HashMap::new();
    let mut output = String::new();

    assert_eq!(show(&mut files, false, &mut output), Some(false));

    assert!(output.is_empty());
    assert!(files.is_empty());
    assert_eq!(
        notice_dir(&FilePath::parse("/state")).text(),
        "/state/notices"
    );
}

#[test]
fn existing_marker_suppresses_notice() {
    let mut files = HashMap::new();
    let marker = notice_dir(&FilePath::parse("/state"))
        .child(NOTICE_VERSION)
        .text();
    files.insert(marker, "shown\n".to_string());
    let mut output = String::new();

    assert_eq!(show(&mut files, true, &mut output), Some(false));

    assert!(output.is_empty());
    assert_eq!(
        notice_dir(&FilePath::parse("/x")).child("..").text(),
        "/x/notices/.."
    );
}

#[test]
fn notice_fails_where_a_step_fails() {
    let stage = show_once_next(NoticeStage::LookForMarker, NoticeAnswer::No);
    assert_eq!(stage, NoticeStage::CreateDir);
    assert_eq!(
        show_once_next(stage, NoticeAnswer::No),
        NoticeStage::Failed
    );
    assert_eq!(
        show_once_next(NoticeStage::WriteNotice, NoticeAnswer::No),
        NoticeStage::Failed
    );
    assert_eq!(
        show_once_next(NoticeStage::CreateMarker, NoticeAnswer::Exists),
        NoticeStage::Done(true)
    );
    assert_eq!(
        show_once_next(NoticeStage::CreateMarker, NoticeAnswer::No),
        NoticeStage::Failed
    );
    assert_eq!(
        show_once_next(NoticeStage::WriteMarker, NoticeAnswer::No),
        NoticeStage::Failed
    );
}

#[test]
fn notice_has_its_lines() {
    let text = write_notice(&plain_pieces());
    let lines: Vec<&str> = text.lines().collect();
    assert_eq!(lines[0], "");
    assert_eq!(lines[1], "┌ Sandbox Security");
    assert_eq!(
        lines[3],
        "│  Sandboxed agent panes use noninteractive approval mode."
    );
    assert_eq!(lines[9], format!("└─  Learn more: {DOCS_URL}"));
    assert_eq!(lines.len(), 11);
}

#[test]
fn styles_are_shown_where_colours_are_on() {
    console::set_colors_enabled(true);
    let pieces = styled_pieces();
    assert_eq!(pieces.border, "\u{1b}[2m│\u{1b}[0m");
    assert_eq!(pieces.corner_top, "\u{1b}[2m┌\u{1b}[0m");
    assert_eq!(pieces.corner_bottom, "\u{1b}[2m└─\u{1b}[0m");
    assert_eq!(
        pieces.title,
        "\u{1b}[36m\u{1b}[1mSandbox Security\u{1b}[0m"
    );
    assert_eq!(pieces.link, format!("\u{1b}[2m{DOCS_URL}\u{1b}[0m"));
    let text = write_notice(&pieces);
    assert_eq!(text.matches("Sandbox Security").count(), 1);
    assert!(text.contains("┌"));
    assert!(text.contains("└─"));
    assert!(text.contains(DOCS_URL));
}

#[test]
fn styles_are_left_out_where_colours_are_off() {
    console::set_colors_enabled(false);
    assert_eq!(
        write_notice(&styled_pieces()),
        write_notice(&plain_pieces())
    );
}

#[test]
fn notices_keep_the_spelling_of_the_state_directory() {
    let state = FilePath::parse("/state//x/");
    assert_eq!(notice_dir(&state).text(), "/state//x/notices");
    assert_eq!(
        notice_marker(&state).text(),
        "/state//x/notices/security-boundary-v1"
    );
}
