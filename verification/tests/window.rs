use blink::conflict::{FileTime, IoFailure};
use blink::document::{ViewMode, Views};
use blink::labels::{
    count, describe_io_error, push_recent, status, tab_titles, title, wrapped, Tab, MAX_RECENT,
};
use blink::pictures::{decode_width, Pictures, Shown};
use blink::settings::{
    content_width_label, css_string, font_css, font_family, font_size, link_at, width_at,
    width_index, zoomed, Scheme, CONTENT_WIDTHS,
};
use blink::window::{row_step, CloseStep, RowStep, Window};

fn recent_files() -> Vec<String> {
    let mut recent: Vec<String> = Vec::new();
    for i in 0..15 {
        recent = push_recent(&recent, &format!("/f{i}.md"));
    }
    recent
}

#[test]
fn file_push_recent_dedups_and_caps() {
    let recent = recent_files();
    assert_eq!(recent.len(), MAX_RECENT);
    assert_eq!(recent[0].as_str(), "/f14.md");

    // Opening a listed file again moves it to the front without growing the list.
    let recent = push_recent(&recent, "/f10.md");
    assert_eq!(recent.len(), MAX_RECENT);
    assert_eq!(recent[0], "/f10.md");
    assert_eq!(recent.iter().filter(|p| *p == "/f10.md").count(), 1);
}

#[test]
fn document_push_recent_dedups_and_caps() {
    let recent = recent_files();
    assert_eq!(recent.len(), MAX_RECENT);
    assert_eq!(recent[0].as_str(), "/f14.md");

    // Opening a listed file again moves it to the front without growing the list.
    let recent = push_recent(&recent, "/f10.md");
    assert_eq!(recent.len(), MAX_RECENT);
    assert_eq!(recent[0], "/f10.md");
    assert_eq!(recent.iter().filter(|p| *p == "/f10.md").count(), 1);
}

#[test]
fn recent_files_keep_their_order() {
    let recent = vec![String::from("a"), String::from("b"), String::from("c")];
    assert_eq!(push_recent(&recent, "b"), ["b", "a", "c"]);
}

#[test]
fn words_and_characters_are_counted() {
    assert_eq!(count(" one  two\nтри "), (3, 14));
    assert_eq!(
        status("{} words", "{} characters", "one two"),
        "2 words, 7 characters"
    );
}

#[test]
fn titles_mark_unsaved_changes() {
    assert_eq!(title("a.md", true), "• a.md");
    assert_eq!(title("a.md", false), "a.md");
}

fn tab(title: &str, file_name: Option<&str>, folder: &str) -> Tab {
    Tab {
        title: String::from(title),
        file_name: file_name.map(String::from),
        folder: String::from(folder),
    }
}

#[test]
fn tabs_of_files_with_one_name_show_their_folders() {
    let tabs = vec![
        tab("• a.md", Some("a.md"), "x"),
        tab("b.md", Some("b.md"), "x"),
        tab("a.md", Some("a.md"), "y"),
        tab("Untitled", None, ""),
        tab("Untitled", None, ""),
    ];
    assert_eq!(
        tab_titles(&tabs, "{} — {}"),
        ["• a.md — x", "b.md", "a.md — y", "Untitled", "Untitled"]
    );
}

#[test]
fn common_errors_have_words_of_their_own() {
    assert_eq!(
        describe_io_error(IoFailure::NotFound),
        Some("The file no longer exists.")
    );
    assert_eq!(
        describe_io_error(IoFailure::PermissionDenied),
        Some("You do not have permission to access this file.")
    );
    assert_eq!(
        describe_io_error(IoFailure::StorageFull),
        Some("There is not enough space left on the disk.")
    );
    assert_eq!(
        describe_io_error(IoFailure::ReadOnlyFilesystem),
        Some("The location is read-only.")
    );
    assert_eq!(describe_io_error(IoFailure::QuotaExceeded), None);
    assert_eq!(describe_io_error(IoFailure::Other), None);
}

#[test]
fn markup_goes_around_the_selection() {
    assert_eq!(wrapped("text", "[", "](url)"), "[text](url)");
}

#[test]
fn widths_are_offered_in_rows() {
    for (row, width) in CONTENT_WIDTHS.into_iter().enumerate() {
        assert_eq!(width_index(width), Some(row));
        assert_eq!(width_at(row), Some(width));
    }
    assert_eq!(width_index(750), None);
    assert_eq!(width_at(4), None);
    assert_eq!(content_width_label("{} px", 900), "900 px");
    assert_eq!(content_width_label("no hole", 900), "no hole");
}

#[test]
fn zoom_and_text_size_have_limits() {
    assert_eq!(zoomed(0, 1), 1);
    assert_eq!(zoomed(21, 1), 21);
    assert_eq!(zoomed(-5, -1), -5);
    assert_eq!(font_size(0), 11);
    assert_eq!(font_size(-9), 6);
    assert_eq!(font_size(99), 32);
}

#[test]
fn fonts_are_those_picked_or_the_systems() {
    assert_eq!(font_family("", "Cantarell"), "Cantarell");
    assert_eq!(font_family("Serif", "Cantarell"), "Serif");
    assert_eq!(css_string("A \"b\" \\c"), "\"A \\\"b\\\" \\\\c\"");
    assert_eq!(
        font_css(1, "A", "B"),
        "textview.editor-view { font-size: 12pt; }\n\
         textview.transparent-bg { font-size: 12pt; }\n\
         textview.preview-view { font-family: \"A\"; }\n\
         textview.editor-view, textview.code-view { font-family: \"B\"; }"
    );
}

#[test]
fn styles_have_rows_and_names() {
    for (row, nick) in ["system", "light", "dark"].into_iter().enumerate() {
        assert_eq!(Scheme::index(nick), Some(row as u32));
        assert_eq!(Scheme::at(row as u32).map(Scheme::nick), Some(nick));
    }
    assert_eq!(Scheme::index("pink"), None);
    assert_eq!(Scheme::at(3), None);
    assert_eq!(Scheme::from_nick("dark"), Scheme::Dark);
    assert_eq!(Scheme::from_nick("pink"), Scheme::System);
}

#[test]
fn only_safe_links_are_followed_in_the_preview() {
    let links = vec![
        (0, 4, String::from("https://example.com")),
        (6, 9, String::from("file:///etc")),
    ];
    assert_eq!(link_at(&links, 3), Some(String::from("https://example.com")));
    assert_eq!(link_at(&links, 4), None);
    assert_eq!(link_at(&links, 7), None);
}

#[test]
fn a_window_closes_once_its_documents_have() {
    let mut window = Window::new();
    assert_eq!(window.close_request(2), CloseStep::CloseNext);
    assert_eq!(window.close_request(2), CloseStep::Wait);
    assert!(!window.page_detached(1));
    assert_eq!(window.document_answered(true, 1), CloseStep::CloseNext);
    assert_eq!(window.document_answered(false, 1), CloseStep::Wait);
    assert!(!window.closing && !window.closing_all);
    assert_eq!(window.close_request(1), CloseStep::CloseNext);
    assert!(window.page_detached(0));
    assert_eq!(window.document_answered(true, 0), CloseStep::Wait);
    assert_eq!(window.close_request(0), CloseStep::Close);
}

#[test]
fn a_window_with_a_folder_stays() {
    let mut window = Window::new();
    assert!(!window.discards_blank(1, 1));
    assert!(window.discards_blank(2, 1) && window.discards_blank(1, 2));
    assert!(!window.can_move_tab(1) && window.can_move_tab(2));
    assert!(window.set_folder(1, true));
    assert!(!window.set_folder(2, true));
    assert!(window.discards_blank(1, 1) && window.can_move_tab(1));
    assert!(window.sidebar);
    assert!(!window.page_detached(0));
    assert!(!window.closing);
}

#[test]
fn one_scan_runs_at_a_time() {
    let mut window = Window::new();
    assert!(!window.scan_folder());
    window.set_folder(0, false);
    assert!(window.scan_folder());
    assert!(!window.scan_folder());
    assert!(window.scan_done());
    assert!(!window.scan_done());
    assert!(!window.scanning);
}

#[test]
fn focus_mode_hides_the_sidebar_for_a_while() {
    let mut window = Window::new();
    window.set_folder(0, false);
    assert!(window.set_focus_mode(true));
    assert!(!window.sidebar);
    assert!(!window.set_focus_mode(true));
    assert!(window.set_focus_mode(false));
    assert!(window.sidebar);
}

#[test]
fn a_narrow_window_has_no_split_view() {
    let mut window = Window::new();
    let mut views = Views {
        mode: ViewMode::Edit,
        last_single: ViewMode::Edit,
    };
    window.select_view(&mut views, 2, Some(ViewMode::Split));
    assert_eq!(views.mode, ViewMode::Split);
    window.narrowed(true);
    assert!(!window.sidebar);
    window.select_view(&mut views, 2, Some(ViewMode::Split));
    assert_eq!(views.mode, ViewMode::Edit);
    window.widened();
    window.select_view(&mut views, 1, Some(ViewMode::Preview));
    assert_eq!(views.mode, ViewMode::Edit);
    window.has_folder = true;
    window.narrowed(false);
    assert!(window.sidebar);
}

#[test]
fn rows_are_opened_on_the_way_to_a_file() {
    assert_eq!(row_step(true, false, false, false), RowStep::Found);
    assert_eq!(row_step(false, true, true, true), RowStep::Expand);
    assert_eq!(row_step(false, false, true, true), RowStep::Pass);
    assert_eq!(row_step(false, true, true, false), RowStep::Pass);
}

#[test]
fn images_are_decoded_once_until_they_change() {
    let first = FileTime { secs: 1, nanos: 0 };
    let later = FileTime { secs: 2, nanos: 0 };
    let mut pictures = Pictures::new();
    assert_eq!(pictures.request(1, first, 10), (Shown::Waiting, true));
    assert_eq!(pictures.request(1, first, 11), (Shown::Waiting, false));
    assert!(pictures.decoded(1, later, Some((3, 4))).is_empty());
    assert_eq!(pictures.decoded(1, first, Some((3, 4))), [10, 11]);
    assert_eq!(pictures.request(1, first, 12), (Shown::Image(3, 4), false));
    assert_eq!(pictures.request(1, later, 13), (Shown::Waiting, true));
    assert_eq!(pictures.decoded(1, later, None), [13]);
    assert_eq!(pictures.request(1, later, 14), (Shown::Nothing, false));
    pictures.request(2, first, 15);
    pictures.keep(&vec![2, 5]);
    assert_eq!(pictures.request(1, later, 16), (Shown::Waiting, true));
    assert_eq!(pictures.request(2, first, 17), (Shown::Waiting, false));
    assert_eq!(decode_width(2001), Some(2000));
    assert_eq!(decode_width(2000), None);
}
