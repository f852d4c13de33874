use blink::search::{
    can_replace, find_all, find_all_ci, no_match, pick_match, preview_matches, search_offset,
    search_status, selection_text, PreviewTarget, SearchStatus, Surface,
};

#[test]
fn find_all_ci_counts_characters_and_ignores_case() {
    assert_eq!(
        find_all_ci("Foo foo FOO", "foo"),
        vec![(0, 3), (4, 7), (8, 11)]
    );
    assert_eq!(
        find_all_ci("ПриВіт, привіт", "привіт"),
        vec![(0, 6), (8, 14)]
    );
    assert_eq!(find_all_ci("aaa", "aa"), vec![(0, 2)]);
    assert!(find_all_ci("text", "").is_empty());
    assert!(find_all_ci("text", "missing").is_empty());
}

#[test]
fn matches_do_not_overlap() {
    assert_eq!(find_all("aaaaa", "aa"), [(0, 2), (2, 4)]);
    assert!(find_all("Aa", "aa").is_empty());
    assert!(find_all("a", "").is_empty());
}

fn surfaces() -> Vec<Surface> {
    vec![
        Surface {
            code: true,
            anchor: 10,
            text: String::from("let foo = FOO;"),
        },
        Surface {
            code: false,
            anchor: 4,
            text: String::from("a foo"),
        },
    ]
}

#[test]
fn preview_matches_come_in_document_order() {
    let matches = preview_matches(&vec![(0, 3), (7, 10)], &surfaces(), "foo");
    let keys: Vec<(i32, i32)> = matches.iter().map(|found| found.key).collect();
    assert_eq!(keys, [(0, 0), (4, 2), (7, 0), (10, 4), (10, 10)]);
    assert_eq!(matches[0].target, PreviewTarget::Prose { start: 0, end: 3 });
    assert_eq!(
        matches[1].target,
        PreviewTarget::Cell { surface: 1, start: 2, end: 5 }
    );
    assert_eq!(
        matches[4].target,
        PreviewTarget::Code { surface: 0, start: 10, end: 13 }
    );
}

#[test]
fn the_search_goes_round() {
    let matches = preview_matches(&vec![(0, 3), (7, 10)], &Vec::new(), "foo");
    assert_eq!(pick_match(&matches, no_match(), true, true), Some(0));
    assert_eq!(pick_match(&matches, (0, 0), true, false), Some(1));
    assert_eq!(pick_match(&matches, (7, 0), true, false), Some(0));
    assert_eq!(pick_match(&matches, (7, 0), false, false), Some(0));
    assert_eq!(pick_match(&matches, (0, 0), false, false), Some(1));
    assert_eq!(pick_match(&matches, (7, 0), true, true), Some(1));
    assert_eq!(pick_match(&matches, (8, 0), true, true), Some(0));
    assert_eq!(pick_match(&Vec::new(), (0, 0), true, true), None);
}

#[test]
fn the_status_says_where_the_search_is() {
    assert_eq!(search_status(false, 3, 1), SearchStatus::Silent);
    assert_eq!(search_status(true, -1, 0), SearchStatus::Searching);
    assert_eq!(search_status(true, 0, 0), SearchStatus::NoMatches);
    assert_eq!(
        search_status(true, 3, 2),
        SearchStatus::Selected { position: 2, count: 3 }
    );
    assert_eq!(search_status(true, 3, 0), SearchStatus::Count(3));
    assert!(can_replace(true, 1));
    assert!(!can_replace(true, 0) && !can_replace(false, 1));
}

#[test]
fn the_editor_searches_from_the_selection() {
    assert_eq!(search_offset(Some((3, 6)), 6, true), 6);
    assert_eq!(search_offset(Some((3, 6)), 6, false), 3);
    assert_eq!(search_offset(None, 9, true), 9);
}

#[test]
fn selected_characters_of_a_cell() {
    assert_eq!(selection_text("привіт", 1, 4), "рив");
    assert_eq!(selection_text("привіт", 4, 9), "іт");
    assert_eq!(selection_text("при", 5, 9), "");
}
