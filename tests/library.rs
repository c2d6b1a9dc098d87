use leaves::app::{App, AppMode};
use leaves::layout::{parse_markdown, render_poem_text, render_vertical_rtl_title, vertical_layout, rendered_line_count};
use leaves::model::{Poem, Version};
use leaves::utils::get_language_name;
use leaves::app::max_scroll;
use leaves::viewport::scrollbar_thumb;

fn version(title: &str, author: &str, language: &str, text: &str) -> Version {
    Version {
        title: title.to_string(),
        author: author.to_string(),
        language: language.to_string(),
        epigraph: None,
        text: text.to_string(),
        rtl: None,
        vertical: None,
    }
}

fn poem(canonical: Version, variants: Vec<(&str, Version)>) -> Poem {
    let mut versions = vec![("canonical".to_string(), canonical)];
    for (k, v) in variants {
        versions.push((k.to_string(), v));
    }
    versions.sort_by(|a, b| a.0.cmp(&b.0));
    let p = Poem { versions, filename: "x.poem".to_string() };
    assert!(p.is_well_formed());
    p
}

fn scenario_a() -> App {
    let one = poem(version("Poem One", "Alice", "en", "first"), vec![]);
    let two = poem(
        version("Poem Two", "Bob", "en", "second"),
        vec![("french", version("Poème Deux", "Bob", "fr", "deuxième"))],
    );
    App::new(vec![one, two])
}

#[test]
fn scenario_a_languages_and_french_selection() {
    let mut app = scenario_a();
    assert_eq!(app.get_sorted_languages(), vec!["en".to_string(), "fr".to_string()]);
    let en = app.language_counts.iter().find(|e| e.0 == "en").unwrap().1;
    let fr = app.language_counts.iter().find(|e| e.0 == "fr").unwrap().1;
    assert_eq!((en, fr), (2, 1));
    app.set_mode(AppMode::LanguageList);
    app.next_language();
    assert_eq!(app.language_list_state, Some(1));
    app.select_current_language();
    assert_eq!(app.filtered_poems, Some(vec![1]));
    assert_eq!(app.current_poem, 1);
    assert_eq!(app.current_version, "french");
    assert_eq!(app.mode, AppMode::FilteredList);
    app.select_current_filtered();
    assert_eq!(app.mode, AppMode::Viewing);
    assert_eq!(app.get_current_version().language, "fr");
    assert_eq!(app.get_current_version().title, "Poème Deux");
}

#[test]
fn scenario_b_vertical_five_lines() {
    let mut v = version("t", "a", "lzh", "abcde\nfgh\n  ijklm  \nno\npqrst");
    v.vertical = Some(true);
    v.rtl = Some(false);
    let out = render_poem_text(&v, 10);
    let lines: Vec<&str> = out.split('\n').collect();
    assert_eq!(lines.len(), 5);
    for l in &lines {
        assert_eq!(l.chars().count(), 5);
    }
    assert_eq!(lines[0], "pnifa");
    assert_eq!(lines[1], "qojgb");
    assert_eq!(lines[2], "r\u{3000}khc");
    assert_eq!(lines[3], "s\u{3000}l\u{3000}d");
    assert_eq!(lines[4], "t\u{3000}m\u{3000}e");
}

#[test]
fn scenario_c_scroll_down_stops_at_requested_offset() {
    let mut app = scenario_a();
    app.scroll_position = 0;
    assert_eq!(max_scroll(50, 20), 30);
    app.scroll_down_within(25, 50, 20);
    assert_eq!(app.scroll_position, 25);
    app.scroll_down_within(25, 50, 20);
    assert_eq!(app.scroll_position, 30);
}

#[test]
fn scenario_d_empty_query_clears_results() {
    let mut app = scenario_a();
    app.open_search();
    app.search_push('p');
    assert_eq!(app.search_results, vec![0, 1]);
    assert_eq!(app.search_list_state, Some(0));
    app.search_next();
    assert_eq!(app.search_list_state, Some(1));
    app.search_pop();
    assert!(app.search_results.is_empty());
    assert_eq!(app.search_list_state, None);
}

#[test]
fn resolve_version_falls_back_to_canonical() {
    let p = poem(
        version("T", "A", "en", "c"),
        vec![("modern_spelling", version("T2", "A", "en", "m"))],
    );
    assert_eq!(p.resolve_version("canonical").text, "c");
    assert_eq!(p.resolve_version("missing").text, "c");
    assert_eq!(p.resolve_version("modern_spelling").text, "m");
    assert!(p.has_canonical());
    assert_eq!(p.canonical().unwrap().text, "c");
    let q = Poem { versions: vec![("other".to_string(), version("T", "A", "en", "c"))], filename: String::new() };
    assert!(!q.has_canonical());
    assert!(q.canonical().is_none());
    assert!(!q.is_well_formed());
    let unordered = Poem {
        versions: vec![
            ("canonical".to_string(), version("T", "A", "en", "c")),
            ("alpha".to_string(), version("T", "A", "en", "a")),
        ],
        filename: String::new(),
    };
    assert!(unordered.has_canonical());
    assert!(!unordered.is_well_formed());
}

#[test]
fn scroll_down_then_up_returns() {
    let mut app = scenario_a();
    app.scroll_position = 3;
    app.scroll_down(4, 30);
    app.scroll_up(4);
    assert_eq!(app.scroll_position, 3);
    app.scroll_down(40, 30);
    assert_eq!(app.scroll_position, 30);
    app.scroll_up(40);
    assert_eq!(app.scroll_position, 0);
}

#[test]
fn vertical_layout_keeps_every_character() {
    let text = "  山高月小  \n水落\n石出乎哉";
    let chars: Vec<char> = text.chars().collect();
    let out = vertical_layout(&chars, false, 10);
    let mut got: Vec<char> = out.iter().flatten().copied().filter(|c| *c != '\u{3000}').collect();
    let mut want: Vec<char> = text.lines().flat_map(|l| l.trim().chars()).collect();
    got.sort();
    want.sort();
    assert_eq!(got, want);
    let out_rtl = vertical_layout(&chars, true, 3);
    let mut got_rtl: Vec<char> = out_rtl.iter().flatten().copied().filter(|c| *c != '\u{3000}').collect();
    got_rtl.sort();
    assert_eq!(got_rtl, want);
}

#[test]
fn plain_text_round_trip() {
    let v = version("t", "a", "en", "A plain line\n  indented, with # one hash\n\nlast");
    assert_eq!(render_poem_text(&v, 20), v.text);
}

#[test]
fn language_selection_then_filtered_keeps_language() {
    let a = poem(version("A", "X", "en", "a"), vec![("ru", version("A-ru", "X", "rus", "а"))]);
    let b = poem(version("B", "Y", "rus", "b"), vec![]);
    let mut app = App::new(vec![a, b]);
    let langs = app.get_sorted_languages();
    let idx = langs.iter().position(|l| l == "rus").unwrap();
    app.language_list_state = Some(idx);
    app.select_current_language();
    assert_eq!(app.filtered_poems, Some(vec![0, 1]));
    for i in 0..2 {
        app.filtered_list_state = Some(i);
        app.select_current_filtered();
        assert_eq!(app.get_current_version().language, "rus");
        app.go_back();
        assert_eq!(app.mode, AppMode::FilteredList);
    }
    let (v, found) = app.get_version_in_language(1, "en");
    assert!(!found);
    assert_eq!(v.title, "B");
}

#[test]
fn toggle_version_cycles_back() {
    let p = poem(
        version("T", "A", "en", "c"),
        vec![("zeta", version("T", "A", "en", "z")), ("alpha", version("T", "A", "en", "a"))],
    );
    let mut app = App::new(vec![p]);
    app.show_poem(0);
    app.toggle_version();
    assert_eq!(app.current_version, "alpha");
    app.toggle_version();
    assert_eq!(app.current_version, "zeta");
    app.toggle_version();
    assert_eq!(app.current_version, "canonical");
    assert_eq!(app.current_version_keys(), vec!["canonical".to_string(), "alpha".to_string(), "zeta".to_string()]);
}

#[test]
fn toggle_single_version_is_noop() {
    let mut app = App::new(vec![poem(version("T", "A", "en", "c"), vec![])]);
    app.toggle_version();
    assert_eq!(app.current_version, "canonical");
}

#[test]
fn markdown_markers() {
    assert_eq!(parse_markdown("**bold** and *it*"), "**bold** and _it_");
    assert_eq!(parse_markdown("## Title  \nline"), "  ——— **Title** ——— \nline");
    assert_eq!(parse_markdown("a # b"), "a # b");
    assert_eq!(parse_markdown(""), "");
}

#[test]
fn right_to_left_lines_are_reordered() {
    let mut v = version("t", "a", "he", "שלום\n\nabc");
    v.rtl = Some(true);
    assert_eq!(render_poem_text(&v, 10), "םולש\n\nabc");
}

#[test]
fn epigraph_leads_with_blank_line() {
    let mut v = version("t", "a", "en", "body");
    v.epigraph = Some("epi".to_string());
    assert_eq!(render_poem_text(&v, 10), "epi\n\nbody");
    assert_eq!(rendered_line_count(&v, 10), 3);
}

#[test]
fn vertical_rtl_segments_long_lines() {
    let mut v = version("t", "a", "lzh", "abcdef\ngh");
    v.vertical = Some(true);
    v.rtl = Some(true);
    assert_eq!(render_poem_text(&v, 4), "gea\nhfb\n\u{3000}\u{3000}c\n\u{3000}\u{3000}d");
    assert_eq!(render_poem_text(&v, 10), "ga\nhb\n\u{3000}c\n\u{3000}d\n\u{3000}e\n\u{3000}f");
}

#[test]
fn vertical_title_one_char_per_line() {
    assert_eq!(render_vertical_rtl_title("ab", "c"), "a\nb\n|\nc");
}

#[test]
fn language_names() {
    assert_eq!(get_language_name("fra"), Some("Français"));
    assert_eq!(get_language_name("mn-Latn"), Some("Mongolian (Latin)"));
    assert_eq!(get_language_name("xx"), None);
}

#[test]
fn titles_sorted_case_folded() {
    let app = App::new(vec![
        poem(version("beta", "Z", "en", ""), vec![]),
        poem(version("Alpha", "Y", "en", ""), vec![]),
        poem(version("alpha", "X", "en", ""), vec![]),
    ]);
    let t = app.get_sorted_titles();
    assert_eq!(t, vec![(1, "Alpha".to_string()), (2, "alpha".to_string()), (0, "beta".to_string())]);
    assert_eq!(app.get_sorted_authors(), vec!["X".to_string(), "Y".to_string(), "Z".to_string()]);
}

#[test]
fn author_selection_filters_and_navigates() {
    let mut app = App::new(vec![
        poem(version("Dawn", "Ann", "en", ""), vec![]),
        poem(version("Noon", "Ben", "en", ""), vec![]),
        poem(version("Dusk", "Ann", "en", ""), vec![]),
    ]);
    app.set_mode(AppMode::AuthorList);
    app.select_current_author();
    assert_eq!(app.filtered_poems, Some(vec![0, 2]));
    assert_eq!(app.get_filtered_list_title(), "Poems by Ann");
    app.select_current_filtered();
    assert_eq!(app.current_poem, 0);
    app.next_poem();
    assert_eq!(app.current_poem, 2);
    app.next_poem();
    assert_eq!(app.current_poem, 0);
    app.previous_poem();
    assert_eq!(app.current_poem, 2);
    app.go_back();
    assert_eq!(app.mode, AppMode::FilteredList);
    app.go_back();
    assert_eq!(app.mode, AppMode::AuthorList);
    app.go_back();
    assert_eq!(app.mode, AppMode::Menu);
}

#[test]
fn unfiltered_navigation_wraps() {
    let mut app = App::new(vec![
        poem(version("Dawn", "A", "en", ""), vec![]),
        poem(version("Noon", "B", "en", ""), vec![]),
    ]);
    app.show_poem(1);
    app.next_poem();
    assert_eq!(app.current_poem, 0);
    app.previous_poem();
    assert_eq!(app.current_poem, 1);
}

#[test]
fn search_ignores_case() {
    let mut app = scenario_a();
    app.open_search();
    for c in "ALI".chars() {
        app.search_push(c);
    }
    assert_eq!(app.search_results, vec![0]);
    app.search_select();
    assert_eq!(app.mode, AppMode::Viewing);
    assert_eq!(app.current_poem, 0);
    app.escape();
    assert_eq!(app.mode, AppMode::Viewing);
}

#[test]
fn empty_library_is_safe() {
    let mut app = App::new(vec![]);
    app.next_title();
    assert_eq!(app.title_list_state, None);
    app.previous_author();
    assert_eq!(app.author_list_state, None);
    app.next_poem();
    app.select_current_title();
    assert_eq!(app.mode, AppMode::Menu);
    app.show_random_poem();
    assert_eq!(app.mode, AppMode::Menu);
    app.open_search();
    app.search_push('a');
    assert!(app.search_results.is_empty());
    assert_eq!(app.search_list_state, None);
}

#[test]
fn menu_entries_and_random_poem() {
    let mut app = scenario_a();
    app.menu_previous();
    assert_eq!(app.menu_state, Some(4));
    app.activate_menu();
    assert_eq!(app.mode, AppMode::Viewing);
    assert!(app.current_poem < 2);
    app.open_menu();
    app.menu_next();
    app.activate_menu();
    assert_eq!(app.mode, AppMode::AuthorList);
}

#[test]
fn version_picker_commits_choice() {
    let p = poem(version("T", "A", "en", "c"), vec![("b", version("T", "A", "fr", "b"))]);
    let mut app = App::new(vec![p]);
    app.show_poem(0);
    app.open_version_picker();
    assert_eq!(app.mode, AppMode::VersionSelect);
    app.next_version_choice();
    app.pick_version();
    assert_eq!(app.mode, AppMode::Viewing);
    assert_eq!(app.current_version, "b");
    app.open_version_picker();
    app.escape();
    assert_eq!(app.mode, AppMode::Viewing);
    assert_eq!(app.current_version, "b");
}

#[test]
fn scrollbar_geometry() {
    assert_eq!(scrollbar_thumb(10, 20, 0), None);
    assert_eq!(scrollbar_thumb(50, 2, 0), None);
    assert_eq!(scrollbar_thumb(50, 20, 0), Some((1, 8)));
    assert_eq!(scrollbar_thumb(50, 20, 30), Some((11, 8)));
    assert_eq!(scrollbar_thumb(50, 20, 99), Some((11, 8)));
    assert_eq!(scrollbar_thumb(1000, 20, 490), Some((10, 1)));
}

#[test]
fn author_and_language_counts() {
    let app = scenario_a();
    assert_eq!(app.author_count(&"Alice".to_string()), 1);
    assert_eq!(app.author_count(&"Nobody".to_string()), 0);
    assert_eq!(app.language_count(&"en".to_string()), 2);
    assert_eq!(app.language_count(&"fr".to_string()), 1);
    assert_eq!(app.language_count(&"de".to_string()), 0);
}

#[test]
fn language_listing_orders_variants_by_key() {
    let p = poem(
        version("T", "A", "en", "c"),
        vec![("zz", version("T", "A", "de", "z")), ("bb", version("T", "A", "de", "b"))],
    );
    let mut app = App::new(vec![p]);
    let langs = app.get_sorted_languages();
    app.language_list_state = Some(langs.iter().position(|l| l == "de").unwrap());
    app.select_current_language();
    assert_eq!(app.filtered_poems, Some(vec![0, 0]));
    assert_eq!(app.current_version, "bb");
}

#[test]
fn title_selection_sets_filtered_cursor() {
    let mut app = scenario_a();
    app.filtered_list_state = None;
    app.select_current_title();
    assert_eq!(app.filtered_list_state, Some(0));
    assert_eq!(app.filtered_poems, Some(vec![0]));
}

#[test]
fn search_edit_keeps_cursor_in_range() {
    let mut app = scenario_a();
    app.open_search();
    app.search_push('o');
    assert_eq!(app.search_results, vec![0, 1]);
    app.search_next();
    assert_eq!(app.search_list_state, Some(1));
    app.search_push('n');
    assert_eq!(app.search_results, vec![0]);
    assert_eq!(app.search_list_state, Some(0));
}

#[test]
fn whitespace_trimmed_in_vertical_layout() {
    let mut v = version("t", "a", "lzh", "\u{3000}ab\u{2003}\n\tc ");
    v.vertical = Some(true);
    assert_eq!(render_poem_text(&v, 10), "ca\n\u{3000}b");
}
