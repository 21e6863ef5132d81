use tui_game::i18n::{
    available_languages, current_language_code, init, set_language, t, t_for_code, t_or,
    LanguagePack,
};
use tui_game::script::{game_meta, is_script_extension};
use tui_game::keys::KeyCode;
use tui_game::ui::{
    default_selected_index, grid_metrics_for, handle_hub_key, minimum_size, move_selection,
    GridMetrics, Menu, MenuAction, SettingsAction, SettingsPage, SettingsState, SizeState,
};

fn pack(code: &str, name: &str, entries: &[(&str, &str)]) -> LanguagePack {
    LanguagePack {
        code: code.to_string(),
        name: name.to_string(),
        dict: entries.iter().map(|(k, v)| (k.to_string(), v.to_string())).collect(),
    }
}

#[test]
fn lookups_fall_back_to_english_then_placeholder() {
    let en = pack("us-en", "English", &[("menu.play", "Play Game"), ("menu.quit", "Quit")]);
    let fr = pack("fr-fr", "Francais", &[("menu.play", "Jouer")]);
    let builtin = pack("us-en", "English", &[]);
    let mut st = init(vec![fr, en], builtin, Some("fr-fr".to_string()), "us-en");
    assert_eq!(current_language_code(&st), "fr-fr");
    assert_eq!(t(&st, "menu.play"), "Jouer");
    assert_eq!(t(&st, "menu.quit"), "Quit");
    assert_eq!(t(&st, "nope"), "[missing-i18n-key:nope]");
    assert_eq!(t_or(&st, "nope", "fallback"), "fallback");
    assert_eq!(t_or(&st, "menu.play", "fallback"), "Jouer");
    assert_eq!(t_for_code(&st, "us-en", "menu.play"), "Play Game");
    assert_eq!(available_languages(&st).len(), 2);
    assert_eq!(default_selected_index(&st), 0);
    assert!(set_language(&mut st, "us-en"));
    assert!(!set_language(&mut st, "xx-yy"));
    assert_eq!(current_language_code(&st), "us-en");
    let s = SettingsState::new(&st);
    assert_eq!(s.page, SettingsPage::Hub);
    assert_eq!(s.lang_selected, 1);
}

#[test]
fn init_without_packs_uses_builtin() {
    let builtin = pack("us-en", "English", &[("language", "Language")]);
    let st = init(vec![], builtin, None, "de-de");
    assert_eq!(current_language_code(&st), "us-en");
    assert_eq!(t(&st, "language"), "Language");
}

#[test]
fn game_meta_defaults() {
    let m = game_meta("lights_out", "scripts/lights_out.lua", None, Some("  ".to_string()));
    assert_eq!(m.name, "lights out");
    assert_eq!(m.description, "No description available.");
    let m = game_meta("x", "x.lua", Some("Alpha".to_string()), Some("A test game".to_string()));
    assert_eq!(m.name, "Alpha");
    assert_eq!(m.description, "A test game");
    assert!(is_script_extension("LUA"));
    assert!(!is_script_extension("txt"));
}

#[test]
fn size_check() {
    assert!(SizeState::check(80, 24, 80, 24).size_ok);
    assert!(!SizeState::check(79, 24, 80, 24).size_ok);
}

#[test]
fn grid_selection_moves_without_wrapping() {
    let g = grid_metrics_for(80, 5, 7);
    assert_eq!(g, GridMetrics { cols: 5, inner_width: 9, outer_width: 11 });
    let g = grid_metrics_for(20, 30, 7);
    assert_eq!(g.cols, 1);
    assert_eq!(grid_metrics_for(80, 0, 7), GridMetrics { cols: 1, inner_width: 6, outer_width: 8 });
    let m = GridMetrics { cols: 3, inner_width: 9, outer_width: 11 };
    assert_eq!(move_selection(4, KeyCode::Left, m, 7), 3);
    assert_eq!(move_selection(3, KeyCode::Left, m, 7), 3);
    assert_eq!(move_selection(5, KeyCode::Right, m, 7), 5);
    assert_eq!(move_selection(4, KeyCode::Down, m, 7), 4);
    assert_eq!(move_selection(3, KeyCode::Down, m, 7), 6);
    assert_eq!(move_selection(4, KeyCode::Up, m, 7), 1);
    assert_eq!(move_selection(4, KeyCode::Enter, m, 7), 4);
    assert_eq!(move_selection(4, KeyCode::Up, m, 0), 0);
}

#[test]
fn hub_keys_and_minimum_size() {
    let builtin = tui_game::i18n::builtin_english_pack();
    let st = init(vec![], builtin, None, "us-en");
    let mut s = SettingsState::new(&st);
    assert_eq!(handle_hub_key(&mut s, KeyCode::Down, &st), SettingsAction::Stay);
    assert_eq!(s.hub_selected, 1);
    assert_eq!(handle_hub_key(&mut s, KeyCode::Enter, &st), SettingsAction::RunUninstall);
    assert_eq!(handle_hub_key(&mut s, KeyCode::Char('1'), &st), SettingsAction::Stay);
    assert_eq!(handle_hub_key(&mut s, KeyCode::Enter, &st), SettingsAction::Stay);
    assert_eq!(s.page, SettingsPage::Language);
    assert_eq!(handle_hub_key(&mut s, KeyCode::Char('q'), &st), SettingsAction::BackToMenu);
    // the widest hub line is the Enter hint, whose key text is missing:
    // "\u{25B6} [missing-i18n-key:menu.enter_shortcut] Uninstall TUI GAME"
    let hub = SettingsState { page: SettingsPage::Hub, hub_selected: 0, lang_selected: 0 };
    assert_eq!(minimum_size(&hub, &st), (63, 10));
    // one pack: the grid is 11 wide; the 58-column hint is the widest line
    assert_eq!(minimum_size(&s, &st), (60, 10));
}

#[test]
fn menu_navigation_wraps_and_shortcuts_select() {
    let mut m = Menu::new();
    assert_eq!(m.selected(), 0);
    m.previous();
    assert_eq!(m.selected_action(), MenuAction::Quit);
    m.next();
    assert_eq!(m.selected_action(), MenuAction::Play);
    assert!(m.select_by_shortcut(KeyCode::Char('3')));
    assert_eq!(m.selected_action(), MenuAction::Settings);
    assert!(!m.select_by_shortcut(KeyCode::Char('9')));
    assert_eq!(m.selected(), 2);
    m.set_selected(7);
    assert_eq!(m.selected(), 2);
    assert!(!m.can_continue());
    m.set_continue_target(Some("snake".to_string()), Some("Snake".to_string()));
    assert!(m.can_continue());
    assert_eq!(m.continue_game_id(), Some("snake".to_string()));
    let st = init(vec![], tui_game::i18n::builtin_english_pack(), None, "us-en");
    let items = m.items();
    assert_eq!(m.item_label(&items[1], &st), "Continue-Snake");
    assert_eq!(m.item_label(&items[0], &st), "Play Game");
}

#[test]
fn game_list_paging_keeps_the_selection() {
    let mut p = tui_game::ui::GamePager::new(7);
    assert_eq!(p.selected_global_index(), Some(0));
    p.sync_paging(3);
    assert_eq!((p.current_page, p.page_size, p.total_pages, p.selected), (0, 3, 3, Some(0)));
    p.select_next();
    p.select_next();
    p.select_next();
    assert_eq!(p.selected, Some(2));
    p.select_prev();
    assert_eq!(p.selected, Some(1));
    p.next_page();
    p.next_page();
    assert_eq!((p.current_page, p.selected, p.page_len()), (2, Some(0), 1));
    p.next_page();
    assert_eq!(p.current_page, 2);
    assert_eq!(p.selected_global_index(), Some(6));
    p.sync_paging(5);
    assert_eq!((p.current_page, p.page_size, p.total_pages, p.selected), (1, 5, 2, Some(1)));
    assert_eq!(p.selected_global_index(), Some(6));
    p.prev_page();
    assert_eq!((p.current_page, p.selected), (0, Some(0)));
    let mut empty = tui_game::ui::GamePager::new(0);
    empty.sync_paging(0);
    assert_eq!((empty.page_size, empty.total_pages, empty.selected), (1, 1, None));
}
