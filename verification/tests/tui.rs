use noogle::model::{DocItem, DocumentFrontmatter};
use noogle::tui::{App, KeyInput};

fn doc(name: &str) -> DocItem {
    DocItem {
        meta: DocumentFrontmatter {
            title: name.to_string(),
            path: vec![],
            aliases: None,
            signature: None,
            is_primop: None,
            primop_meta: None,
            is_functor: None,
            attr_position: None,
            attr_expr: None,
            lambda_position: None,
            lambda_expr: None,
            count_applied: None,
            content_meta: None,
        },
        content: None,
    }
}

fn titles(app: &App) -> Vec<String> {
    app.results().iter().map(|r| r.doc.title().to_string()).collect()
}

#[test]
fn empty_query_lists_the_first_hundred() {
    let data: Vec<DocItem> = (0..150).map(|i| doc(&format!("d{}", i))).collect();
    let mut app = App::new(&data);
    assert!(app.results().is_empty());
    assert_eq!(app.selected(), None);
    app.update_search();
    assert_eq!(app.results().len(), 100);
    assert_eq!(app.results()[99].doc.title(), "d99");
    assert!(app.results().iter().all(|r| r.score == 0));
    assert_eq!(app.selected(), Some(0));
}

#[test]
fn typing_searches_and_backspace_restores() {
    let data = vec![doc("builtins.map"), doc("lib.lists.map"), doc("builtins.toString")];
    let mut app = App::new(&data);
    app.update_search();
    let before = titles(&app);
    app.on_key('m');
    app.on_key('a');
    assert_eq!(app.input(), "ma");
    assert!(titles(&app).iter().all(|t| t.contains("ma")));
    app.on_backspace();
    app.on_backspace();
    assert_eq!(app.input(), "");
    assert_eq!(titles(&app), before);
    app.on_backspace();
    assert_eq!(app.input(), "");
}

#[test]
fn no_match_selects_nothing() {
    let data = vec![doc("builtins.map")];
    let mut app = App::new(&data);
    app.on_key('z');
    assert!(app.results().is_empty());
    assert_eq!(app.selected(), None);
    app.select_next();
    assert_eq!(app.selected(), Some(0));
}

#[test]
fn selection_wraps_both_ways() {
    let data = vec![doc("a"), doc("b"), doc("c")];
    let mut app = App::new(&data);
    app.update_search();
    app.select_previous();
    assert_eq!(app.selected(), Some(2));
    app.select_next();
    assert_eq!(app.selected(), Some(0));
    app.select_next();
    app.select_next();
    assert_eq!(app.selected(), Some(2));
    app.select_previous();
    assert_eq!(app.selected(), Some(1));
}

#[test]
fn keys_drive_the_browser() {
    let data = vec![doc("a"), doc("b")];
    let mut app = App::new(&data);
    app.update_search();
    assert!(app.handle_key(KeyInput::Down));
    assert_eq!(app.selected(), Some(1));
    assert!(app.handle_key(KeyInput::Up));
    assert_eq!(app.selected(), Some(0));
    assert!(app.handle_key(KeyInput::Enter));
    assert!(app.handle_key(KeyInput::Other));
    assert_eq!(app.selected(), Some(0));
    assert!(app.handle_key(KeyInput::Char('b')));
    assert_eq!(app.input(), "b");
    assert!(app.handle_key(KeyInput::Backspace));
    assert_eq!(app.input(), "");
    assert!(!app.handle_key(KeyInput::Esc));
}

#[test]
fn moving_down_cycles_through_every_entry() {
    let data = vec![doc("a"), doc("b"), doc("c"), doc("d")];
    let mut app = App::new(&data);
    app.update_search();
    app.select_next();
    let start = app.selected().unwrap();
    let mut seen = Vec::new();
    for _ in 0..4 {
        app.select_next();
        seen.push(app.selected().unwrap());
    }
    assert_eq!(seen, vec![(start + 1) % 4, (start + 2) % 4, (start + 3) % 4, start]);
}
