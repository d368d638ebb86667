use acropolis::cli::key_pair_dir_name;
use acropolis::dashboard::{tally_votes, App, KeyInput};

#[test]
fn new_dashboard_selects_placeholder() {
    let app = App::new();
    assert!(app.running);
    assert!(app.error.is_none());
    assert_eq!(app.elections, vec!["None".to_string()]);
    assert_eq!(app.list_elections.selected(), Some(0));
    assert!(app.tally.is_empty());
}

#[test]
fn quit_stops_the_dashboard() {
    let mut app = App::new();
    app.tick();
    app.quit();
    assert!(!app.running);
}

#[test]
fn next_and_previous_wrap_around() {
    let mut app = App::new();
    app.elections = vec!["a".to_string(), "b".to_string(), "c".to_string()];
    app.next();
    assert_eq!(app.list_elections.selected(), Some(1));
    app.next();
    app.next();
    assert_eq!(app.list_elections.selected(), Some(0));
    app.previous();
    assert_eq!(app.list_elections.selected(), Some(2));
    app.previous();
    assert_eq!(app.list_elections.selected(), Some(1));
    app.list_elections.select(None);
    app.previous();
    assert_eq!(app.list_elections.selected(), Some(0));
    app.list_elections.select(None);
    app.next();
    assert_eq!(app.list_elections.selected(), Some(0));
}

#[test]
fn next_then_previous_returns() {
    let mut app = App::new();
    app.elections = vec!["a".to_string(), "b".to_string()];
    for start in 0..2 {
        app.list_elections.select(Some(start));
        app.next();
        app.previous();
        assert_eq!(app.list_elections.selected(), Some(start));
    }
}

#[test]
fn tally_counts_each_choice() {
    let votes: Vec<String> = ["b", "a", "b", "c", "b"].iter().map(|s| s.to_string()).collect();
    let tally = tally_votes(&votes);
    assert_eq!(tally, vec![("b".to_string(), 3), ("a".to_string(), 1), ("c".to_string(), 1)]);
    let total: u64 = tally.iter().map(|(_, n)| n).sum();
    assert_eq!(total, 5);
    assert!(tally_votes(&vec![]).is_empty());
}

#[test]
fn key_pairs_default_to_user_directory() {
    assert_eq!(key_pair_dir_name(None), "user");
    assert_eq!(key_pair_dir_name(Some("alice".to_string())), "alice");
}

#[test]
fn keys_quit_or_move_the_selection() {
    let mut app = App::new();
    app.elections = vec!["a".to_string(), "b".to_string()];
    app.on_key(KeyInput::Down);
    assert_eq!(app.list_elections.selected(), Some(1));
    app.on_key(KeyInput::Down);
    assert_eq!(app.list_elections.selected(), Some(0));
    app.on_key(KeyInput::Up);
    assert_eq!(app.list_elections.selected(), Some(1));
    app.on_key(KeyInput::Char { c: 'c', control: false });
    app.on_key(KeyInput::Other);
    assert!(app.running);
    app.on_key(KeyInput::Char { c: 'c', control: true });
    assert!(!app.running);
    let mut app = App::new();
    app.on_key(KeyInput::Char { c: 'q', control: false });
    assert!(!app.running);
    let mut app = App::new();
    app.on_key(KeyInput::Esc);
    assert!(!app.running);
    let mut empty = App::new();
    empty.elections.clear();
    empty.on_key(KeyInput::Down);
    empty.on_key(KeyInput::Up);
    assert_eq!(empty.list_elections.selected(), Some(0));
}
