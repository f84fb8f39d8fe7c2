use rsh::history::History;

fn history_of(lines: &[&str]) -> History {
    let mut history = History::new(100);
    for line in lines {
        history.add(line);
    }
    history
}

#[test]
fn lines_are_remembered_in_order() {
    let history = history_of(&["one", "two"]);
    assert_eq!(history.get(0), Some("one"));
    assert_eq!(history.get(1), Some("two"));
    assert_eq!(history.len(), 2);
}

#[test]
fn blank_lines_are_not_worth_remembering() {
    let history = history_of(&["", "   ", "\t"]);
    assert!(history.is_empty());
}

#[test]
fn a_repeated_line_is_stored_once() {
    let history = history_of(&["ls", "ls", "ls"]);
    assert_eq!(history.len(), 1);
}

#[test]
fn a_repeat_that_is_not_consecutive_is_kept() {
    let history = history_of(&["ls", "cd", "ls"]);
    assert_eq!(history.len(), 3);
}

#[test]
fn the_oldest_entries_fall_off_the_end() {
    let mut history = History::new(2);
    for line in ["one", "two", "three"] {
        history.add(line);
    }
    assert_eq!(history.iter(), ["two", "three"]);
}

#[test]
fn searching_backwards_finds_the_most_recent_match() {
    let history = history_of(&["git status", "ls", "git commit"]);
    assert_eq!(history.search_back("git", 3), Some(2));
    assert_eq!(history.search_back("git", 2), Some(0));
    assert_eq!(history.search_back("git", 0), None);
}

#[test]
fn searching_forward_finds_the_next_match() {
    let history = history_of(&["git status", "ls", "git commit"]);
    assert_eq!(history.search_forward("git", 0), Some(2));
    assert_eq!(history.search_forward("git", 2), None);
}

#[test]
fn an_empty_prefix_matches_everything() {
    let history = history_of(&["one", "two"]);
    assert_eq!(history.search_back("", 2), Some(1));
    assert_eq!(history.search_forward("", 0), Some(1));
}

#[test]
fn an_empty_text_is_an_empty_history() {
    assert!(History::from_text("", 10).is_empty());
}

#[test]
fn history_survives_a_round_trip_through_text() {
    let text = history_of(&["one", "two"]).to_text();
    assert_eq!(text, "one\ntwo\n");
    let loaded = History::from_text(&text, 10);
    assert_eq!(loaded.iter(), ["one", "two"]);
}

#[test]
fn reading_text_drops_what_adding_would_drop() {
    let loaded = History::from_text("a\r\n\nb\nb\n  \nc", 2);
    assert_eq!(loaded.iter(), ["b", "c"]);
    assert_eq!(loaded.get(2), None);
}

#[test]
fn a_zero_limit_remembers_nothing() {
    let mut history = History::new(0);
    history.add("ls");
    assert!(history.is_empty());
}
