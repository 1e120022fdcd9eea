use fixture::find::{all, first, first_with_extension, some, Entry, Verdict};
use std::cell::Cell;

fn file(path: &str) -> Entry {
    Entry::File(path.to_string())
}

fn directory(path: &str) -> Entry {
    Entry::Directory(path.to_string())
}

fn paths(expected: &[&str]) -> Vec<String> {
    expected.iter().map(|path| path.to_string()).collect()
}

#[test]
fn all_returns_the_files_that_satisfy() {
    let listing = vec![file("d/one.txt"), file("d/two.dat"), file("d/three.txt")];
    let found = all(&listing, |path: &str| path.ends_with(".txt"));
    assert_eq!(found, paths(&["d/one.txt", "d/three.txt"]));
}

#[test]
fn all_never_returns_a_directory() {
    let listing = vec![directory("d/sub"), file("d/a"), directory("d/other"), file("d/b")];
    let found = all(&listing, |_: &str| true);
    assert_eq!(found, paths(&["d/a", "d/b"]));
}

#[test]
fn all_never_asks_about_a_directory() {
    let listing = vec![directory("d/sub"), file("d/a"), directory("d/other")];
    let asked = Cell::new(0);
    let found = all(&listing, |path: &str| {
        asked.set(asked.get() + 1);
        path == "d/sub"
    });
    assert_eq!(found, paths(&[]));
    assert_eq!(asked.get(), 1);
}

#[test]
fn all_keeps_the_order_of_the_listing() {
    let listing = vec![file("z"), file("a"), file("m")];
    assert_eq!(all(&listing, |_: &str| true), paths(&["z", "a", "m"]));
}

#[test]
fn all_of_an_empty_listing_is_empty() {
    let listing: Vec<Entry> = Vec::new();
    assert_eq!(all(&listing, |_: &str| true), paths(&[]));
}

#[test]
fn all_of_a_directory_that_cannot_be_listed_is_empty() {
    let listing = vec![Entry::Unreadable];
    assert_eq!(all(&listing, |_: &str| true), paths(&[]));
}

#[test]
fn all_returns_what_it_had_at_an_unreadable_entry() {
    let listing = vec![file("a"), file("b"), Entry::Unreadable, file("c")];
    assert_eq!(all(&listing, |_: &str| true), paths(&["a", "b"]));
}

#[test]
fn first_returns_the_first_match() {
    let listing = vec![file("a.dat"), file("b.txt"), file("c.txt")];
    let found = first(&listing, |path: &str| path.ends_with(".txt"));
    assert_eq!(found, Some("b.txt".to_string()));
}

#[test]
fn first_asks_no_further_than_the_match() {
    let listing = vec![file("a"), file("b"), file("c")];
    let asked = Cell::new(0);
    let found = first(&listing, |path: &str| {
        asked.set(asked.get() + 1);
        path == "b"
    });
    assert_eq!(found, Some("b".to_string()));
    assert_eq!(asked.get(), 2);
}

#[test]
fn first_returns_nothing_without_a_match() {
    let listing = vec![file("a"), directory("b"), file("c")];
    assert_eq!(first(&listing, |_: &str| false), None);
}

#[test]
fn first_passes_over_directories() {
    let listing = vec![directory("a"), file("b")];
    assert_eq!(first(&listing, |_: &str| true), Some("b".to_string()));
}

#[test]
fn first_returns_nothing_behind_an_unreadable_entry() {
    let listing = vec![file("a"), Entry::Unreadable, file("b")];
    assert_eq!(first(&listing, |path: &str| path == "b"), None);
}

#[test]
fn first_of_a_directory_that_cannot_be_listed_is_nothing() {
    let listing = vec![Entry::Unreadable];
    assert_eq!(first(&listing, |_: &str| true), None);
}

#[test]
fn first_is_the_head_of_some() {
    let listing = vec![file("a"), file("bb"), directory("cc"), file("dd")];
    let long = |path: &str| path.len() > 1;
    let one = some(&listing, |path: &str| {
        if long(path) {
            Verdict::AcceptStop
        } else {
            Verdict::RejectMore
        }
    });
    assert_eq!(one, paths(&["bb"]));
    assert_eq!(first(&listing, long), one.first().cloned());
}

#[test]
fn first_is_nothing_where_some_is_empty() {
    let listing = vec![file("a"), file("b")];
    let never = |_: &str| false;
    let none = some(&listing, |path: &str| {
        if never(path) {
            Verdict::AcceptStop
        } else {
            Verdict::RejectMore
        }
    });
    assert!(none.is_empty());
    assert_eq!(first(&listing, never), None);
}

#[test]
fn first_with_extension_ignores_case() {
    let listing = vec![file("d/a.TXT")];
    assert_eq!(first_with_extension(&listing, "txt"), Some("d/a.TXT".to_string()));
}

#[test]
fn first_with_extension_lowers_what_is_asked_for() {
    let listing = vec![file("d/a.txt")];
    assert_eq!(first_with_extension(&listing, "TXT"), Some("d/a.txt".to_string()));
    assert_eq!(first_with_extension(&listing, "TxT"), Some("d/a.txt".to_string()));
}

#[test]
fn first_with_extension_wants_the_whole_extension() {
    let listing = vec![file("d/a.txtx"), file("d/b.tx")];
    assert_eq!(first_with_extension(&listing, "txt"), None);
}

#[test]
fn first_with_extension_passes_over_files_without_one() {
    let listing = vec![file("d/txt"), file("d/.txt"), file("d.txt/a")];
    assert_eq!(first_with_extension(&listing, "txt"), None);
    assert_eq!(first_with_extension(&listing, ""), None);
}

#[test]
fn first_with_extension_goes_by_the_last_dot() {
    let listing = vec![file("d/a.txt.gz"), file("d/b.gz.txt")];
    assert_eq!(first_with_extension(&listing, "txt"), Some("d/b.gz.txt".to_string()));
    assert_eq!(first_with_extension(&listing, "gz"), Some("d/a.txt.gz".to_string()));
}

#[test]
fn first_with_extension_takes_the_first_of_several() {
    let listing = vec![directory("d/x.txt"), file("d/a.dat"), file("d/b.Txt"), file("d/c.txt")];
    assert_eq!(first_with_extension(&listing, "txt"), Some("d/b.Txt".to_string()));
}

#[test]
fn first_with_extension_takes_an_empty_extension() {
    let listing = vec![file("d/a"), file("d/b.")];
    assert_eq!(first_with_extension(&listing, ""), Some("d/b.".to_string()));
}

#[test]
fn first_with_extension_lowers_ascii_letters_only() {
    let listing = vec![file("d/a.\u{c9}t\u{c9}")];
    assert_eq!(first_with_extension(&listing, "\u{e9}t\u{e9}"), None);
    assert_eq!(first_with_extension(&listing, "\u{c9}T\u{c9}"), Some("d/a.\u{c9}t\u{c9}".to_string()));
}

#[test]
fn some_stops_at_a_rejected_file() {
    let listing = vec![file("1"), file("2"), file("3"), file("4"), file("5")];
    let asked = Cell::new(0);
    let found = some(&listing, |path: &str| {
        asked.set(asked.get() + 1);
        if path == "3" {
            Verdict::RejectStop
        } else {
            Verdict::AcceptMore
        }
    });
    assert_eq!(found, paths(&["1", "2"]));
    assert_eq!(asked.get(), 3);
}

#[test]
fn some_returns_the_accepted_of_those_examined() {
    let listing = vec![file("1"), file("2"), file("3"), file("4"), file("5")];
    let found = some(&listing, |path: &str| match path {
        "1" => Verdict::RejectMore,
        "2" => Verdict::AcceptMore,
        "3" => Verdict::RejectStop,
        _ => Verdict::AcceptMore,
    });
    assert_eq!(found, paths(&["2"]));
}

#[test]
fn some_stops_at_an_accepted_file() {
    let listing = vec![file("1"), file("2"), file("3")];
    let asked = Cell::new(0);
    let found = some(&listing, |path: &str| {
        asked.set(asked.get() + 1);
        if path == "2" {
            Verdict::AcceptStop
        } else {
            Verdict::AcceptMore
        }
    });
    assert_eq!(found, paths(&["1", "2"]));
    assert_eq!(asked.get(), 2);
}

#[test]
fn some_goes_through_all_without_a_stop() {
    let listing = vec![file("1"), directory("2"), file("3"), file("4")];
    let found = some(&listing, |path: &str| {
        if path == "3" {
            Verdict::RejectMore
        } else {
            Verdict::AcceptMore
        }
    });
    assert_eq!(found, paths(&["1", "4"]));
}

#[test]
fn some_does_not_stop_at_a_directory() {
    let listing = vec![directory("stop"), file("a")];
    let found = some(&listing, |path: &str| {
        if path == "stop" {
            Verdict::RejectStop
        } else {
            Verdict::AcceptMore
        }
    });
    assert_eq!(found, paths(&["a"]));
}

#[test]
fn some_returns_what_it_had_at_an_unreadable_entry() {
    let listing = vec![file("1"), Entry::Unreadable, file("2")];
    let asked = Cell::new(0);
    let found = some(&listing, |_: &str| {
        asked.set(asked.get() + 1);
        Verdict::AcceptMore
    });
    assert_eq!(found, paths(&["1"]));
    assert_eq!(asked.get(), 1);
}

#[test]
fn first_is_the_head_of_all() {
    let listing = vec![directory("cc"), file("a"), file("bb"), Entry::Unreadable, file("dd")];
    let long = |path: &str| path.len() > 1;
    assert_eq!(all(&listing, long), paths(&["bb"]));
    assert_eq!(first(&listing, long), Some("bb".to_string()));
    let longer = |path: &str| path.len() > 2;
    assert_eq!(all(&listing, longer), paths(&[]));
    assert_eq!(first(&listing, longer), None);
}
