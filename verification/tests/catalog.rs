use launchbox::catalog::{Catalog, Category, Entry};

fn entry(label: &str, command_line: &str) -> Entry {
    Entry { label: label.to_string(), command_line: command_line.to_string() }
}

fn category(name: &str, entries: Vec<Entry>) -> Category {
    Category { name: name.to_string(), entries }
}

fn pairs(category: &Category) -> Vec<(String, String)> {
    category.entries.iter().map(|e| (e.label.clone(), e.command_line.clone())).collect()
}

fn owned(items: &[(&str, &str)]) -> Vec<(String, String)> {
    items.iter().map(|(l, c)| (l.to_string(), c.to_string())).collect()
}

#[test]
fn all_holds_the_entries_of_every_category_by_label() {
    let catalog = Catalog::new(vec![
        category("work", vec![entry("editor", "vim")]),
        category("play", vec![entry("game", "nethack")]),
    ]);
    assert_eq!(catalog.len(), 3);
    let all = catalog.category(0).unwrap();
    assert_eq!(all.name, "All");
    assert_eq!(pairs(all), owned(&[("editor", "vim"), ("game", "nethack")]));
    let work = catalog.category(1).unwrap();
    assert_eq!(work.name, "work");
    assert_eq!(pairs(work), owned(&[("editor", "vim")]));
    let play = catalog.category(2).unwrap();
    assert_eq!(play.name, "play");
    assert_eq!(pairs(play), owned(&[("game", "nethack")]));
    assert!(catalog.category(3).is_none());
}

#[test]
fn all_is_ordered_whatever_the_order_of_the_categories() {
    let catalog = Catalog::new(vec![
        category("play", vec![entry("game", "nethack")]),
        category("work", vec![entry("editor", "vim")]),
    ]);
    assert_eq!(pairs(catalog.category(0).unwrap()), owned(&[("editor", "vim"), ("game", "nethack")]));
    assert_eq!(catalog.category(1).unwrap().name, "play");
    assert_eq!(catalog.category(2).unwrap().name, "work");
}

#[test]
fn all_orders_by_plain_string_comparison() {
    let catalog = Catalog::new(vec![category(
        "mixed",
        vec![
            entry("b", "2"),
            entry("a", "1"),
            entry("B", "3"),
            entry("ab", "4"),
            entry("", "5"),
            entry("é", "6"),
            entry("z", "7"),
        ],
    )]);
    assert_eq!(
        pairs(catalog.category(0).unwrap()),
        owned(&[("", "5"), ("B", "3"), ("a", "1"), ("ab", "4"), ("b", "2"), ("z", "7"), ("é", "6")])
    );
}

#[test]
fn all_matches_the_sort_of_pairs() {
    let given = vec![
        category("one", vec![entry("mail", "mutt"), entry("editor", "vim"), entry("web", "lynx")]),
        category("two", vec![entry("editor", "emacs"), entry("calc", "bc -l")]),
        category("three", vec![]),
        category("four", vec![entry("web", "lynx"), entry("Editor", "ed")]),
    ];
    let mut expected: Vec<(String, String)> = given.iter().flat_map(|c| pairs(c)).collect();
    expected.sort();
    let catalog = Catalog::new(given);
    assert_eq!(pairs(catalog.category(0).unwrap()), expected);
}

#[test]
fn all_breaks_a_tie_of_labels_by_the_command_line() {
    let catalog = Catalog::new(vec![
        category("work", vec![entry("editor", "vim")]),
        category("play", vec![entry("editor", "emacs")]),
    ]);
    assert_eq!(pairs(catalog.category(0).unwrap()), owned(&[("editor", "emacs"), ("editor", "vim")]));
}

#[test]
fn all_keeps_an_entry_as_often_as_it_occurs() {
    let catalog = Catalog::new(vec![
        category("work", vec![entry("editor", "vim")]),
        category("play", vec![entry("editor", "vim")]),
    ]);
    assert_eq!(pairs(catalog.category(0).unwrap()), owned(&[("editor", "vim"), ("editor", "vim")]));
}

#[test]
fn the_given_categories_keep_their_own_order_of_entries() {
    let catalog = Catalog::new(vec![category(
        "work",
        vec![entry("zsh", "zsh"), entry("editor", "vim")],
    )]);
    assert_eq!(pairs(catalog.category(1).unwrap()), owned(&[("zsh", "zsh"), ("editor", "vim")]));
    assert_eq!(pairs(catalog.category(0).unwrap()), owned(&[("editor", "vim"), ("zsh", "zsh")]));
}

#[test]
fn a_catalog_of_nothing_holds_an_empty_all() {
    let catalog = Catalog::new(vec![]);
    assert_eq!(catalog.len(), 1);
    let all = catalog.category(0).unwrap();
    assert_eq!(all.name, "All");
    assert!(all.entries.is_empty());
    assert!(catalog.category(1).is_none());
}

#[test]
fn precedes_compares_label_then_command_line() {
    assert!(entry("editor", "vim").precedes(&entry("game", "nethack")));
    assert!(!entry("game", "nethack").precedes(&entry("editor", "vim")));
    assert!(entry("editor", "emacs").precedes(&entry("editor", "vim")));
    assert!(!entry("editor", "vim").precedes(&entry("editor", "emacs")));
    assert!(entry("editor", "vim").precedes(&entry("editor", "vim")));
    assert!(entry("a", "z").precedes(&entry("b", "a")));
}

#[test]
fn duplicate_copies_label_and_command_line() {
    let e = entry("editor", "vim -u NONE");
    let d = e.duplicate();
    assert_eq!(d.label, "editor");
    assert_eq!(d.command_line, "vim -u NONE");
}
