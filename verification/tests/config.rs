use launchbox::catalog::Category;
use launchbox::config::{Config, ConfigError, ConfigValue};

const SAMPLE: &str = r#"
[launchbox]
category = ["work", "play"]

[launchbox.info]
editor = ["The editor.", "Leave it with :q."]

[work]
editor = "vim"

[play]
game = "nethack"
"#;

fn text(s: &str) -> ConfigValue {
    ConfigValue::Text(s.to_string())
}

fn table(pairs: Vec<(&str, ConfigValue)>) -> ConfigValue {
    ConfigValue::Table(pairs.into_iter().map(|(k, v)| (k.to_string(), v)).collect())
}

fn array(items: Vec<ConfigValue>) -> ConfigValue {
    ConfigValue::Array(items)
}

fn sample_document() -> ConfigValue {
    table(vec![
        (
            "launchbox",
            table(vec![
                ("category", array(vec![text("work"), text("play")])),
                ("info", table(vec![("editor", array(vec![text("The editor.")]))])),
            ]),
        ),
        ("play", table(vec![("game", text("nethack"))])),
        ("work", table(vec![("editor", text("vim"))])),
    ])
}

fn pairs(category: &Category) -> Vec<(String, String)> {
    category.entries.iter().map(|e| (e.label.clone(), e.command_line.clone())).collect()
}

fn owned(items: &[(&str, &str)]) -> Vec<(String, String)> {
    items.iter().map(|(l, c)| (l.to_string(), c.to_string())).collect()
}

#[test]
fn load_reads_categories_entries_and_notes() {
    let config = Config::load(SAMPLE).unwrap();
    assert_eq!(config.catalog.len(), 3);
    let all = config.catalog.category(0).unwrap();
    assert_eq!(all.name, "All");
    assert_eq!(pairs(all), owned(&[("editor", "vim"), ("game", "nethack")]));
    let work = config.catalog.category(1).unwrap();
    assert_eq!(work.name, "work");
    assert_eq!(pairs(work), owned(&[("editor", "vim")]));
    let play = config.catalog.category(2).unwrap();
    assert_eq!(play.name, "play");
    assert_eq!(pairs(play), owned(&[("game", "nethack")]));
    assert_eq!(
        config.notes.lines_for("editor"),
        Some(&vec!["The editor.".to_string(), "Leave it with :q.".to_string()])
    );
    assert_eq!(config.notes.lines_for("game"), None);
}

#[test]
fn load_lists_the_entries_of_a_table_by_key() {
    let config = Config::load(
        "[launchbox]\ncategory = [\"tools\"]\n[launchbox.info]\n[tools]\nzsh = \"zsh -l\"\ncalc = \"bc\"\nmail = \"mutt\"\n",
    )
    .unwrap();
    assert_eq!(
        pairs(config.catalog.category(1).unwrap()),
        owned(&[("calc", "bc"), ("mail", "mutt"), ("zsh", "zsh -l")])
    );
    assert!(config.notes.notes.is_empty());
}

#[test]
fn load_refuses_what_is_no_toml() {
    assert_eq!(Config::load("[launchbox").err(), Some(ConfigError::Syntax));
    assert_eq!(Config::load("category = ").err(), Some(ConfigError::Syntax));
    assert_eq!(Config::load("a = 1\na = 2\n").err(), Some(ConfigError::Syntax));
}

#[test]
fn load_refuses_toml_in_another_shape() {
    assert_eq!(Config::load("").err(), Some(ConfigError::Shape));
    assert_eq!(Config::load("title = \"x\"\n").err(), Some(ConfigError::Shape));
    assert_eq!(
        Config::load("[launchbox]\ncategory = [\"work\"]\n").err(),
        Some(ConfigError::Shape)
    );
    assert_eq!(
        Config::load("[launchbox]\ncategory = \"work\"\n[launchbox.info]\n").err(),
        Some(ConfigError::Shape)
    );
    assert_eq!(
        Config::load("[launchbox]\ncategory = [\"work\"]\n[launchbox.info]\n[work]\neditor = 5\n").err(),
        Some(ConfigError::Shape)
    );
}

#[test]
fn load_reads_numbers_dates_and_nested_values_without_using_them() {
    let config = Config::load(
        "speed = 1.5\nsince = 1979-05-27T07:32:00Z\ncount = 3\non = true\n[launchbox]\ncategory = []\nextra = [[1, 2], [3]]\n[launchbox.info]\n",
    )
    .unwrap();
    assert_eq!(config.catalog.len(), 1);
    assert!(config.catalog.category(0).unwrap().entries.is_empty());
}

#[test]
fn from_document_reads_a_document_built_by_hand() {
    let config = Config::from_document(&sample_document()).unwrap();
    assert_eq!(config.catalog.len(), 3);
    assert_eq!(
        pairs(config.catalog.category(0).unwrap()),
        owned(&[("editor", "vim"), ("game", "nethack")])
    );
    assert_eq!(config.catalog.category(1).unwrap().name, "work");
    assert_eq!(config.catalog.category(2).unwrap().name, "play");
    assert_eq!(config.notes.notes.len(), 1);
    assert_eq!(config.notes.notes[0].label, "editor");
    assert_eq!(config.notes.notes[0].lines, vec!["The editor.".to_string()]);
}

#[test]
fn from_document_gives_a_category_without_table_no_entries() {
    let doc = table(vec![
        (
            "launchbox",
            table(vec![
                ("category", array(vec![text("work"), text("idle")])),
                ("info", table(vec![])),
            ]),
        ),
        ("work", table(vec![("editor", text("vim"))])),
    ]);
    let config = Config::from_document(&doc).unwrap();
    assert_eq!(config.catalog.len(), 3);
    let idle = config.catalog.category(2).unwrap();
    assert_eq!(idle.name, "idle");
    assert!(idle.entries.is_empty());
    assert_eq!(pairs(config.catalog.category(0).unwrap()), owned(&[("editor", "vim")]));
}

#[test]
fn from_document_ignores_tables_that_are_no_category() {
    let doc = table(vec![
        (
            "launchbox",
            table(vec![("category", array(vec![text("work")])), ("info", table(vec![]))]),
        ),
        ("other", table(vec![("hidden", text("rm -rf /"))])),
        ("work", table(vec![("editor", text("vim"))])),
    ]);
    let config = Config::from_document(&doc).unwrap();
    assert_eq!(config.catalog.len(), 2);
    assert_eq!(pairs(config.catalog.category(0).unwrap()), owned(&[("editor", "vim")]));
}

#[test]
fn from_document_refuses_a_document_that_is_no_table() {
    assert_eq!(Config::from_document(&text("x")).err(), Some(ConfigError::Shape));
    assert_eq!(Config::from_document(&array(vec![])).err(), Some(ConfigError::Shape));
    assert_eq!(Config::from_document(&ConfigValue::Integer(1)).err(), Some(ConfigError::Shape));
    assert_eq!(Config::from_document(&ConfigValue::Float).err(), Some(ConfigError::Shape));
    assert_eq!(Config::from_document(&ConfigValue::Boolean(true)).err(), Some(ConfigError::Shape));
    assert_eq!(Config::from_document(&ConfigValue::Datetime).err(), Some(ConfigError::Shape));
}

#[test]
fn from_document_refuses_a_missing_or_malformed_launchbox() {
    assert_eq!(Config::from_document(&table(vec![])).err(), Some(ConfigError::Shape));
    let doc = table(vec![("launchbox", text("x"))]);
    assert_eq!(Config::from_document(&doc).err(), Some(ConfigError::Shape));
    let doc = table(vec![("launchbox", table(vec![("info", table(vec![]))]))]);
    assert_eq!(Config::from_document(&doc).err(), Some(ConfigError::Shape));
    let doc = table(vec![("launchbox", table(vec![("category", array(vec![]))]))]);
    assert_eq!(Config::from_document(&doc).err(), Some(ConfigError::Shape));
}

#[test]
fn from_document_refuses_names_that_are_no_texts() {
    let doc = table(vec![(
        "launchbox",
        table(vec![
            ("category", array(vec![text("work"), ConfigValue::Integer(2)])),
            ("info", table(vec![])),
        ]),
    )]);
    assert_eq!(Config::from_document(&doc).err(), Some(ConfigError::Shape));
}

#[test]
fn from_document_refuses_a_category_that_is_no_table_of_texts() {
    let main = || {
        table(vec![("category", array(vec![text("work")])), ("info", table(vec![]))])
    };
    let doc = table(vec![("launchbox", main()), ("work", text("vim"))]);
    assert_eq!(Config::from_document(&doc).err(), Some(ConfigError::Shape));
    let doc = table(vec![
        ("launchbox", main()),
        ("work", table(vec![("editor", text("vim")), ("broken", ConfigValue::Boolean(true))])),
    ]);
    assert_eq!(Config::from_document(&doc).err(), Some(ConfigError::Shape));
}

#[test]
fn from_document_refuses_notes_that_are_no_arrays_of_texts() {
    let doc = table(vec![(
        "launchbox",
        table(vec![
            ("category", array(vec![])),
            ("info", table(vec![("editor", text("one line"))])),
        ]),
    )]);
    assert_eq!(Config::from_document(&doc).err(), Some(ConfigError::Shape));
    let doc = table(vec![(
        "launchbox",
        table(vec![
            ("category", array(vec![])),
            ("info", table(vec![("editor", array(vec![text("a"), ConfigValue::Float]))])),
        ]),
    )]);
    assert_eq!(Config::from_document(&doc).err(), Some(ConfigError::Shape));
}

#[test]
fn lines_for_finds_the_note_of_a_label() {
    let doc = table(vec![(
        "launchbox",
        table(vec![
            ("category", array(vec![])),
            (
                "info",
                table(vec![
                    ("editor", array(vec![text("one"), text("two")])),
                    ("game", array(vec![])),
                ]),
            ),
        ]),
    )]);
    let config = Config::from_document(&doc).unwrap();
    assert_eq!(config.notes.lines_for("editor"), Some(&vec!["one".to_string(), "two".to_string()]));
    assert_eq!(config.notes.lines_for("game"), Some(&vec![]));
    assert_eq!(config.notes.lines_for("mail"), None);
}
