//! The configuration of the launcher: a TOML document that names the
//! categories, holds one table of `label = "command line"` pairs for each of
//! them, and notes to show beside the entries.
//!
//! ```toml
//! [launchbox]
//! category = ["work", "play"]
//!
//! [launchbox.info]
//! editor = ["The editor.", "Leave it with :q."]
//!
//! [work]
//! editor = "vim"
//!
//! [play]
//! game = "nethack"
//! ```

use crate::catalog::{category_views, entry_views, lists, Catalog, Category, CategoryView, Entry, EntryView};
use crate::text::texts;
use vstd::prelude::*;
use vstd::string::*;

verus! {

/// A value of a TOML document. Numbers with a fraction and dates are kept as
/// marks only: the launcher reads neither.
#[derive(Debug)]
pub enum ConfigValue {
    Text(String),
    Integer(i64),
    Float,
    Boolean(bool),
    Datetime,
    Array(Vec<ConfigValue>),
    /// The pairs of a table, in the order of their keys.
    Table(Vec<(String, ConfigValue)>),
}

/// What a value of a document stands for.
pub ghost enum ConfigView {
    Text(Seq<char>),
    Integer(i64),
    Float,
    Boolean(bool),
    Datetime,
    Array(Seq<ConfigView>),
    Table(Seq<(Seq<char>, ConfigView)>),
}

/// What `value` stands for: the same value, with the contents of each
/// string in place of the string.
pub open spec fn value_view(value: ConfigValue) -> ConfigView
    decreases value,
{
    match value {
        ConfigValue::Text(s) => ConfigView::Text(s@),
        ConfigValue::Integer(i) => ConfigView::Integer(i),
        ConfigValue::Float => ConfigView::Float,
        ConfigValue::Boolean(b) => ConfigView::Boolean(b),
        ConfigValue::Datetime => ConfigView::Datetime,
        ConfigValue::Array(items) => ConfigView::Array(
            Seq::new(
                items@.len(),
                |i: int|
                    if 0 <= i < items@.len() {
                        value_view(items@[i])
                    } else {
                        ConfigView::Float
                    },
            ),
        ),
        ConfigValue::Table(pairs) => ConfigView::Table(
            Seq::new(
                pairs@.len(),
                |i: int|
                    if 0 <= i < pairs@.len() {
                        (pairs@[i].0@, value_view(pairs@[i].1))
                    } else {
                        (Seq::<char>::empty(), ConfigView::Float)
                    },
            ),
        ),
    }
}

impl View for ConfigValue {
    type V = ConfigView;

    open spec fn view(&self) -> ConfigView {
        value_view(*self)
    }
}

/// What a list of values stands for.
pub open spec fn array_view(items: Seq<ConfigValue>) -> Seq<ConfigView> {
    Seq::new(items.len(), |i: int| items[i]@)
}

/// What the pairs of a table stand for.
pub open spec fn table_view(pairs: Seq<(String, ConfigValue)>) -> Seq<(Seq<char>, ConfigView)> {
    Seq::new(pairs.len(), |i: int| (pairs[i].0@, pairs[i].1@))
}

/// The text of a value that is one.
pub open spec fn as_text(value: ConfigView) -> Option<Seq<char>> {
    match value {
        ConfigView::Text(s) => Some(s),
        _ => None,
    }
}

/// The items of a value that is an array.
pub open spec fn as_array(value: ConfigView) -> Option<Seq<ConfigView>> {
    match value {
        ConfigView::Array(items) => Some(items),
        _ => None,
    }
}

/// The pairs of a value that is a table.
pub open spec fn as_table(value: ConfigView) -> Option<Seq<(Seq<char>, ConfigView)>> {
    match value {
        ConfigView::Table(pairs) => Some(pairs),
        _ => None,
    }
}

/// The value of the first pair from position `i` on whose key is `key`.
pub open spec fn lookup_from(pairs: Seq<(Seq<char>, ConfigView)>, key: Seq<char>, i: int) -> Option<
    ConfigView,
>
    decreases pairs.len() - i,
{
    if i >= pairs.len() {
        None
    } else if pairs[i].0 == key {
        Some(pairs[i].1)
    } else {
        lookup_from(pairs, key, i + 1)
    }
}

/// The value that a table holds under `key`.
pub open spec fn lookup(pairs: Seq<(Seq<char>, ConfigView)>, key: Seq<char>) -> Option<ConfigView> {
    lookup_from(pairs, key, 0)
}

/// The texts of `items`, where each of them is a text.
pub open spec fn texts_of(items: Seq<ConfigView>) -> Option<Seq<Seq<char>>> {
    if forall|i: int| 0 <= i < items.len() ==> as_text(#[trigger] items[i]) is Some {
        Some(Seq::new(items.len(), |i: int| as_text(items[i])->0))
    } else {
        None
    }
}

/// The entries that a table of a category holds: each key is a label, and
/// its value, a text, the command line.
pub open spec fn entries_of(pairs: Seq<(Seq<char>, ConfigView)>) -> Option<Seq<EntryView>> {
    if forall|i: int| 0 <= i < pairs.len() ==> as_text((#[trigger] pairs[i]).1) is Some {
        Some(
            Seq::new(
                pairs.len(),
                |i: int| EntryView { label: pairs[i].0, command_line: as_text(pairs[i].1)->0 },
            ),
        )
    } else {
        None
    }
}

/// The category `name` of a document with the pairs `top`. A category
/// without a table has no entries; one whose table holds anything but texts
/// is malformed.
pub open spec fn section_of(top: Seq<(Seq<char>, ConfigView)>, name: Seq<char>) -> Option<
    CategoryView,
> {
    match lookup(top, name) {
        None => Some(CategoryView { name, entries: Seq::<EntryView>::empty() }),
        Some(value) => match as_table(value) {
            Some(pairs) => match entries_of(pairs) {
                Some(entries) => Some(CategoryView { name, entries }),
                None => None,
            },
            None => None,
        },
    }
}

/// The categories `names` of a document with the pairs `top`, in order.
pub open spec fn sections_of(top: Seq<(Seq<char>, ConfigView)>, names: Seq<Seq<char>>) -> Option<
    Seq<CategoryView>,
> {
    if forall|i: int| 0 <= i < names.len() ==> section_of(top, #[trigger] names[i]) is Some {
        Some(Seq::new(names.len(), |i: int| section_of(top, names[i])->0))
    } else {
        None
    }
}

/// What a note stands for.
pub ghost struct NoteView {
    pub label: Seq<char>,
    pub lines: Seq<Seq<char>>,
}

/// The lines of a note, where `value` is an array of texts.
pub open spec fn lines_of(value: ConfigView) -> Option<Seq<Seq<char>>> {
    match as_array(value) {
        Some(items) => texts_of(items),
        None => None,
    }
}

/// The notes that the table `info` holds: each key is a label, and its
/// value, an array of texts, the lines to show.
pub open spec fn notes_of(pairs: Seq<(Seq<char>, ConfigView)>) -> Option<Seq<NoteView>> {
    if forall|i: int| 0 <= i < pairs.len() ==> lines_of((#[trigger] pairs[i]).1) is Some {
        Some(
            Seq::new(
                pairs.len(),
                |i: int| NoteView { label: pairs[i].0, lines: lines_of(pairs[i].1)->0 },
            ),
        )
    } else {
        None
    }
}

/// The table `launchbox` of a document.
pub open spec fn main_table(doc: ConfigView) -> Option<Seq<(Seq<char>, ConfigView)>> {
    match as_table(doc) {
        Some(top) => match lookup(top, "launchbox"@) {
            Some(value) => as_table(value),
            None => None,
        },
        None => None,
    }
}

/// The names of the categories: the array of texts `launchbox.category`.
pub open spec fn category_names(doc: ConfigView) -> Option<Seq<Seq<char>>> {
    match main_table(doc) {
        Some(main) => match lookup(main, "category"@) {
            Some(value) => match as_array(value) {
                Some(items) => texts_of(items),
                None => None,
            },
            None => None,
        },
        None => None,
    }
}

/// The categories that a document describes, in the order of their names.
pub open spec fn given_categories(doc: ConfigView) -> Option<Seq<CategoryView>> {
    match category_names(doc) {
        Some(names) => sections_of(as_table(doc)->0, names),
        None => None,
    }
}

/// The notes that a document holds: the table `launchbox.info`.
pub open spec fn given_notes(doc: ConfigView) -> Option<Seq<NoteView>> {
    match main_table(doc) {
        Some(main) => match lookup(main, "info"@) {
            Some(value) => match as_table(value) {
                Some(pairs) => notes_of(pairs),
                None => None,
            },
            None => None,
        },
        None => None,
    }
}

/// Whether a document has the shape of a configuration: it names its
/// categories, each category with a table holds command lines only, and the
/// notes are there and hold lines only.
pub open spec fn shaped(doc: ConfigView) -> bool {
    given_categories(doc) is Some && given_notes(doc) is Some
}

/// The lines to show beside one entry.
#[derive(Debug)]
pub struct Note {
    pub label: String,
    pub lines: Vec<String>,
}

impl View for Note {
    type V = NoteView;

    open spec fn view(&self) -> NoteView {
        NoteView { label: self.label@, lines: texts(self.lines@) }
    }
}

/// What a list of notes stands for.
pub open spec fn note_views(notes: Seq<Note>) -> Seq<NoteView> {
    Seq::new(notes.len(), |i: int| notes[i]@)
}

/// Why a text is no configuration.
#[derive(Clone, Copy, Debug, PartialEq, Eq, Structural)]
pub enum ConfigError {
    /// The text is no TOML document.
    Syntax,
    /// The document is TOML, but not in the shape of a configuration.
    Shape,
}

/// The notes of a configuration, in the order of their labels.
#[derive(Debug)]
pub struct Notes {
    pub notes: Vec<Note>,
}

impl View for Notes {
    type V = Seq<NoteView>;

    open spec fn view(&self) -> Seq<NoteView> {
        note_views(self.notes@)
    }
}

/// A configuration: the catalog and the notes.
#[derive(Debug)]
pub struct Config {
    pub catalog: Catalog,
    pub notes: Notes,
}

/// `toml::Value`, the parser's own value. Nothing is known of what is inside
/// one: `adopt` turns it into a `ConfigValue`.
#[verifier::external_type_specification]
#[verifier::external_body]
pub struct ExTomlValue(toml::Value);

/// `toml::de::Error`, the parser's refusal. Nothing is read from it: every
/// refusal becomes `ConfigError::Syntax`.
#[verifier::external_type_specification]
#[verifier::external_body]
pub struct ExTomlError(toml::de::Error);

/// The document that the TOML parser reads from `text`, `None` where the
/// parser refuses the text.
pub uninterp spec fn document(text: Seq<char>) -> Option<ConfigView>;

/// Turns a value of `toml` into a value of this library, variant by variant:
/// `toml::Value`'s variants `String`, `Integer`, `Float`, `Boolean`,
/// `Datetime`, `Array` and `Table`, the pairs of a table in the order in which
/// `toml`'s map iterates. The payloads of `Float` and `Datetime` are dropped.
/// Nothing is promised of the result here: `parse_document` names it.
#[verifier::external_body]
fn adopt(value: toml::Value) -> ConfigValue {
    match value {
        toml::Value::String(s) => ConfigValue::Text(s),
        toml::Value::Integer(i) => ConfigValue::Integer(i),
        toml::Value::Float(_) => ConfigValue::Float,
        toml::Value::Boolean(b) => ConfigValue::Boolean(b),
        toml::Value::Datetime(_) => ConfigValue::Datetime,
        toml::Value::Array(items) => ConfigValue::Array(items.into_iter().map(adopt).collect()),
        toml::Value::Table(pairs) => ConfigValue::Table(
            pairs.into_iter().map(|(k, v)| (k, adopt(v))).collect(),
        ),
    }
}

/// Calls `toml::from_str` for a `toml::Value`. The contract claims that what
/// the parser makes of a text depends on the text alone, and gives that
/// result the name `document`: the value on success, nothing on an error.
#[verifier::external_body]
fn parse_document(text: &str) -> (r: Result<ConfigValue, toml::de::Error>)
    ensures
        r matches Ok(value) ==> document(text@) == Some(value@),
        r is Err ==> document(text@) is None,
{
    match toml::from_str::<toml::Value>(text) {
        Ok(value) => Ok(adopt(value)),
        Err(e) => Err(e),
    }
}

/// The value under `key` in the pairs of a table.
fn find<'a>(pairs: &'a Vec<(String, ConfigValue)>, key: &str) -> (r: Option<&'a ConfigValue>)
    ensures
        r matches Some(value) ==> lookup(table_view(pairs@), key@) == Some(value@),
        r is None ==> lookup(table_view(pairs@), key@) is None,
{
    let wanted = String::from_str(key);
    let mut i: usize = 0;
    while i < pairs.len()
        invariant
            i <= pairs.len(),
            wanted@ == key@,
            lookup(table_view(pairs@), key@) == lookup_from(table_view(pairs@), key@, i as int),
        decreases pairs.len() - i,
    {
        if pairs[i].0 == wanted {
            return Some(&pairs[i].1);
        }
        i = i + 1;
    }
    None
}

/// The pairs of `value`, where it is a table.
fn table_in(value: &ConfigValue) -> (r: Option<&Vec<(String, ConfigValue)>>)
    ensures
        r matches Some(pairs) ==> as_table(value@) == Some(table_view(pairs@)),
        r is None ==> as_table(value@) is None,
{
    match value {
        ConfigValue::Table(pairs) => {
            assert(value@->Table_0 =~= table_view(pairs@));
            Some(pairs)
        },
        _ => None,
    }
}

/// Copies of the texts of `value`, where it is an array of texts.
fn lines_in(value: &ConfigValue) -> (r: Option<Vec<String>>)
    ensures
        r matches Some(lines) ==> lines_of(value@) == Some(texts(lines@)),
        r is None ==> lines_of(value@) is None,
{
    match value {
        ConfigValue::Array(items) => {
            let ghost views = array_view(items@);
            assert(value@->Array_0 =~= views);
            let mut lines: Vec<String> = Vec::new();
            let mut i: usize = 0;
            while i < items.len()
                invariant
                    i <= items.len(),
                    views == array_view(items@),
                    as_array(value@) == Some(views),
                    lines.len() == i,
                    forall|j: int| 0 <= j < i ==> as_text(#[trigger] views[j]) == Some(lines[j]@),
                decreases items.len() - i,
            {
                match &items[i] {
                    ConfigValue::Text(s) => {
                        lines.push(s.clone());
                    },
                    _ => {
                        assert(as_text(views[i as int]) is None);
                        return None;
                    },
                }
                i = i + 1;
            }
            assert(texts(lines@) =~= texts_of(views)->0);
            Some(lines)
        },
        _ => None,
    }
}

/// Copies of the entries in the pairs of a category's table, where each
/// value is a text.
fn entries_in(pairs: &Vec<(String, ConfigValue)>) -> (r: Option<Vec<Entry>>)
    ensures
        r matches Some(entries) ==> entries_of(table_view(pairs@)) == Some(entry_views(entries@)),
        r is None ==> entries_of(table_view(pairs@)) is None,
{
    let ghost views = table_view(pairs@);
    let mut entries: Vec<Entry> = Vec::new();
    let mut i: usize = 0;
    while i < pairs.len()
        invariant
            i <= pairs.len(),
            views == table_view(pairs@),
            entries.len() == i,
            forall|j: int|
                0 <= j < i ==> as_text((#[trigger] views[j]).1) is Some && entries[j]@ == (EntryView {
                    label: views[j].0,
                    command_line: as_text(views[j].1)->0,
                }),
        decreases pairs.len() - i,
    {
        match &pairs[i].1 {
            ConfigValue::Text(s) => {
                entries.push(Entry { label: pairs[i].0.clone(), command_line: s.clone() });
            },
            _ => {
                assert(as_text(views[i as int].1) is None);
                return None;
            },
        }
        i = i + 1;
    }
    assert(entry_views(entries@) =~= entries_of(views)->0);
    Some(entries)
}

/// Copies of the notes in the pairs of the table `info`, where each value is
/// an array of texts.
fn notes_in(pairs: &Vec<(String, ConfigValue)>) -> (r: Option<Vec<Note>>)
    ensures
        r matches Some(notes) ==> notes_of(table_view(pairs@)) == Some(note_views(notes@)),
        r is None ==> notes_of(table_view(pairs@)) is None,
{
    let ghost views = table_view(pairs@);
    let mut notes: Vec<Note> = Vec::new();
    let mut i: usize = 0;
    while i < pairs.len()
        invariant
            i <= pairs.len(),
            views == table_view(pairs@),
            notes.len() == i,
            forall|j: int|
                0 <= j < i ==> lines_of((#[trigger] views[j]).1) is Some && notes[j]@ == (NoteView {
                    label: views[j].0,
                    lines: lines_of(views[j].1)->0,
                }),
        decreases pairs.len() - i,
    {
        match lines_in(&pairs[i].1) {
            Some(lines) => {
                notes.push(Note { label: pairs[i].0.clone(), lines });
            },
            None => {
                assert(lines_of(views[i as int].1) is None);
                return None;
            },
        }
        i = i + 1;
    }
    assert(note_views(notes@) =~= notes_of(views)->0);
    Some(notes)
}

/// The category `name` of a document with the pairs `top`.
fn section_in(top: &Vec<(String, ConfigValue)>, name: &String) -> (r: Option<Category>)
    ensures
        r matches Some(category) ==> section_of(table_view(top@), name@) == Some(category@),
        r is None ==> section_of(table_view(top@), name@) is None,
{
    match find(top, name.as_str()) {
        None => {
            let entries: Vec<Entry> = Vec::new();
            assert(entry_views(entries@) =~= Seq::<EntryView>::empty());
            Some(Category { name: name.clone(), entries })
        },
        Some(value) => match table_in(value) {
            Some(pairs) => match entries_in(pairs) {
                Some(entries) => Some(Category { name: name.clone(), entries }),
                None => None,
            },
            None => None,
        },
    }
}

impl Config {
    /// Reads a configuration from the text of a TOML document.
    pub fn load(text: &str) -> (r: Result<Config, ConfigError>)
        ensures
            r is Ok <==> document(text@) is Some && shaped(document(text@)->0),
            r matches Ok(config) ==> lists(
                config.catalog@,
                given_categories(document(text@)->0)->0,
            ) && config.notes@ == given_notes(document(text@)->0)->0,
            r matches Err(e) ==> e == (if document(text@) is None {
                ConfigError::Syntax
            } else {
                ConfigError::Shape
            }),
    {
        match parse_document(text) {
            Ok(doc) => Config::from_document(&doc),
            Err(_) => Err(ConfigError::Syntax),
        }
    }

    /// Reads a configuration from a document: the catalog of the categories
    /// that `launchbox.category` names, each with the entries of the table of
    /// its name, and the notes of `launchbox.info`. A document in another
    /// shape is refused.
    pub fn from_document(doc: &ConfigValue) -> (r: Result<Config, ConfigError>)
        ensures
            r is Ok <==> shaped(doc@),
            r matches Ok(config) ==> lists(config.catalog@, given_categories(doc@)->0)
                && config.notes@ == given_notes(doc@)->0,
            r matches Err(e) ==> e == ConfigError::Shape,
    {
        let top = match table_in(doc) {
            Some(pairs) => pairs,
            None => {
                return Err(ConfigError::Shape);
            },
        };
        let main = match find(top, "launchbox") {
            Some(value) => match table_in(value) {
                Some(pairs) => pairs,
                None => {
                    return Err(ConfigError::Shape);
                },
            },
            None => {
                return Err(ConfigError::Shape);
            },
        };
        let names = match find(main, "category") {
            Some(value) => match lines_in(value) {
                Some(names) => names,
                None => {
                    return Err(ConfigError::Shape);
                },
            },
            None => {
                return Err(ConfigError::Shape);
            },
        };
        let notes = match find(main, "info") {
            Some(value) => match table_in(value) {
                Some(pairs) => match notes_in(pairs) {
                    Some(notes) => notes,
                    None => {
                        return Err(ConfigError::Shape);
                    },
                },
                None => {
                    return Err(ConfigError::Shape);
                },
            },
            None => {
                return Err(ConfigError::Shape);
            },
        };
        let ghost wanted = texts(names@);
        let ghost top_view = table_view(top@);
        assert(category_names(doc@) == Some(wanted));
        assert(given_notes(doc@) == Some(note_views(notes@)));
        let mut given: Vec<Category> = Vec::new();
        let mut i: usize = 0;
        while i < names.len()
            invariant
                i <= names.len(),
                wanted == texts(names@),
                top_view == table_view(top@),
                as_table(doc@) == Some(top_view),
                category_names(doc@) == Some(wanted),
                given.len() == i,
                forall|j: int|
                    0 <= j < i ==> section_of(top_view, #[trigger] wanted[j]) == Some(given[j]@),
            decreases names.len() - i,
        {
            match section_in(top, &names[i]) {
                Some(category) => {
                    given.push(category);
                },
                None => {
                    assert(section_of(top_view, wanted[i as int]) is None);
                    return Err(ConfigError::Shape);
                },
            }
            i = i + 1;
        }
        assert(category_views(given@) =~= sections_of(top_view, wanted)->0);
        Ok(Config { catalog: Catalog::new(given), notes: Notes { notes } })
    }
}

impl Notes {
    /// The lines to show beside the entry `label`: those of the first note
    /// for that label, where there is one.
    pub fn lines_for(&self, label: &str) -> (r: Option<&Vec<String>>)
        ensures
            r matches Some(lines) ==> exists|i: int|
                0 <= i < self.notes@.len() && (#[trigger] self.notes@[i]).label@ == label@
                    && self.notes@[i].lines == *lines && forall|j: int|
                    0 <= j < i ==> (#[trigger] self.notes@[j]).label@ != label@,
            r is None ==> forall|i: int|
                0 <= i < self.notes@.len() ==> (#[trigger] self.notes@[i]).label@ != label@,
    {
        let wanted = String::from_str(label);
        let mut i: usize = 0;
        while i < self.notes.len()
            invariant
                i <= self.notes.len(),
                wanted@ == label@,
                forall|j: int| 0 <= j < i ==> (#[trigger] self.notes@[j]).label@ != label@,
            decreases self.notes.len() - i,
        {
            if self.notes[i].label == wanted {
                return Some(&self.notes[i].lines);
            }
            i = i + 1;
        }
        None
    }
}

} // verus!
