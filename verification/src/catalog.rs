//! The catalog of commands: named categories of entries, with the category
//! "All" in front, which lists every entry in dictionary order.

use crate::text::{
    lemma_lex_antisym, lemma_lex_refl, lemma_lex_total, lemma_lex_trans, lex_le, text_le,
};
use vstd::prelude::*;
use vstd::relations::{sorted_by, total_ordering};
use vstd::seq_lib::{lemma_sorted_unique, to_multiset_build, to_multiset_insert};
use vstd::string::*;

verus! {

/// One command of the catalog: the label that the operator sees, and the
/// command line that the label launches.
#[derive(Debug)]
pub struct Entry {
    pub label: String,
    pub command_line: String,
}

/// What an entry stands for.
pub ghost struct EntryView {
    pub label: Seq<char>,
    pub command_line: Seq<char>,
}

impl View for Entry {
    type V = EntryView;

    open spec fn view(&self) -> EntryView {
        EntryView { label: self.label@, command_line: self.command_line@ }
    }
}

/// A named sequence of entries.
#[derive(Debug)]
pub struct Category {
    pub name: String,
    pub entries: Vec<Entry>,
}

/// What a category stands for.
pub ghost struct CategoryView {
    pub name: Seq<char>,
    pub entries: Seq<EntryView>,
}

impl View for Category {
    type V = CategoryView;

    open spec fn view(&self) -> CategoryView {
        CategoryView { name: self.name@, entries: entry_views(self.entries@) }
    }
}

/// What a list of entries stands for.
pub open spec fn entry_views(entries: Seq<Entry>) -> Seq<EntryView> {
    Seq::new(entries.len(), |i: int| entries[i]@)
}

/// What a list of categories stands for.
pub open spec fn category_views(categories: Seq<Category>) -> Seq<CategoryView> {
    Seq::new(categories.len(), |i: int| categories[i]@)
}

/// The order of entries in "All": by label in dictionary order, and among
/// entries with one label by command line.
pub open spec fn entry_le(a: EntryView, b: EntryView) -> bool {
    if a.label == b.label {
        lex_le(a.command_line, b.command_line)
    } else {
        lex_le(a.label, b.label)
    }
}

/// Whether each entry comes before all that follow it.
pub open spec fn sorted(entries: Seq<EntryView>) -> bool {
    forall|i: int, j: int| 0 <= i < j < entries.len() ==> entry_le(entries[i], entries[j])
}

/// The entries of `categories`, one category after the other.
pub open spec fn all_entries(categories: Seq<CategoryView>) -> Seq<EntryView>
    decreases categories.len(),
{
    if categories.len() == 0 {
        Seq::<EntryView>::empty()
    } else {
        all_entries(categories.drop_last()) + categories.last().entries
    }
}

/// Whether `listed` is the catalog of the categories `given`: "All" followed
/// by the given categories as they are, where "All" holds exactly the
/// entries of the given categories, each as often as it occurs in them, in
/// order.
pub open spec fn lists(listed: Seq<CategoryView>, given: Seq<CategoryView>) -> bool {
    &&& listed.len() == given.len() + 1
    &&& listed.skip(1) == given
    &&& listed[0].name == "All"@
    &&& sorted(listed[0].entries)
    &&& listed[0].entries.to_multiset() == all_entries(given).to_multiset()
}

/// Of two entries one comes first.
pub proof fn lemma_entry_le_total(a: EntryView, b: EntryView)
    ensures
        entry_le(a, b) || entry_le(b, a),
{
    lemma_lex_total(a.label, b.label);
    lemma_lex_total(a.command_line, b.command_line);
}

/// The order of entries is transitive.
pub proof fn lemma_entry_le_trans(a: EntryView, b: EntryView, c: EntryView)
    requires
        entry_le(a, b),
        entry_le(b, c),
    ensures
        entry_le(a, c),
{
    if a.label == b.label && b.label == c.label {
        lemma_lex_trans(a.command_line, b.command_line, c.command_line);
    } else if a.label == b.label || b.label == c.label {
    } else {
        lemma_lex_trans(a.label, b.label, c.label);
        if a.label == c.label {
            lemma_lex_antisym(a.label, b.label);
        }
    }
}

/// The order of entries is a total order.
pub proof fn lemma_entry_le_is_total_order()
    ensures
        total_ordering(|a: EntryView, b: EntryView| entry_le(a, b)),
{
    let leq = |a: EntryView, b: EntryView| entry_le(a, b);
    assert forall|a: EntryView| #[trigger] leq(a, a) by {
        lemma_lex_refl(a.command_line);
    }
    assert forall|a: EntryView, b: EntryView| #[trigger] leq(a, b) && #[trigger] leq(b, a) implies a
        == b by {
        if a.label == b.label {
            lemma_lex_antisym(a.command_line, b.command_line);
        } else {
            lemma_lex_antisym(a.label, b.label);
        }
    }
    assert forall|a: EntryView, b: EntryView, c: EntryView| #[trigger]
        leq(a, b) && #[trigger] leq(b, c) implies leq(a, c) by {
        lemma_entry_le_trans(a, b, c);
    }
    assert forall|a: EntryView, b: EntryView| #[trigger] leq(a, b) || #[trigger] leq(b, a) by {
        lemma_entry_le_total(a, b);
    }
}

/// The given categories have one catalog only: the order of "All" leaves
/// nothing open.
pub proof fn lemma_catalog_is_unique(
    given: Seq<CategoryView>,
    first: Seq<CategoryView>,
    second: Seq<CategoryView>,
)
    requires
        lists(first, given),
        lists(second, given),
    ensures
        first == second,
{
    let leq = |a: EntryView, b: EntryView| entry_le(a, b);
    lemma_entry_le_is_total_order();
    assert(sorted_by(first[0].entries, leq));
    assert(sorted_by(second[0].entries, leq));
    lemma_sorted_unique(first[0].entries, second[0].entries, leq);
    assert(first[0] == second[0]);
    assert forall|i: int| 0 <= i < first.len() implies first[i] == second[i] by {
        if i > 0 {
            assert(first[i] == first.skip(1)[i - 1]);
            assert(second[i] == second.skip(1)[i - 1]);
        }
    }
    assert(first =~= second);
}

impl Entry {
    /// An entry with the same label and command line.
    pub fn duplicate(&self) -> (r: Entry)
        ensures
            r@ == self@,
    {
        Entry { label: self.label.clone(), command_line: self.command_line.clone() }
    }

    /// Whether this entry comes before `other` in "All", or equals it.
    pub fn precedes(&self, other: &Entry) -> (r: bool)
        ensures
            r == entry_le(self@, other@),
    {
        if self.label == other.label {
            text_le(self.command_line.as_str(), other.command_line.as_str())
        } else {
            text_le(self.label.as_str(), other.label.as_str())
        }
    }
}

/// The place of `entry` in the ordered list `entries`: behind every entry
/// that comes before it or equals it.
fn slot(entries: &Vec<Entry>, entry: &Entry) -> (i: usize)
    ensures
        i <= entries.len(),
        forall|j: int| 0 <= j < i ==> entry_le(entries[j]@, entry@),
        i < entries.len() ==> !entry_le(entries[i as int]@, entry@),
{
    let mut i: usize = 0;
    while i < entries.len()
        invariant
            i <= entries.len(),
            forall|j: int| 0 <= j < i ==> entry_le(entries[j]@, entry@),
        decreases entries.len() - i,
    {
        if !entries[i].precedes(entry) {
            return i;
        }
        i = i + 1;
    }
    i
}

/// Puts `entry` into the ordered list `entries`, which stays ordered.
fn insert_in_order(entries: &mut Vec<Entry>, entry: Entry)
    requires
        sorted(entry_views(old(entries)@)),
    ensures
        sorted(entry_views(final(entries)@)),
        entry_views(final(entries)@).to_multiset() == entry_views(old(entries)@).to_multiset().insert(
            entry@,
        ),
{
    let i = slot(entries, &entry);
    let ghost before = entry_views(entries@);
    proof {
        let after = before.insert(i as int, entry@);
        assert(entry_views(entries@.insert(i as int, entry)) =~= after);
        to_multiset_insert(before, i as int, entry@);
        assert forall|a: int, b: int| 0 <= a < b < after.len() implies entry_le(
            after[a],
            after[b],
        ) by {
            if b < i {
                assert(after[a] == before[a] && after[b] == before[b]);
            } else if b == i {
                assert(after[a] == before[a]);
            } else if a == i {
                lemma_entry_le_total(before[i as int], entry@);
                if b - 1 > i {
                    lemma_entry_le_trans(entry@, before[i as int], before[b - 1]);
                }
            } else if a < i {
                assert(after[a] == before[a] && after[b] == before[b - 1]);
            } else {
                assert(after[a] == before[a - 1] && after[b] == before[b - 1]);
            }
        }
    }
    entries.insert(i, entry);
}

/// The categories of the launcher, "All" first.
#[derive(Debug)]
pub struct Catalog {
    categories: Vec<Category>,
}

impl View for Catalog {
    type V = Seq<CategoryView>;

    closed spec fn view(&self) -> Seq<CategoryView> {
        category_views(self.categories@)
    }
}

impl Catalog {
    /// A catalog holds "All" and, behind it, the categories it was made of.
    #[verifier::type_invariant]
    pub open spec fn inv(self) -> bool {
        self@.len() >= 1 && lists(self@, self@.skip(1))
    }

    /// The catalog of `categories`: "All" in front, with a copy of every
    /// entry, ordered by label and then by command line, and the given
    /// categories behind it, unchanged.
    pub fn new(categories: Vec<Category>) -> (r: Catalog)
        ensures
            lists(r@, category_views(categories@)),
    {
        let ghost given = category_views(categories@);
        let mut all: Vec<Entry> = Vec::new();
        let mut c: usize = 0;
        proof {
            assert(given.take(0) =~= Seq::<CategoryView>::empty());
            assert(entry_views(all@) =~= all_entries(given.take(0)));
        }
        while c < categories.len()
            invariant
                c <= categories.len(),
                given == category_views(categories@),
                sorted(entry_views(all@)),
                entry_views(all@).to_multiset() == all_entries(given.take(c as int)).to_multiset(),
            decreases categories.len() - c,
        {
            let ghost done = all_entries(given.take(c as int));
            let ghost these = given[c as int].entries;
            let mut e: usize = 0;
            proof {
                assert(done + these.take(0) =~= done);
            }
            while e < categories[c].entries.len()
                invariant
                    c < categories.len(),
                    e <= categories[c as int].entries.len(),
                    these == entry_views(categories[c as int].entries@),
                    sorted(entry_views(all@)),
                    entry_views(all@).to_multiset() == (done + these.take(e as int)).to_multiset(),
                decreases categories[c as int].entries.len() - e,
            {
                let entry = categories[c].entries[e].duplicate();
                proof {
                    to_multiset_build(done + these.take(e as int), entry@);
                    assert((done + these.take(e as int)).push(entry@) =~= done + these.take(e + 1));
                }
                insert_in_order(&mut all, entry);
                e = e + 1;
            }
            proof {
                assert(these.take(e as int) =~= these);
                assert(given.take(c + 1).drop_last() =~= given.take(c as int));
                assert(given.take(c + 1).last() == given[c as int]);
            }
            c = c + 1;
        }
        let mut listed = categories;
        let front = Category { name: String::from_str("All"), entries: all };
        proof {
            assert(given.take(c as int) =~= given);
            let after = category_views(listed@.insert(0, front));
            assert(after =~= given.insert(0, front@));
            assert(after.skip(1) =~= given);
        }
        listed.insert(0, front);
        Catalog { categories: listed }
    }

    /// The number of categories, "All" included.
    pub fn len(&self) -> (n: usize)
        ensures
            n == self@.len(),
            n >= 1,
    {
        proof {
            use_type_invariant(self);
        }
        self.categories.len()
    }

    /// The categories in order, "All" first.
    pub fn categories(&self) -> (r: &Vec<Category>)
        ensures
            category_views(r@) == self@,
            r.len() >= 1,
    {
        proof {
            use_type_invariant(self);
        }
        &self.categories
    }

    /// The category at position `i`, where there is one.
    pub fn category(&self, i: usize) -> (r: Option<&Category>)
        ensures
            i < self@.len() ==> (r matches Some(c) && c@ == self@[i as int]),
            i >= self@.len() ==> r is None,
    {
        if i < self.categories.len() {
            Some(&self.categories[i])
        } else {
            None
        }
    }
}

} // verus!
