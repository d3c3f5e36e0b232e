//! The interactive session: which category and entry are selected, what each
//! key asks for, and what the host is to do about it.
//!
//! One frame of the host's loop reaps the dead (`Registry::pids`, then
//! `Registry::reap_dead` on what the operating system reported), draws
//! `Session::rows`, reads at most one key, and performs the `Action` that
//! `Session::dispatch` returns for it.

use crate::catalog::{Catalog, Category, CategoryView, Entry, EntryView};
use crate::child::{command_tokens, SpawnError, Subprocess, SubprocessView};
use crate::registry::{position, tracks, well_formed, Registry};
use vstd::prelude::*;

verus! {

/// A key as the terminal reports it.
#[derive(Clone, Copy, Debug, PartialEq, Eq, Structural)]
pub enum Key {
    Backspace,
    Left,
    Right,
    Up,
    Down,
    Home,
    End,
    PageUp,
    PageDown,
    BackTab,
    Delete,
    Insert,
    F(u8),
    Char(char),
    Alt(char),
    Ctrl(char),
    Null,
    Esc,
}

/// What the operator asks for with one key.
#[derive(Clone, Copy, Debug, PartialEq, Eq, Structural)]
pub enum Input {
    /// Leave the launcher. What was launched keeps running.
    Quit,
    /// Stop the process of the selected entry, if one is tracked.
    ToggleKill,
    /// Launch the selected entry, unless it runs already.
    Activate,
    /// Select the entry above.
    Up,
    /// Select the entry below.
    Down,
    /// Show the category to the left.
    Left,
    /// Show the category to the right.
    Right,
    /// A key without a meaning.
    Ignored,
}

impl Input {
    /// The meaning of a character key.
    pub open spec fn of_char(c: char) -> Input {
        if c == 'Q' {
            Input::Quit
        } else if c == 'q' {
            Input::ToggleKill
        } else if c == '\n' || c == ' ' {
            Input::Activate
        } else if c == 'w' {
            Input::Up
        } else if c == 's' {
            Input::Down
        } else if c == 'a' {
            Input::Left
        } else if c == 'd' {
            Input::Right
        } else {
            Input::Ignored
        }
    }

    /// The meaning of a key: `Q` and control-c quit, `q` stops the selected
    /// entry, return and space launch it, the arrows and `w`, `s`, `a`, `d`
    /// move, and every other key is ignored.
    pub open spec fn of(key: Key) -> Input {
        match key {
            Key::Char(c) => Input::of_char(c),
            Key::Ctrl(c) => if c == 'c' {
                Input::Quit
            } else {
                Input::Ignored
            },
            Key::Up => Input::Up,
            Key::Down => Input::Down,
            Key::Left => Input::Left,
            Key::Right => Input::Right,
            _ => Input::Ignored,
        }
    }

    /// What `key` asks for.
    pub fn from_key(key: Key) -> (r: Input)
        ensures
            r == Input::of(key),
    {
        match key {
            Key::Char('Q') | Key::Ctrl('c') => Input::Quit,
            Key::Char('q') => Input::ToggleKill,
            Key::Char('\n') | Key::Char(' ') => Input::Activate,
            Key::Up | Key::Char('w') => Input::Up,
            Key::Down | Key::Char('s') => Input::Down,
            Key::Left | Key::Char('a') => Input::Left,
            Key::Right | Key::Char('d') => Input::Right,
            _ => Input::Ignored,
        }
    }
}

/// What the host is to do after an input.
#[derive(Debug)]
pub enum Action {
    /// Nothing: go on with the next frame.
    Continue,
    /// End the loop, and leave the launched processes running.
    Quit,
    /// Send the termination signal to this process, ignoring whether it
    /// arrives.
    Kill(u32),
    /// Spawn the command of this handle, report the outcome to its `start`,
    /// poll with `confirm`, and hand the started handle to `Registry::track`.
    Spawn(Subprocess),
    /// Tell the operator that the launch was refused, and go on.
    Refuse(SpawnError),
}

/// One line of the list on screen.
#[derive(Debug)]
pub struct Row {
    pub label: String,
    pub running: bool,
}

/// What a session stands for.
pub ghost struct SessionView {
    pub catalog: Seq<CategoryView>,
    pub working_directory: Seq<char>,
    pub category: nat,
    pub selection: nat,
}

impl SessionView {
    /// The entries of the category on screen.
    pub open spec fn entries(self) -> Seq<EntryView> {
        self.catalog[self.category as int].entries
    }

    /// The selected entry. A category without entries has none.
    pub open spec fn selected(self) -> Option<EntryView> {
        if self.selection < self.entries().len() {
            Some(self.entries()[self.selection as int])
        } else {
            None
        }
    }

    /// The category on screen exists, and the selection is one of its
    /// entries, or 0 where it has none.
    pub open spec fn valid(self) -> bool {
        &&& self.category < self.catalog.len()
        &&& self.selection < self.entries().len() || self.selection == 0
    }

    /// The session after `input`. The selection moves by one entry and stops
    /// at the first and at the last; the category moves by one and stops at
    /// the first and at the last, and a move of the category, also one that
    /// stops, selects the first entry. No other input moves anything.
    pub open spec fn after(self, input: Input) -> SessionView {
        match input {
            Input::Up => SessionView {
                selection: if self.selection != 0 {
                    (self.selection - 1) as nat
                } else {
                    0
                },
                ..self
            },
            Input::Down => SessionView {
                selection: if self.selection + 1 < self.entries().len() {
                    self.selection + 1
                } else {
                    self.selection
                },
                ..self
            },
            Input::Left => SessionView {
                category: if self.category != 0 {
                    (self.category - 1) as nat
                } else {
                    0
                },
                selection: 0,
                ..self
            },
            Input::Right => SessionView {
                category: if self.category + 1 < self.catalog.len() {
                    self.category + 1
                } else {
                    self.category
                },
                selection: 0,
                ..self
            },
            _ => self,
        }
    }

    /// The session after each of `inputs` in turn.
    pub open spec fn after_all(self, inputs: Seq<Input>) -> SessionView
        decreases inputs.len(),
    {
        if inputs.len() == 0 {
            self
        } else {
            self.after_all(inputs.drop_last()).after(inputs.last())
        }
    }

    /// The tracked handles after `input`: stopping the selected entry
    /// removes its handle, and nothing else changes what is tracked.
    pub open spec fn handles_after(self, handles: Seq<SubprocessView>, input: Input) -> Seq<
        SubprocessView,
    > {
        if input is ToggleKill && self.selected() is Some && tracks(
            handles,
            self.selected()->0.label,
        ) {
            handles.remove(position(handles, self.selected()->0.label))
        } else {
            handles
        }
    }

    /// Whether `action` is what the host is to do after `input`.
    pub open spec fn answers(self, handles: Seq<SubprocessView>, input: Input, action: Action) -> bool {
        match input {
            Input::Quit => action is Quit,
            Input::ToggleKill => if self.selected() is Some && tracks(
                handles,
                self.selected()->0.label,
            ) {
                action matches Action::Kill(pid) && Some(pid) == handles[position(
                    handles,
                    self.selected()->0.label,
                )].pid
            } else {
                action is Continue
            },
            Input::Activate => if self.selected() is None || tracks(
                handles,
                self.selected()->0.label,
            ) {
                action is Continue
            } else if command_tokens(self.selected()->0.command_line).len() == 0 {
                action matches Action::Refuse(e) && e == SpawnError::InvalidCommand
            } else {
                action matches Action::Spawn(h) && h@ == SubprocessView::fresh(
                    self.selected()->0.label,
                    self.selected()->0.command_line,
                    self.working_directory,
                )
            },
            _ => action is Continue,
        }
    }
}

/// The catalog with the cursor of the operator, and the directory in which
/// everything is launched.
#[derive(Debug)]
pub struct Session {
    catalog: Catalog,
    working_directory: String,
    category: usize,
    selection: usize,
}

impl View for Session {
    type V = SessionView;

    closed spec fn view(&self) -> SessionView {
        SessionView {
            catalog: self.catalog@,
            working_directory: self.working_directory@,
            category: self.category as nat,
            selection: self.selection as nat,
        }
    }
}

impl Session {
    /// The cursor of a session always points into its catalog.
    #[verifier::type_invariant]
    pub open spec fn inv(self) -> bool {
        self@.valid()
    }

    /// A session on `catalog` that shows "All" with its first entry
    /// selected, and launches in `working_directory`.
    pub fn new(catalog: Catalog, working_directory: String) -> (r: Session)
        ensures
            r@ == (SessionView {
                catalog: catalog@,
                working_directory: working_directory@,
                category: 0,
                selection: 0,
            }),
            r@.valid(),
    {
        proof {
            use_type_invariant(&catalog);
        }
        Session { catalog, working_directory, category: 0, selection: 0 }
    }

    /// The catalog of this session.
    pub fn catalog(&self) -> (r: &Catalog)
        ensures
            r@ == self@.catalog,
    {
        &self.catalog
    }

    /// The directory in which this session launches.
    pub fn working_directory(&self) -> (r: &String)
        ensures
            r@ == self@.working_directory,
    {
        &self.working_directory
    }

    /// The position of the category on screen.
    pub fn category_index(&self) -> (r: usize)
        ensures
            r == self@.category,
            self@.valid(),
    {
        proof {
            use_type_invariant(self);
        }
        self.category
    }

    /// The position of the selected entry in its category.
    pub fn selection_index(&self) -> (r: usize)
        ensures
            r == self@.selection,
            self@.valid(),
    {
        proof {
            use_type_invariant(self);
        }
        self.selection
    }

    /// The category on screen.
    pub fn shown(&self) -> (r: &Category)
        ensures
            r@ == self@.catalog[self@.category as int],
    {
        proof {
            use_type_invariant(self);
        }
        &self.catalog.categories()[self.category]
    }

    /// The name of the category on screen.
    pub fn title(&self) -> (r: &String)
        ensures
            r@ == self@.catalog[self@.category as int].name,
    {
        &self.shown().name
    }

    /// The selected entry, whose command line the host shows beside the
    /// list. A category without entries has none.
    pub fn selected(&self) -> (r: Option<&Entry>)
        ensures
            r is Some <==> self@.selected() is Some,
            r matches Some(e) ==> e@ == self@.selected()->0,
    {
        let shown = self.shown();
        if self.selection < shown.entries.len() {
            Some(&shown.entries[self.selection])
        } else {
            None
        }
    }

    /// The list on screen: the labels of the category on screen, in order,
    /// each marked as running where `registry` tracks it.
    pub fn rows(&self, registry: &Registry) -> (r: Vec<Row>)
        ensures
            r.len() == self@.entries().len(),
            forall|i: int|
                0 <= i < r.len() ==> (#[trigger] r[i]).label@ == self@.entries()[i].label
                    && r[i].running == tracks(registry@, self@.entries()[i].label),
    {
        let shown = self.shown();
        let mut r: Vec<Row> = Vec::new();
        let mut i: usize = 0;
        while i < shown.entries.len()
            invariant
                i <= shown.entries.len(),
                shown@.entries == self@.entries(),
                r.len() == i,
                forall|j: int|
                    0 <= j < i ==> (#[trigger] r[j]).label@ == self@.entries()[j].label
                        && r[j].running == tracks(registry@, self@.entries()[j].label),
            decreases shown.entries.len() - i,
        {
            let entry = &shown.entries[i];
            let running = registry.is_running(entry.label.as_str());
            r.push(Row { label: entry.label.clone(), running });
            i = i + 1;
        }
        r
    }

    /// Applies one input: moves the cursor, or decides what the host is to
    /// do about the selected entry. Stopping an entry takes its handle out of
    /// `registry` at once; a launch enters it only when the host hands the
    /// started handle to `Registry::track`.
    pub fn dispatch(&mut self, registry: &mut Registry, input: Input) -> (r: Action)
        ensures
            final(self)@ == old(self)@.after(input),
            final(self)@.valid(),
            final(registry)@ == old(self)@.handles_after(old(registry)@, input),
            well_formed(final(registry)@),
            old(self)@.answers(old(registry)@, input, r),
    {
        proof {
            use_type_invariant(&*self);
            use_type_invariant(&*registry);
        }
        match input {
            Input::Quit => Action::Quit,
            Input::ToggleKill => match self.selected() {
                Some(entry) => match registry.kill(entry.label.as_str()) {
                    Some(pid) => Action::Kill(pid),
                    None => Action::Continue,
                },
                None => Action::Continue,
            },
            Input::Activate => match self.selected() {
                Some(entry) => {
                    let launch = registry.launch(
                        &entry.label,
                        entry.command_line.as_str(),
                        self.working_directory.clone(),
                    );
                    match launch {
                        Ok(Some(handle)) => Action::Spawn(handle),
                        Ok(None) => Action::Continue,
                        Err(e) => Action::Refuse(e),
                    }
                },
                None => Action::Continue,
            },
            Input::Up => {
                if self.selection != 0 {
                    self.selection = self.selection - 1;
                }
                Action::Continue
            },
            Input::Down => {
                let count = self.shown().entries.len();
                if count != 0 && self.selection != count - 1 {
                    self.selection = self.selection + 1;
                }
                Action::Continue
            },
            Input::Left => {
                self.selection = 0;
                if self.category != 0 {
                    self.category = self.category - 1;
                }
                Action::Continue
            },
            Input::Right => {
                self.selection = 0;
                if self.category != self.catalog.len() - 1 {
                    self.category = self.category + 1;
                }
                Action::Continue
            },
            Input::Ignored => Action::Continue,
        }
    }
}

/// No input takes the cursor out of the catalog.
pub proof fn lemma_cursor_stays_valid(session: SessionView, input: Input)
    requires
        session.valid(),
    ensures
        session.after(input).valid(),
        session.after(input).catalog == session.catalog,
{
}

/// However many inputs arrive, and whichever, the cursor stays in the
/// catalog: where the category on screen has entries, the selection is one
/// of them.
pub proof fn lemma_selection_stays_in_range(session: SessionView, inputs: Seq<Input>)
    requires
        session.valid(),
    ensures
        session.after_all(inputs).valid(),
        session.after_all(inputs).entries().len() > 0 ==> 0 <= session.after_all(inputs).selection
            <= session.after_all(inputs).entries().len() - 1,
    decreases inputs.len(),
{
    if inputs.len() > 0 {
        lemma_selection_stays_in_range(session, inputs.drop_last());
        lemma_cursor_stays_valid(session.after_all(inputs.drop_last()), inputs.last());
    }
}

/// Pressing up at the first entry, however often, leaves it selected, and
/// pressing down at the last entry leaves that one selected.
pub proof fn lemma_selection_stops_at_the_ends(session: SessionView, presses: nat)
    requires
        session.valid(),
    ensures
        session.selection == 0 ==> session.after_all(Seq::new(presses, |i: int| Input::Up))
            == session,
        session.selection + 1 >= session.entries().len() ==> session.after_all(
            Seq::new(presses, |i: int| Input::Down),
        ) == session,
    decreases presses,
{
    if presses > 0 {
        let fewer = (presses - 1) as nat;
        lemma_selection_stops_at_the_ends(session, fewer);
        assert(Seq::new(presses, |i: int| Input::Up).drop_last() =~= Seq::new(
            fewer,
            |i: int| Input::Up,
        ));
        assert(Seq::new(presses, |i: int| Input::Down).drop_last() =~= Seq::new(
            fewer,
            |i: int| Input::Down,
        ));
    }
}

/// A move of the category selects the first entry, and so does every input
/// after which another category is on screen.
pub proof fn lemma_category_move_resets_selection(session: SessionView, input: Input)
    ensures
        input is Left || input is Right ==> session.after(input).selection == 0,
        session.after(input).category != session.category ==> session.after(input).selection == 0,
{
}

} // verus!
