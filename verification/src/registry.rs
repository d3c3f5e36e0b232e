//! The processes that the launcher tracks, found by their labels.

use crate::child::{command_tokens, ProcState, SpawnError, Subprocess, SubprocessView};
use vstd::prelude::*;
use vstd::string::*;

verus! {

/// What a list of handles stands for.
pub open spec fn views(handles: Seq<Subprocess>) -> Seq<SubprocessView> {
    Seq::new(handles.len(), |i: int| handles[i]@)
}

/// Whether one of `handles` carries `label`.
pub open spec fn tracks(handles: Seq<SubprocessView>, label: Seq<char>) -> bool {
    exists|i: int| 0 <= i < handles.len() && (#[trigger] handles[i]).title == label
}

/// Where in `handles` the handle with `label` stands.
pub open spec fn position(handles: Seq<SubprocessView>, label: Seq<char>) -> int {
    choose|i: int| 0 <= i < handles.len() && (#[trigger] handles[i]).title == label
}

/// What holds of the tracked handles at all times: each has been started,
/// and no two share a label.
pub open spec fn well_formed(handles: Seq<SubprocessView>) -> bool {
    &&& forall|i: int| 0 <= i < handles.len() ==> (#[trigger] handles[i]).pid is Some
    &&& forall|i: int, j: int|
        0 <= i < j < handles.len() ==> (#[trigger] handles[i]).title != (#[trigger] handles[j]).title
}

/// Whether `handle` may join `handles`: it has been started, and its label is
/// free.
pub open spec fn admits(handles: Seq<SubprocessView>, handle: SubprocessView) -> bool {
    handle.pid is Some && !tracks(handles, handle.title)
}

/// The identifiers of `handles`, in order.
pub open spec fn pids_of(handles: Seq<SubprocessView>) -> Seq<u32> {
    Seq::new(handles.len(), |i: int| handles[i].pid->0)
}

/// Whether the handle at position `i` outlives a reap on `observed`, where
/// `observed[i]` is what the operating system reported for its identifier. A
/// handle for which nothing was observed stays.
pub open spec fn spared(
    handles: Seq<SubprocessView>,
    observed: Seq<Option<ProcState>>,
    i: int,
) -> bool {
    i >= observed.len() || handles[i].alive_on(observed[i])
}

/// The handles that outlive a reap on `observed`, in their old order.
pub open spec fn survivors(
    handles: Seq<SubprocessView>,
    observed: Seq<Option<ProcState>>,
) -> Seq<SubprocessView>
    decreases handles.len(),
{
    if handles.len() == 0 {
        handles
    } else {
        let before = survivors(handles.drop_last(), observed);
        if spared(handles, observed, handles.len() - 1) {
            before.push(handles.last())
        } else {
            before
        }
    }
}

/// The identifiers of the handles that a reap on `observed` removes, in
/// their old order.
pub open spec fn reaped(
    handles: Seq<SubprocessView>,
    observed: Seq<Option<ProcState>>,
) -> Seq<u32>
    decreases handles.len(),
{
    if handles.len() == 0 {
        Seq::<u32>::empty()
    } else {
        let before = reaped(handles.drop_last(), observed);
        if spared(handles, observed, handles.len() - 1) {
            before
        } else {
            before.push(handles.last().pid->0)
        }
    }
}

/// The tracked processes. Every handle in it has been started, and no label
/// occurs twice.
#[derive(Debug)]
pub struct Registry {
    handles: Vec<Subprocess>,
}

impl View for Registry {
    type V = Seq<SubprocessView>;

    closed spec fn view(&self) -> Seq<SubprocessView> {
        views(self.handles@)
    }
}

impl Registry {
    /// Every tracked handle has been started, and no two share a label.
    #[verifier::type_invariant]
    pub open spec fn inv(self) -> bool {
        well_formed(self@)
    }

    /// A registry that tracks nothing.
    pub fn new() -> (r: Registry)
        ensures
            r@ == Seq::<SubprocessView>::empty(),
            well_formed(r@),
    {
        let r = Registry { handles: Vec::new() };
        assert(r@ =~= Seq::<SubprocessView>::empty());
        r
    }

    /// The number of tracked processes.
    pub fn len(&self) -> (n: usize)
        ensures
            n == self@.len(),
            well_formed(self@),
    {
        proof {
            use_type_invariant(self);
        }
        self.handles.len()
    }

    /// Whether a process is tracked under `label`. The operating system is
    /// not asked: what is tracked was alive at the last reap.
    pub fn is_running(&self, label: &str) -> (r: bool)
        ensures
            r == tracks(self@, label@),
    {
        self.find(label).is_some()
    }

    /// The handle tracked under `label`, where there is one.
    pub fn get(&self, label: &str) -> (r: Option<&Subprocess>)
        ensures
            r is Some <==> tracks(self@, label@),
            r matches Some(h) ==> h@ == self@[position(self@, label@)],
    {
        proof {
            use_type_invariant(self);
        }
        match self.find(label) {
            Some(i) => {
                assert(position(self@, label@) == i);
                Some(&self.handles[i])
            },
            None => None,
        }
    }

    /// The identifiers of the tracked processes, in the order in which
    /// `reap_dead` expects their observations.
    pub fn pids(&self) -> (r: Vec<u32>)
        ensures
            r@ == pids_of(self@),
    {
        proof {
            use_type_invariant(self);
        }
        let mut r: Vec<u32> = Vec::new();
        let mut i: usize = 0;
        while i < self.handles.len()
            invariant
                i <= self.handles.len(),
                well_formed(self@),
                r@ == pids_of(self@.take(i as int)),
            decreases self.handles.len() - i,
        {
            let pid = self.handles[i].pid();
            assert(self@[i as int].pid is Some);
            r.push(pid.unwrap());
            assert(r@ =~= pids_of(self@.take(i + 1)));
            i = i + 1;
        }
        assert(self@.take(i as int) =~= self@);
        r
    }

    /// Decides a launch of `command_line` under `label`. Where the label is
    /// tracked already nothing is to be spawned, and the result is `None`.
    /// Otherwise the result is the handle to spawn, start and hand to
    /// `track`, or the refusal of a command line without a token. The
    /// registry itself changes only in `track`.
    pub fn launch(&self, label: &String, command_line: &str, working_directory: String) -> (r:
        Result<Option<Subprocess>, SpawnError>)
        ensures
            tracks(self@, label@) ==> r matches Ok(None),
            !tracks(self@, label@) && command_tokens(command_line@).len() > 0 ==> (r matches Ok(
                Some(h),
            ) && h@ == SubprocessView::fresh(label@, command_line@, working_directory@)),
            !tracks(self@, label@) && command_tokens(command_line@).len() == 0 ==> r == Err::<
                Option<Subprocess>,
                SpawnError,
            >(SpawnError::InvalidCommand),
    {
        if self.is_running(label.as_str()) {
            return Ok(None);
        }
        match Subprocess::new((label, command_line), working_directory) {
            Ok(handle) => Ok(Some(handle)),
            Err(e) => Err(e),
        }
    }

    /// Takes a started handle into the registry. A handle that was never
    /// started, or whose label is tracked already, is handed back and the
    /// registry stays as it was.
    pub fn track(&mut self, handle: Subprocess) -> (r: Option<Subprocess>)
        ensures
            well_formed(final(self)@),
            admits(old(self)@, handle@) ==> r is None && final(self)@ == old(self)@.push(handle@),
            !admits(old(self)@, handle@) ==> r == Some(handle) && final(self)@ == old(self)@,
    {
        proof {
            use_type_invariant(&*self);
        }
        if handle.pid().is_none() {
            return Some(handle);
        }
        if self.find(handle.title().as_str()).is_some() {
            return Some(handle);
        }
        let mut handles = self.take_handles();
        proof {
            assert(views(handles@.push(handle)) =~= views(handles@).push(handle@));
        }
        handles.push(handle);
        self.handles = handles;
        None
    }

    /// Stops tracking `label`. The result is the identifier of its process,
    /// to which the host sends the termination signal; for a label that is
    /// not tracked there is none, and nothing changes.
    pub fn kill(&mut self, label: &str) -> (r: Option<u32>)
        ensures
            well_formed(final(self)@),
            !tracks(old(self)@, label@) ==> r is None && final(self)@ == old(self)@,
            tracks(old(self)@, label@) ==> r == old(self)@[position(old(self)@, label@)].pid
                && final(self)@ == old(self)@.remove(position(old(self)@, label@)),
    {
        proof {
            use_type_invariant(&*self);
        }
        match self.find(label) {
            None => None,
            Some(i) => {
                let mut handles = self.take_handles();
                proof {
                    assert(views(handles@.remove(i as int)) =~= views(handles@).remove(i as int));
                    assert(position(views(handles@), label@) == i);
                }
                let handle = handles.remove(i);
                self.handles = handles;
                handle.kill()
            },
        }
    }

    /// Removes every tracked process that `observed` shows dead, and returns
    /// the identifiers of the removed, which the host signals to release what
    /// the operating system still holds for them. `observed[i]` is what the
    /// operating system reported for `pids()[i]`, `None` where it knows no
    /// such process; a process for which `observed` holds nothing stays.
    pub fn reap_dead(&mut self, observed: &Vec<Option<ProcState>>) -> (r: Vec<u32>)
        ensures
            well_formed(final(self)@),
            final(self)@ == survivors(old(self)@, observed@),
            r@ == reaped(old(self)@, observed@),
    {
        proof {
            use_type_invariant(&*self);
        }
        let ghost before = self@;
        let mut handles = self.take_handles();
        let mut r: Vec<u32> = Vec::new();
        let mut i: usize = 0;
        let mut k: usize = 0;
        proof {
            assert(before.len() == handles.len());
            assert(views(handles@).take(0) =~= survivors(before.take(0), observed@));
            assert(views(handles@).skip(0) =~= before.skip(0));
        }
        while i < handles.len()
            invariant
                i <= handles.len(),
                k == i + r.len(),
                k <= before.len() <= usize::MAX,
                handles.len() - i == before.len() - k,
                well_formed(views(handles@)),
                views(handles@).take(i as int) == survivors(before.take(k as int), observed@),
                views(handles@).skip(i as int) == before.skip(k as int),
                r@ == reaped(before.take(k as int), observed@),
            decreases handles.len() - i,
        {
            let ghost now = views(handles@);
            proof {
                assert(now[i as int] == now.skip(i as int)[0]);
                assert(before.take(k + 1).drop_last() =~= before.take(k as int));
                assert(before.take(k + 1).last() == before[k as int]);
            }
            let stays = if k < observed.len() {
                handles[i].alive(observed[k])
            } else {
                true
            };
            assert(stays == spared(before.take(k + 1), observed@, k as int));
            if stays {
                proof {
                    assert(now.take(i + 1) =~= now.take(i as int).push(now[i as int]));
                    assert(now.skip(i + 1) =~= now.skip(i as int).skip(1));
                    assert(before.skip(k + 1) =~= before.skip(k as int).skip(1));
                }
                i = i + 1;
            } else {
                proof {
                    assert(views(handles@.remove(i as int)) =~= now.remove(i as int));
                    assert(now.remove(i as int).take(i as int) =~= now.take(i as int));
                    assert(now.remove(i as int).skip(i as int) =~= now.skip(i as int).skip(1));
                    assert(before.skip(k + 1) =~= before.skip(k as int).skip(1));
                }
                let handle = handles.remove(i);
                r.push(handle.kill().unwrap());
            }
            k = k + 1;
        }
        proof {
            assert(views(handles@).take(i as int) =~= views(handles@));
            assert(before.take(k as int) =~= before);
        }
        self.handles = handles;
        r
    }

    /// Moves the handles out and leaves none behind.
    fn take_handles(&mut self) -> (handles: Vec<Subprocess>)
        ensures
            views(handles@) == old(self)@,
            final(self)@ == Seq::<SubprocessView>::empty(),
    {
        let mut handles: Vec<Subprocess> = Vec::new();
        proof {
            assert(views(handles@) =~= Seq::<SubprocessView>::empty());
        }
        core::mem::swap(&mut self.handles, &mut handles);
        handles
    }

    fn find(&self, label: &str) -> (r: Option<usize>)
        ensures
            r matches Some(i) ==> i < self@.len() && self@[i as int].title == label@,
            r is None ==> !tracks(self@, label@),
    {
        let wanted = String::from_str(label);
        let mut i: usize = 0;
        while i < self.handles.len()
            invariant
                i <= self.handles.len(),
                wanted@ == label@,
                forall|j: int| 0 <= j < i ==> (#[trigger] self@[j]).title != label@,
            decreases self.handles.len() - i,
        {
            if *self.handles[i].title() == wanted {
                return Some(i);
            }
            i = i + 1;
        }
        None
    }
}

/// What the operating system reports for `pid` when `world` holds the state
/// of every process that exists.
pub open spec fn sighting(world: Map<u32, ProcState>, pid: u32) -> Option<ProcState> {
    if world.dom().contains(pid) {
        Some(world[pid])
    } else {
        None
    }
}

/// What the host observes for `handles` in `world`, in their order.
pub open spec fn sightings(handles: Seq<SubprocessView>, world: Map<u32, ProcState>) -> Seq<
    Option<ProcState>,
> {
    Seq::new(handles.len(), |i: int| sighting(world, handles[i].pid->0))
}

/// Whether `observed` holds, for each of `handles`, what `world` reports.
spec fn agrees(
    handles: Seq<SubprocessView>,
    observed: Seq<Option<ProcState>>,
    world: Map<u32, ProcState>,
) -> bool {
    &&& observed.len() >= handles.len()
    &&& forall|i: int|
        0 <= i < handles.len() ==> observed[i] == sighting(world, (#[trigger] handles[i]).pid->0)
}

/// Whether each of `handles` is alive in `world`.
spec fn all_alive(handles: Seq<SubprocessView>, world: Map<u32, ProcState>) -> bool {
    forall|i: int|
        0 <= i < handles.len() ==> (#[trigger] handles[i]).alive_on(
            sighting(world, handles[i].pid->0),
        )
}

/// Whether `handle` stands in `handles` at a position that a reap on
/// `observed` spares.
spec fn spared_in(
    handles: Seq<SubprocessView>,
    observed: Seq<Option<ProcState>>,
    handle: SubprocessView,
) -> bool {
    exists|i: int|
        0 <= i < handles.len() && spared(handles, observed, i) && #[trigger] handles[i] == handle
}

/// Every survivor stood in the old list, at a position that was spared.
proof fn lemma_survivors_were_spared(
    handles: Seq<SubprocessView>,
    observed: Seq<Option<ProcState>>,
)
    ensures
        survivors(handles, observed).len() <= handles.len(),
        forall|j: int|
            0 <= j < survivors(handles, observed).len() ==> spared_in(
                handles,
                observed,
                #[trigger] survivors(handles, observed)[j],
            ),
    decreases handles.len(),
{
    if handles.len() > 0 {
        let shorter = handles.drop_last();
        lemma_survivors_were_spared(shorter, observed);
        let before = survivors(shorter, observed);
        let after = survivors(handles, observed);
        assert forall|j: int| 0 <= j < after.len() implies spared_in(
            handles,
            observed,
            #[trigger] after[j],
        ) by {
            if j < before.len() {
                assert(spared_in(shorter, observed, before[j]));
                let i = choose|i: int|
                    0 <= i < shorter.len() && spared(shorter, observed, i) && #[trigger] shorter[i]
                        == before[j];
                assert(spared(handles, observed, i) && handles[i] == after[j]);
            } else {
                let i = handles.len() - 1;
                assert(spared(handles, observed, i) && handles[i] == after[j]);
            }
        }
    }
}

proof fn lemma_survivors_are_alive(
    handles: Seq<SubprocessView>,
    observed: Seq<Option<ProcState>>,
    world: Map<u32, ProcState>,
)
    requires
        agrees(handles, observed, world),
    ensures
        all_alive(survivors(handles, observed), world),
    decreases handles.len(),
{
    if handles.len() > 0 {
        lemma_survivors_are_alive(handles.drop_last(), observed, world);
        assert(handles.last() == handles[handles.len() - 1]);
    }
}

proof fn lemma_the_living_survive(
    handles: Seq<SubprocessView>,
    observed: Seq<Option<ProcState>>,
    world: Map<u32, ProcState>,
)
    requires
        agrees(handles, observed, world),
        all_alive(handles, world),
    ensures
        survivors(handles, observed) == handles,
        reaped(handles, observed) == Seq::<u32>::empty(),
    decreases handles.len(),
{
    if handles.len() > 0 {
        let shorter = handles.drop_last();
        assert forall|i: int| 0 <= i < shorter.len() implies (#[trigger] shorter[i]).alive_on(
            sighting(world, shorter[i].pid->0),
        ) by {
            assert(shorter[i] == handles[i]);
        }
        lemma_the_living_survive(shorter, observed, world);
        assert(handles.last() == handles[handles.len() - 1]);
        assert(shorter.push(handles.last()) =~= handles);
    }
}

/// Reaping is idempotent: in a world that has not changed, a second reap
/// removes nothing and leaves the registry as the first one left it.
pub proof fn lemma_reap_dead_is_idempotent(handles: Seq<SubprocessView>, world: Map<u32, ProcState>)
    ensures
        ({
            let once = survivors(handles, sightings(handles, world));
            &&& survivors(once, sightings(once, world)) == once
            &&& reaped(once, sightings(once, world)) == Seq::<u32>::empty()
        }),
{
    let once = survivors(handles, sightings(handles, world));
    lemma_survivors_are_alive(handles, sightings(handles, world), world);
    lemma_the_living_survive(once, sightings(once, world), world);
}

/// A process that was observed dead is tracked no more after the reap, and
/// the reap starts tracking nothing.
pub proof fn lemma_reap_dead_forgets_the_dead(
    handles: Seq<SubprocessView>,
    observed: Seq<Option<ProcState>>,
    label: Seq<char>,
)
    requires
        well_formed(handles),
    ensures
        well_formed(survivors(handles, observed)),
        tracks(survivors(handles, observed), label) ==> tracks(handles, label),
        tracks(handles, label) && !spared(handles, observed, position(handles, label)) ==> !tracks(
            survivors(handles, observed),
            label,
        ),
{
    let after = survivors(handles, observed);
    lemma_survivors_were_spared(handles, observed);
    lemma_survivors_keep_their_order(handles, observed);
    if tracks(after, label) {
        let j = choose|j: int| 0 <= j < after.len() && (#[trigger] after[j]).title == label;
        assert(spared_in(handles, observed, after[j]));
        let i = choose|i: int|
            0 <= i < handles.len() && spared(handles, observed, i) && #[trigger] handles[i]
                == after[j];
        assert(handles[i].title == label);
        assert(position(handles, label) == i);
    }
}

/// The survivors stand in the order in which they stood before: each has a
/// place of its own in the old list.
proof fn lemma_survivors_keep_their_order(
    handles: Seq<SubprocessView>,
    observed: Seq<Option<ProcState>>,
)
    requires
        well_formed(handles),
    ensures
        well_formed(survivors(handles, observed)),
    decreases handles.len(),
{
    if handles.len() > 0 {
        let shorter = handles.drop_last();
        lemma_survivors_keep_their_order(shorter, observed);
        lemma_survivors_were_spared(shorter, observed);
        let before = survivors(shorter, observed);
        let after = survivors(handles, observed);
        assert(well_formed(shorter)) by {
            assert forall|i: int| 0 <= i < shorter.len() implies shorter[i] == handles[i] by {}
        }
        assert forall|a: int| 0 <= a < after.len() implies (#[trigger] after[a]).pid is Some by {
            if a >= before.len() {
                assert(after[a] == handles[handles.len() - 1]);
            }
        }
        assert forall|a: int, b: int| 0 <= a < b < after.len() implies (#[trigger] after[a]).title
            != (#[trigger] after[b]).title by {
            if b >= before.len() {
                assert(spared_in(shorter, observed, before[a]));
                let i = choose|i: int|
                    0 <= i < shorter.len() && spared(shorter, observed, i) && #[trigger] shorter[i]
                        == before[a];
                assert(shorter[i] == handles[i]);
                assert(after[b] == handles[handles.len() - 1]);
            }
        }
    }
}

/// Stopping a label forgets that label and no other.
pub proof fn lemma_kill_forgets_one_label(
    handles: Seq<SubprocessView>,
    label: Seq<char>,
    other: Seq<char>,
)
    requires
        well_formed(handles),
        tracks(handles, label),
    ensures
        well_formed(handles.remove(position(handles, label))),
        !tracks(handles.remove(position(handles, label)), label),
        other != label ==> tracks(handles.remove(position(handles, label)), other) == tracks(
            handles,
            other,
        ),
{
    let p = position(handles, label);
    let after = handles.remove(p);
    assert forall|i: int| 0 <= i < after.len() implies (#[trigger] after[i]).title != label by {
        if i < p {
            assert(after[i] == handles[i]);
        } else {
            assert(after[i] == handles[i + 1]);
        }
    }
    if other != label {
        if tracks(handles, other) {
            let i = position(handles, other);
            if i < p {
                assert(after[i] == handles[i]);
            } else {
                assert(after[i - 1] == handles[i]);
            }
        }
        if tracks(after, other) {
            let i = position(after, other);
            if i < p {
                assert(after[i] == handles[i]);
            } else {
                assert(after[i] == handles[i + 1]);
            }
        }
    }
}

/// Tracking a handle adds its label and no other, and never a label a second
/// time: where the label is tracked already, or the handle was not started,
/// nothing is added.
pub proof fn lemma_track_adds_one_label(
    handles: Seq<SubprocessView>,
    handle: SubprocessView,
    other: Seq<char>,
)
    requires
        well_formed(handles),
    ensures
        admits(handles, handle) ==> well_formed(handles.push(handle)),
        tracks(handles.push(handle), other) == (tracks(handles, other) || other == handle.title),
        tracks(handles, handle.title) ==> !admits(handles, handle),
{
    let after = handles.push(handle);
    if tracks(handles, other) {
        let i = position(handles, other);
        assert(after[i] == handles[i]);
    }
    if other == handle.title {
        assert(after[handles.len() as int] == handle);
    }
    if tracks(after, other) {
        let i = position(after, other);
        if i < handles.len() {
            assert(after[i] == handles[i]);
        }
    }
}

} // verus!
