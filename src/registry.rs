use vstd::prelude::*;

use crate::state::{DeviceError, DeviceState};

verus! {

/// One registered supply: its name, its cached state and, while nobody has
/// borrowed it, its connection.
struct Entry<D> {
    name: String,
    state: DeviceState,
    connection: Option<D>,
}

/// The registry of all supplies, in the order they were registered.
///
/// Names are unique. A connection is either parked in its entry or lent out to
/// exactly one actor (a power command or a refresh tick), which hands it back
/// together with what it learned from the hardware.
pub struct Registry<D> {
    entries: Vec<Entry<D>>,
}

/// A connection lent out to carry out a power command.
pub struct PowerJob<D> {
    pub name: String,
    pub connection: D,
    /// The output state to command.
    pub on: bool,
}

/// What a power command and the status read that follows it gave.
#[derive(Clone, Copy, Debug, PartialEq, Eq, Structural)]
pub enum PowerOutcome {
    /// The command was not acknowledged; no status read was made.
    CommandFailed,
    /// The command went through, but the status read after it failed.
    StatusFailed,
    /// The command went through and the supply then reported this state.
    Refreshed(DeviceState),
}

/// A connection lent out to one refresh tick for a status read.
pub struct PollJob<D> {
    pub name: String,
    pub connection: D,
}

impl<D> Registry<D> {
    /// Device names, in registration order.
    pub closed spec fn names(&self) -> Seq<Seq<char>> {
        self.entries@.map_values(|e: Entry<D>| e.name@)
    }

    /// Cached states, aligned with `names`.
    pub closed spec fn states(&self) -> Seq<DeviceState> {
        self.entries@.map_values(|e: Entry<D>| e.state)
    }

    /// Parked connections (`None` while lent out), aligned with `names`.
    pub closed spec fn connections(&self) -> Seq<Option<D>> {
        self.entries@.map_values(|e: Entry<D>| e.connection)
    }

    pub open spec fn wf(&self) -> bool {
        &&& self.names().no_duplicates()
        &&& self.states().len() == self.names().len()
        &&& self.connections().len() == self.names().len()
    }

    pub open spec fn has(&self, name: Seq<char>) -> bool {
        self.names().contains(name)
    }

    /// Where `name` stands; meaningful when `has(name)`.
    pub open spec fn pos(&self, name: Seq<char>) -> int {
        self.names().index_of(name)
    }

    pub open spec fn state_of(&self, name: Seq<char>) -> DeviceState {
        self.states()[self.pos(name)]
    }

    /// The connection of `name` is parked and can be lent out.
    pub open spec fn idle(&self, name: Seq<char>) -> bool {
        self.connections()[self.pos(name)] is Some
    }

    pub proof fn lemma_pos(&self, i: int)
        requires
            self.wf(),
            0 <= i < self.names().len(),
        ensures
            self.has(self.names()[i]),
            self.pos(self.names()[i]) == i,
    {
        assert(self.names()[i] == self.names()[i]);
    }

    proof fn lemma_lengths(&self)
        ensures
            self.names().len() == self.entries@.len(),
            self.states().len() == self.entries@.len(),
            self.connections().len() == self.entries@.len(),
    {
    }

    /// `after` is `before` with the connection at `p` lent out.
    pub open spec fn lent(before: Self, after: Self, p: int) -> bool {
        &&& after.names() == before.names()
        &&& after.states() == before.states()
        &&& after.connections() == before.connections().update(p, None)
    }

    /// `after` is `before` with `connection` parked again at `p` and, when the
    /// hardware was read, the state read installed there.
    pub open spec fn settled(
        before: Self,
        after: Self,
        p: int,
        connection: D,
        status: Option<DeviceState>,
    ) -> bool {
        &&& after.names() == before.names()
        &&& after.connections() == before.connections().update(p, Some(connection))
        &&& after.states() == match status {
            Some(s) => before.states().update(p, s),
            None => before.states(),
        }
    }

    /// What `begin_set_power` (with `on`) or `begin_toggle_power` (with the
    /// negated cached flag) does.
    pub open spec fn begun(
        before: Self,
        after: Self,
        name: Seq<char>,
        on: bool,
        r: Result<PowerJob<D>, DeviceError>,
    ) -> bool {
        &&& after.wf()
        &&& !before.has(name) ==> r == Err::<PowerJob<D>, DeviceError>(DeviceError::NotFound)
            && after == before
        &&& before.has(name) && !before.idle(name) ==> r == Err::<PowerJob<D>, DeviceError>(
            DeviceError::InUse,
        ) && after == before
        &&& before.has(name) && before.idle(name) ==> match r {
            Ok(job) => {
                &&& job.name@ == name
                &&& job.on == on
                &&& before.connections()[before.pos(name)] == Some(job.connection)
                &&& Self::lent(before, after, before.pos(name))
            },
            Err(_) => false,
        }
    }

    /// What `finish_power` does with a job for `name` and its outcome.
    pub open spec fn finished(
        before: Self,
        after: Self,
        name: Seq<char>,
        connection: D,
        outcome: PowerOutcome,
        r: Result<DeviceState, DeviceError>,
    ) -> bool {
        &&& after.wf()
        &&& !before.has(name) ==> r == Err::<DeviceState, DeviceError>(DeviceError::NotFound)
            && after == before
        &&& before.has(name) ==> match outcome {
            PowerOutcome::Refreshed(s) => r == Ok::<DeviceState, DeviceError>(s)
                && Self::settled(before, after, before.pos(name), connection, Some(s)),
            _ => r == Err::<DeviceState, DeviceError>(DeviceError::DriverError)
                && Self::settled(before, after, before.pos(name), connection, None),
        }
    }

    /// The parked connections among `conns`, each with the name beside it.
    pub open spec fn parked(names: Seq<Seq<char>>, conns: Seq<Option<D>>) -> Seq<(Seq<char>, D)>
        decreases conns.len(),
    {
        if conns.len() == 0 {
            Seq::empty()
        } else {
            let rest = Self::parked(names.drop_last(), conns.drop_last());
            match conns.last() {
                Some(c) => rest.push((names.last(), c)),
                None => rest,
            }
        }
    }

    /// The state of `name` after the status reads of `polls` were taken back in
    /// order, starting from `init`: the last successful read of `name` wins, and
    /// failed reads change nothing.
    pub open spec fn refreshed_state(
        polls: Seq<(PollJob<D>, Option<DeviceState>)>,
        name: Seq<char>,
        init: DeviceState,
    ) -> DeviceState
        decreases polls.len(),
    {
        if polls.len() == 0 {
            init
        } else {
            let prev = Self::refreshed_state(polls.drop_last(), name, init);
            match polls.last().1 {
                Some(s) => if polls.last().0.name@ == name {
                    s
                } else {
                    prev
                },
                None => prev,
            }
        }
    }

    /// The connection parked under `name` after `polls` were taken back in order.
    pub open spec fn returned_connection(
        polls: Seq<(PollJob<D>, Option<DeviceState>)>,
        name: Seq<char>,
        init: Option<D>,
    ) -> Option<D>
        decreases polls.len(),
    {
        if polls.len() == 0 {
            init
        } else if polls.last().0.name@ == name {
            Some(polls.last().0.connection)
        } else {
            Self::returned_connection(polls.drop_last(), name, init)
        }
    }

    /// An empty registry.
    pub fn new() -> (r: Registry<D>)
        ensures
            r.wf(),
            r.names() == Seq::<Seq<char>>::empty(),
    {
        let r = Registry { entries: Vec::new() };
        proof {
            assert(r.names() =~= Seq::<Seq<char>>::empty());
        }
        r
    }

    /// Where `name` stands, if it is registered.
    fn find(&self, name: &String) -> (r: Option<usize>)
        requires
            self.wf(),
        ensures
            match r {
                Some(i) => i < self.names().len() && i == self.pos(name@) && self.has(name@),
                None => !self.has(name@),
            },
    {
        proof {
            self.lemma_lengths();
        }
        let mut i: usize = 0;
        while i < self.entries.len()
            invariant
                self.wf(),
                i <= self.entries@.len(),
                self.names().len() == self.entries@.len(),
                forall|j: int| 0 <= j < i ==> self.names()[j] != name@,
            decreases self.entries@.len() - i,
        {
            if self.entries[i].name == *name {
                proof {
                    assert(self.names()[i as int] == name@);
                    self.lemma_pos(i as int);
                }
                return Some(i);
            }
            i = i + 1;
        }
        None
    }

    /// Puts `e` in place of the entry at `i` and hands back the one it replaced.
    fn replace_entry(&mut self, i: usize, e: Entry<D>) -> (prev: Entry<D>)
        requires
            i < old(self).entries@.len(),
        ensures
            prev == old(self).entries@[i as int],
            final(self).entries@ == old(self).entries@.update(i as int, e),
            final(self).names() == old(self).names().update(i as int, e.name@),
            final(self).states() == old(self).states().update(i as int, e.state),
            final(self).connections() == old(self).connections().update(i as int, e.connection),
    {
        let prev = self.entries.remove(i);
        self.entries.insert(i, e);
        proof {
            assert(self.entries@ =~= old(self).entries@.update(i as int, e));
            assert(self.names() =~= old(self).names().update(i as int, e.name@));
            assert(self.states() =~= old(self).states().update(i as int, e.state));
            assert(self.connections() =~= old(self).connections().update(
                i as int,
                e.connection,
            ));
        }
        prev
    }

    /// Adds a supply in the zero/off state. A name that is already registered
    /// keeps its place and gets the new connection and a fresh state.
    pub fn register(&mut self, name: String, connection: D)
        requires
            old(self).wf(),
        ensures
            final(self).wf(),
            final(self).has(name@),
            old(self).has(name@) ==> {
                &&& final(self).names() == old(self).names()
                &&& final(self).states() == old(self).states().update(
                    old(self).pos(name@),
                    DeviceState::off(),
                )
                &&& final(self).connections() == old(self).connections().update(
                    old(self).pos(name@),
                    Some(connection),
                )
            },
            !old(self).has(name@) ==> {
                &&& final(self).names() == old(self).names().push(name@)
                &&& final(self).states() == old(self).states().push(DeviceState::off())
                &&& final(self).connections() == old(self).connections().push(Some(connection))
            },
    {
        proof {
            self.lemma_lengths();
        }
        let state = DeviceState::default();
        match self.find(&name) {
            Some(i) => {
                let e = Entry { name, state, connection: Some(connection) };
                let _ = self.replace_entry(i, e);
                proof {
                    assert(self.names() =~= old(self).names());
                    assert(self.names()[i as int] == name@);
                }
            },
            None => {
                let ghost n = name@;
                self.entries.push(Entry { name, state, connection: Some(connection) });
                proof {
                    assert(self.names() =~= old(self).names().push(n));
                    assert(self.states() =~= old(self).states().push(DeviceState::off()));
                    assert(self.connections() =~= old(self).connections().push(
                        Some(connection),
                    ));
                    assert(self.names()[self.names().len() - 1] == n);
                }
            },
        }
    }

    /// A copy of every device's cached state, in registration order.
    pub fn snapshot_all(&self) -> (r: Vec<(String, DeviceState)>)
        requires
            self.wf(),
        ensures
            r@.len() == self.names().len(),
            forall|i: int|
                0 <= i < r@.len() ==> #[trigger] r@[i].0@ == self.names()[i] && r@[i].1
                    == self.states()[i],
    {
        proof {
            self.lemma_lengths();
        }
        let mut r: Vec<(String, DeviceState)> = Vec::new();
        let mut i: usize = 0;
        while i < self.entries.len()
            invariant
                self.wf(),
                i <= self.entries@.len(),
                self.names().len() == self.entries@.len(),
                r@.len() == i,
                forall|j: int|
                    0 <= j < i ==> #[trigger] r@[j].0@ == self.names()[j] && r@[j].1
                        == self.states()[j],
            decreases self.entries@.len() - i,
        {
            let e = &self.entries[i];
            r.push((e.name.clone(), e.state));
            i = i + 1;
        }
        r
    }

    /// The cached state of one device.
    pub fn snapshot_one(&self, name: &String) -> (r: Result<DeviceState, DeviceError>)
        requires
            self.wf(),
        ensures
            self.has(name@) ==> r == Ok::<DeviceState, DeviceError>(self.state_of(name@)),
            !self.has(name@) ==> r == Err::<DeviceState, DeviceError>(DeviceError::NotFound),
    {
        match self.find(name) {
            Some(i) => Ok(self.entries[i].state),
            None => Err(DeviceError::NotFound),
        }
    }

    /// Takes the parked connection at `i` out of its entry.
    fn lend(&mut self, i: usize) -> (c: D)
        requires
            old(self).wf(),
            i < old(self).names().len(),
            old(self).connections()[i as int] is Some,
        ensures
            final(self).wf(),
            old(self).connections()[i as int] == Some(c),
            Self::lent(*old(self), *final(self), i as int),
    {
        proof {
            self.lemma_lengths();
        }
        let name = self.entries[i].name.clone();
        let state = self.entries[i].state;
        let prev = self.replace_entry(i, Entry { name, state, connection: None });
        proof {
            assert(self.names() =~= old(self).names());
            assert(self.states() =~= old(self).states());
        }
        prev.connection.unwrap()
    }

    /// Parks `connection` at `i` again and installs the state read, if any.
    fn settle(&mut self, i: usize, connection: D, status: Option<DeviceState>)
        requires
            old(self).wf(),
            i < old(self).names().len(),
        ensures
            final(self).wf(),
            Self::settled(*old(self), *final(self), i as int, connection, status),
    {
        proof {
            self.lemma_lengths();
        }
        let name = self.entries[i].name.clone();
        let state = match status {
            Some(s) => s,
            None => self.entries[i].state,
        };
        let _ = self.replace_entry(i, Entry { name, state, connection: Some(connection) });
        proof {
            assert(self.names() =~= old(self).names());
            if status is None {
                assert(self.states() =~= old(self).states());
            }
        }
    }

    fn begin_power(&mut self, name: &String, on: Option<bool>) -> (r: Result<
        PowerJob<D>,
        DeviceError,
    >)
        requires
            old(self).wf(),
        ensures
            Self::begun(
                *old(self),
                *final(self),
                name@,
                match on {
                    Some(v) => v,
                    None => !old(self).state_of(name@).power,
                },
                r,
            ),
    {
        match self.find(name) {
            None => Err(DeviceError::NotFound),
            Some(i) => {
                if self.entries[i].connection.is_none() {
                    Err(DeviceError::InUse)
                } else {
                    let target = match on {
                        Some(v) => v,
                        None => !self.entries[i].state.power,
                    };
                    let connection = self.lend(i);
                    Ok(PowerJob { name: name.clone(), connection, on: target })
                }
            },
        }
    }

    /// Lends out the connection of `name` to command its output to `on`.
    pub fn begin_set_power(&mut self, name: &String, on: bool) -> (r: Result<
        PowerJob<D>,
        DeviceError,
    >)
        requires
            old(self).wf(),
        ensures
            Self::begun(*old(self), *final(self), name@, on, r),
    {
        self.begin_power(name, Some(on))
    }

    /// Lends out the connection of `name` to command the opposite of its cached
    /// output flag.
    pub fn begin_toggle_power(&mut self, name: &String) -> (r: Result<
        PowerJob<D>,
        DeviceError,
    >)
        requires
            old(self).wf(),
        ensures
            Self::begun(*old(self), *final(self), name@, !old(self).state_of(name@).power, r),
    {
        self.begin_power(name, None)
    }

    /// Takes back the connection of a power job and publishes what the status
    /// read after the command reported. On any driver failure the cached state
    /// stays as it was.
    pub fn finish_power(&mut self, job: PowerJob<D>, outcome: PowerOutcome) -> (r: Result<
        DeviceState,
        DeviceError,
    >)
        requires
            old(self).wf(),
        ensures
            Self::finished(*old(self), *final(self), job.name@, job.connection, outcome, r),
    {
        let PowerJob { name, connection, on: _ } = job;
        match self.find(&name) {
            None => Err(DeviceError::NotFound),
            Some(i) => match outcome {
                PowerOutcome::Refreshed(s) => {
                    self.settle(i, connection, Some(s));
                    Ok(s)
                },
                _ => {
                    self.settle(i, connection, None);
                    Err(DeviceError::DriverError)
                },
            },
        }
    }

    /// Starts a refresh tick: lends out every parked connection for a status
    /// read. Cached states stay readable meanwhile.
    pub fn begin_refresh(&mut self) -> (r: Vec<PollJob<D>>)
        requires
            old(self).wf(),
        ensures
            final(self).wf(),
            final(self).names() == old(self).names(),
            final(self).states() == old(self).states(),
            forall|i: int|
                0 <= i < final(self).connections().len() ==> (#[trigger] final(self).connections()[i]) is None,
            r@.map_values(|j: PollJob<D>| (j.name@, j.connection)) == Self::parked(
                old(self).names(),
                old(self).connections(),
            ),
    {
        proof {
            self.lemma_lengths();
        }
        let mut r: Vec<PollJob<D>> = Vec::new();
        let mut i: usize = 0;
        while i < self.entries.len()
            invariant
                self.wf(),
                i <= self.entries@.len(),
                self.entries@.len() == old(self).entries@.len(),
                self.names() == old(self).names(),
                self.states() == old(self).states(),
                forall|j: int| 0 <= j < i ==> (#[trigger] self.connections()[j]) is None,
                forall|j: int|
                    i <= j < self.entries@.len() ==> #[trigger] self.connections()[j]
                        == old(self).connections()[j],
                r@.map_values(|j: PollJob<D>| (j.name@, j.connection)) == Self::parked(
                    old(self).names().take(i as int),
                    old(self).connections().take(i as int),
                ),
            decreases self.entries@.len() - i,
        {
            proof {
                self.lemma_lengths();
                let names = old(self).names();
                let conns = old(self).connections();
                assert(names.take(i + 1).drop_last() =~= names.take(i as int));
                assert(conns.take(i + 1).drop_last() =~= conns.take(i as int));
            }
            let ghost before = r@;
            proof {
                let names = old(self).names();
                let conns = old(self).connections();
                assert(conns.take(i + 1).last() == conns[i as int]);
                assert(names.take(i + 1).last() == names[i as int]);
                assert(self.connections()[i as int] == conns[i as int]);
            }
            if self.entries[i].connection.is_some() {
                let name = self.entries[i].name.clone();
                let connection = self.lend(i);
                r.push(PollJob { name, connection });
                proof {
                    assert(r@.map_values(|j: PollJob<D>| (j.name@, j.connection)) =~= before.map_values(
                        |j: PollJob<D>| (j.name@, j.connection),
                    ).push((old(self).names()[i as int], connection)));
                }
            }
            i = i + 1;
        }
        proof {
            assert(old(self).names().take(i as int) =~= old(self).names());
            assert(old(self).connections().take(i as int) =~= old(self).connections());
        }
        r
    }

    /// Ends a refresh tick: parks each connection again and installs each
    /// successful status read. A failed read leaves that device's cached state
    /// as it was; a job for an unknown name is dropped.
    pub fn finish_refresh(&mut self, polls: Vec<(PollJob<D>, Option<DeviceState>)>)
        requires
            old(self).wf(),
        ensures
            final(self).wf(),
            final(self).names() == old(self).names(),
            forall|i: int|
                0 <= i < final(self).names().len() ==> #[trigger] final(self).states()[i]
                    == Self::refreshed_state(polls@, old(self).names()[i], old(self).states()[i]),
            forall|i: int|
                0 <= i < final(self).names().len() ==> #[trigger] final(self).connections()[i]
                    == Self::returned_connection(
                    polls@,
                    old(self).names()[i],
                    old(self).connections()[i],
                ),
    {
        let ghost all = polls@;
        let ghost k: int = 0;
        let mut polls = polls;
        while polls.len() > 0
            invariant
                self.wf(),
                0 <= k <= all.len(),
                polls@ == all.skip(k),
                self.names() == old(self).names(),
                forall|m: int|
                    0 <= m < self.names().len() ==> #[trigger] self.states()[m]
                        == Self::refreshed_state(
                        all.take(k),
                        old(self).names()[m],
                        old(self).states()[m],
                    ),
                forall|m: int|
                    0 <= m < self.names().len() ==> #[trigger] self.connections()[m]
                        == Self::returned_connection(
                        all.take(k),
                        old(self).names()[m],
                        old(self).connections()[m],
                    ),
            decreases polls@.len(),
        {
            let ghost mid = *self;
            let (job, status) = polls.remove(0);
            let ghost poll = (job, status);
            let PollJob { name, connection } = job;
            let found = self.find(&name);
            let ghost fi: int = match found {
                Some(i) => i as int,
                None => -1,
            };
            match found {
                Some(i) => self.settle(i, connection, status),
                None => {},
            }
            proof {
                assert(polls@ =~= all.skip(k + 1));
                let t = all.take(k + 1);
                assert(t.drop_last() =~= all.take(k));
                assert(t.last() == poll);
                assert forall|m: int| 0 <= m < self.names().len() implies #[trigger] self.states()[m]
                    == Self::refreshed_state(t, old(self).names()[m], old(self).states()[m]) by {
                    if fi >= 0 && m != fi {
                        assert(mid.names()[m] != mid.names()[fi]);
                    }
                }
                assert forall|m: int| 0 <= m < self.names().len() implies #[trigger] self.connections()[m]
                    == Self::returned_connection(t, old(self).names()[m], old(self).connections()[m]) by {
                    if fi >= 0 && m != fi {
                        assert(mid.names()[m] != mid.names()[fi]);
                    }
                }
                k = k + 1;
            }
        }
        proof {
            assert(all.take(k) =~= all);
        }
    }
}

} // verus!
