use vstd::prelude::*;

use crate::registry::{PollJob, PowerJob, PowerOutcome, Registry};
use crate::state::{DeviceError, DeviceState};

verus! {

/// A power request for a name that was never registered is refused as not
/// found, hands out no connection (so no driver call is made) and leaves the
/// registry exactly as it was; the same holds when the job comes back.
pub proof fn unknown_name_is_not_found<D>(
    before: Registry<D>,
    after: Registry<D>,
    name: Seq<char>,
    on: bool,
    r: Result<PowerJob<D>, DeviceError>,
    back: Registry<D>,
    connection: D,
    outcome: PowerOutcome,
    r_back: Result<DeviceState, DeviceError>,
)
    requires
        before.wf(),
        !before.has(name),
        Registry::begun(before, after, name, on, r),
        Registry::finished(before, back, name, connection, outcome, r_back),
    ensures
        r == Err::<PowerJob<D>, DeviceError>(DeviceError::NotFound),
        after == before,
        r_back == Err::<DeviceState, DeviceError>(DeviceError::NotFound),
        back == before,
{
}

/// No power request adds or removes a device: the names stay those fixed at
/// startup.
pub proof fn names_are_fixed<D>(
    before: Registry<D>,
    after: Registry<D>,
    name: Seq<char>,
    on: bool,
    r: Result<PowerJob<D>, DeviceError>,
    back: Registry<D>,
    connection: D,
    outcome: PowerOutcome,
    r_back: Result<DeviceState, DeviceError>,
)
    requires
        before.wf(),
        Registry::begun(before, after, name, on, r),
        Registry::finished(before, back, name, connection, outcome, r_back),
    ensures
        after.names() == before.names(),
        back.names() == before.names(),
{
}

/// Once a set-power request for `name` has succeeded, reading `name` gives the
/// state that the supply reported after the command; when the supply carried
/// the command out, its output flag is the one asked for.
pub proof fn set_power_then_snapshot<D>(
    r0: Registry<D>,
    r1: Registry<D>,
    r2: Registry<D>,
    name: Seq<char>,
    on: bool,
    job: PowerJob<D>,
    outcome: PowerOutcome,
    s: DeviceState,
)
    requires
        r0.wf(),
        Registry::begun(r0, r1, name, on, Ok::<PowerJob<D>, DeviceError>(job)),
        Registry::finished(
            r1,
            r2,
            job.name@,
            job.connection,
            outcome,
            Ok::<DeviceState, DeviceError>(s),
        ),
    ensures
        r2.has(name),
        r2.state_of(name) == s,
        s.power == on <==> r2.state_of(name).power == on,
{
    let p = r0.pos(name);
    r0.lemma_pos(p);
    assert(r0.names()[p] == name);
    assert(r1.names()[p] == name);
    r1.lemma_pos(p);
    assert(r2.names()[p] == name);
    r2.lemma_pos(p);
}

/// Two toggles of `name` in a row, each carried out by the supply, give back
/// the output flag the device started with; the second toggle already asks for
/// that flag as soon as the first was carried out.
pub proof fn toggle_twice_restores<D>(
    r0: Registry<D>,
    r1: Registry<D>,
    r2: Registry<D>,
    r3: Registry<D>,
    r4: Registry<D>,
    name: Seq<char>,
    job1: PowerJob<D>,
    s1: DeviceState,
    job2: PowerJob<D>,
    s2: DeviceState,
)
    requires
        r0.wf(),
        Registry::begun(
            r0,
            r1,
            name,
            !r0.state_of(name).power,
            Ok::<PowerJob<D>, DeviceError>(job1),
        ),
        Registry::finished(
            r1,
            r2,
            job1.name@,
            job1.connection,
            PowerOutcome::Refreshed(s1),
            Ok::<DeviceState, DeviceError>(s1),
        ),
        s1.power == job1.on,
        Registry::begun(
            r2,
            r3,
            name,
            !r2.state_of(name).power,
            Ok::<PowerJob<D>, DeviceError>(job2),
        ),
        Registry::finished(
            r3,
            r4,
            job2.name@,
            job2.connection,
            PowerOutcome::Refreshed(s2),
            Ok::<DeviceState, DeviceError>(s2),
        ),
        s2.power == job2.on,
    ensures
        job2.on == r0.state_of(name).power,
        r4.state_of(name).power == r0.state_of(name).power,
{
    set_power_then_snapshot(r0, r1, r2, name, job1.on, job1, PowerOutcome::Refreshed(s1), s1);
    set_power_then_snapshot(r2, r3, r4, name, job2.on, job2, PowerOutcome::Refreshed(s2), s2);
}

/// Lending out the connection of one device for a power command leaves every
/// other device as available as it was, so a command on another device is not
/// held up by it; taking the connection back does not touch other devices either.
pub proof fn commands_on_other_devices_proceed<D>(
    r0: Registry<D>,
    r1: Registry<D>,
    name: Seq<char>,
    on: bool,
    r: Result<PowerJob<D>, DeviceError>,
    r2: Registry<D>,
    connection: D,
    outcome: PowerOutcome,
    r_back: Result<DeviceState, DeviceError>,
    other: Seq<char>,
)
    requires
        r0.wf(),
        r0.has(other),
        other != name,
        Registry::begun(r0, r1, name, on, r),
        Registry::finished(r0, r2, name, connection, outcome, r_back),
    ensures
        r1.has(other),
        r1.idle(other) == r0.idle(other),
        r1.state_of(other) == r0.state_of(other),
        r2.has(other),
        r2.idle(other) == r0.idle(other),
        r2.state_of(other) == r0.state_of(other),
{
    let q = r0.pos(other);
    r0.lemma_pos(q);
    if r0.has(name) {
        let p = r0.pos(name);
        r0.lemma_pos(p);
        assert(p != q);
    }
    assert(r1.names()[q] == other);
    r1.lemma_pos(q);
    assert(r2.names()[q] == other);
    r2.lemma_pos(q);
}

/// Within one refresh tick, a device whose status reads all failed keeps the
/// cached state it had.
pub proof fn failed_reads_keep_state<D>(
    polls: Seq<(PollJob<D>, Option<DeviceState>)>,
    name: Seq<char>,
    init: DeviceState,
)
    requires
        forall|j: int|
            0 <= j < polls.len() && (#[trigger] polls[j]).0.name@ == name ==> polls[j].1 is None,
    ensures
        Registry::<D>::refreshed_state(polls, name, init) == init,
    decreases polls.len(),
{
    if polls.len() > 0 {
        let rest = polls.drop_last();
        assert forall|j: int|
            0 <= j < rest.len() && (#[trigger] rest[j]).0.name@ == name implies rest[j].1 is None by {
            assert(rest[j] == polls[j]);
        }
        failed_reads_keep_state(rest, name, init);
        assert(polls.last() == polls[polls.len() - 1]);
    }
}

/// Within one refresh tick, what the read of one device gave (success or
/// failure) has no bearing on the refreshed state of any other device.
pub proof fn read_outcome_is_local<D>(
    polls: Seq<(PollJob<D>, Option<DeviceState>)>,
    j: int,
    status: Option<DeviceState>,
    name: Seq<char>,
    init: DeviceState,
)
    requires
        0 <= j < polls.len(),
        polls[j].0.name@ != name,
    ensures
        Registry::<D>::refreshed_state(polls.update(j, (polls[j].0, status)), name, init)
            == Registry::<D>::refreshed_state(polls, name, init),
    decreases polls.len(),
{
    let changed = polls.update(j, (polls[j].0, status));
    if j < polls.len() - 1 {
        assert(changed.drop_last() =~= polls.drop_last().update(j, (polls[j].0, status)));
        assert(polls.drop_last()[j] == polls[j]);
        read_outcome_is_local(polls.drop_last(), j, status, name, init);
    } else {
        assert(changed.drop_last() =~= polls.drop_last());
    }
}

} // verus!
