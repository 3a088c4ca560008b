use psu_control::registry::{PollJob, PowerJob, PowerOutcome, Registry};
use psu_control::state::{DeviceError, DeviceState};

/// Stands in for a serial connection and counts what was asked of it.
#[derive(Debug, Default, PartialEq)]
struct FakeSupply {
    port: u32,
    commands: Vec<bool>,
    reads: u32,
}

impl FakeSupply {
    fn on_port(port: u32) -> FakeSupply {
        FakeSupply { port, commands: Vec::new(), reads: 0 }
    }
}

fn state(voltage: f32, current: f32, power: bool) -> DeviceState {
    DeviceState::new(voltage.to_bits(), current.to_bits(), power)
}

fn name(s: &str) -> String {
    s.to_string()
}

fn two_supplies() -> Registry<FakeSupply> {
    let mut reg = Registry::new();
    reg.register(name("A"), FakeSupply::on_port(1));
    reg.register(name("B"), FakeSupply::on_port(2));
    reg
}

/// Carries out a power job the way the server does: one command, then one
/// status read, where `reported` is what the supply answers.
fn carry_out(job: &mut PowerJob<FakeSupply>, reported: DeviceState) -> PowerOutcome {
    job.connection.commands.push(job.on);
    job.connection.reads += 1;
    PowerOutcome::Refreshed(reported)
}

/// Runs one refresh tick in which `answer` says what each supply reports.
fn tick(
    reg: &mut Registry<FakeSupply>,
    answer: impl Fn(&str) -> Option<DeviceState>,
) {
    let jobs = reg.begin_refresh();
    let polls: Vec<(PollJob<FakeSupply>, Option<DeviceState>)> = jobs
        .into_iter()
        .map(|mut job| {
            job.connection.reads += 1;
            let status = answer(&job.name);
            (job, status)
        })
        .collect();
    reg.finish_refresh(polls);
}

fn listing(reg: &Registry<FakeSupply>) -> Vec<(String, DeviceState)> {
    reg.snapshot_all()
}

#[test]
fn list_before_and_after_first_tick_then_toggle() {
    let mut reg = two_supplies();
    assert_eq!(
        listing(&reg),
        vec![(name("A"), DeviceState::default()), (name("B"), DeviceState::default())]
    );

    let a = state(5.0, 1.2, false);
    let b = state(12.0, 0.5, true);
    tick(&mut reg, |n| if n == "A" { Some(a) } else { Some(b) });
    assert_eq!(listing(&reg), vec![(name("A"), a), (name("B"), b)]);

    let mut job = reg.begin_toggle_power(&name("A")).unwrap();
    assert!(job.on);
    assert_eq!(job.connection.port, 1);
    let after = state(5.0, 1.2, true);
    let outcome = carry_out(&mut job, after);
    let commands = job.connection.commands.clone();
    let reads = job.connection.reads;
    assert_eq!(reg.finish_power(job, outcome), Ok(after));
    assert_eq!(commands, vec![true]);
    // one read in the tick, one after the command
    assert_eq!(reads, 2);
    assert!(reg.snapshot_one(&name("A")).unwrap().power);
    assert_eq!(reg.snapshot_one(&name("B")), Ok(b));

    // B's connection was only read by the tick
    let job_b = reg.begin_set_power(&name("B"), true).unwrap();
    assert!(job_b.connection.commands.is_empty());
    assert_eq!(job_b.connection.reads, 1);
}

#[test]
fn set_on_unregistered_device_is_not_found() {
    let mut reg = two_supplies();
    let before = listing(&reg);
    assert!(matches!(reg.begin_set_power(&name("C"), true), Err(DeviceError::NotFound)));
    assert_eq!(listing(&reg), before);
    // both connections are still parked: nothing was lent out to talk to
    assert!(reg.begin_set_power(&name("A"), true).is_ok());
    assert!(reg.begin_set_power(&name("B"), true).is_ok());
}

#[test]
fn unknown_name_is_not_found_everywhere() {
    let mut reg = two_supplies();
    let before = listing(&reg);
    assert_eq!(reg.snapshot_one(&name("nope")), Err(DeviceError::NotFound));
    assert!(matches!(reg.begin_toggle_power(&name("nope")), Err(DeviceError::NotFound)));
    assert!(matches!(reg.begin_set_power(&name("nope"), false), Err(DeviceError::NotFound)));
    let stray = PowerJob { name: name("nope"), connection: FakeSupply::on_port(9), on: true };
    assert_eq!(
        reg.finish_power(stray, PowerOutcome::Refreshed(state(1.0, 1.0, true))),
        Err(DeviceError::NotFound)
    );
    assert_eq!(listing(&reg), before);
}

#[test]
fn set_power_then_snapshot_reports_the_new_flag() {
    let mut reg = two_supplies();
    let mut job = reg.begin_set_power(&name("B"), true).unwrap();
    assert!(job.on);
    let reported = state(3.3, 0.1, true);
    let outcome = carry_out(&mut job, reported);
    assert_eq!(reg.finish_power(job, outcome), Ok(reported));
    assert_eq!(reg.snapshot_one(&name("B")), Ok(reported));
    assert!(reg.snapshot_one(&name("B")).unwrap().power);
    assert_eq!(reg.snapshot_one(&name("A")), Ok(DeviceState::default()));
}

#[test]
fn toggle_twice_restores_power() {
    let mut reg = two_supplies();
    let start = state(9.0, 0.2, true);
    tick(&mut reg, |_| Some(start));

    let mut job = reg.begin_toggle_power(&name("A")).unwrap();
    assert!(!job.on);
    let off = state(0.0, 0.0, false);
    let outcome = carry_out(&mut job, off);
    assert_eq!(reg.finish_power(job, outcome), Ok(off));

    let mut job = reg.begin_toggle_power(&name("A")).unwrap();
    assert!(job.on);
    let outcome = carry_out(&mut job, start);
    assert_eq!(reg.finish_power(job, outcome), Ok(start));
    assert_eq!(reg.snapshot_one(&name("A")).unwrap().power, true);
}

#[test]
fn commands_on_different_devices_do_not_wait_for_each_other() {
    let mut reg = two_supplies();
    let job_a = reg.begin_set_power(&name("A"), true).unwrap();
    assert!(matches!(reg.begin_toggle_power(&name("A")), Err(DeviceError::InUse)));
    let job_b = reg.begin_set_power(&name("B"), false).unwrap();
    assert_eq!(job_b.connection.port, 2);
    let on = state(1.0, 1.0, true);
    let off = state(0.0, 0.0, false);
    assert_eq!(reg.finish_power(job_b, PowerOutcome::Refreshed(off)), Ok(off));
    assert_eq!(reg.finish_power(job_a, PowerOutcome::Refreshed(on)), Ok(on));
    assert_eq!(listing(&reg), vec![(name("A"), on), (name("B"), off)]);
}

#[test]
fn failed_read_in_tick_keeps_only_that_state() {
    let mut reg = two_supplies();
    let a0 = state(5.0, 1.2, false);
    let b0 = state(12.0, 0.5, true);
    tick(&mut reg, |n| if n == "A" { Some(a0) } else { Some(b0) });

    let b1 = state(11.5, 0.6, true);
    tick(&mut reg, |n| if n == "A" { None } else { Some(b1) });
    assert_eq!(listing(&reg), vec![(name("A"), a0), (name("B"), b1)]);
    // the failing supply is handed back and can be used again
    assert!(reg.begin_toggle_power(&name("A")).is_ok());
}

#[test]
fn states_stay_readable_during_a_tick() {
    let mut reg = two_supplies();
    let jobs = reg.begin_refresh();
    assert_eq!(jobs.len(), 2);
    assert_eq!(jobs[0].name, "A");
    assert_eq!(jobs[1].name, "B");
    assert_eq!(reg.snapshot_one(&name("A")), Ok(DeviceState::default()));
    assert!(matches!(reg.begin_set_power(&name("B"), true), Err(DeviceError::InUse)));
    let polls = jobs.into_iter().map(|j| (j, None)).collect();
    reg.finish_refresh(polls);
    assert!(reg.begin_set_power(&name("B"), true).is_ok());
}

#[test]
fn tick_skips_connections_lent_to_commands() {
    let mut reg = two_supplies();
    let job_a = reg.begin_set_power(&name("A"), true).unwrap();
    let jobs = reg.begin_refresh();
    assert_eq!(jobs.len(), 1);
    assert_eq!(jobs[0].name, "B");
    let b = state(2.0, 0.25, false);
    reg.finish_refresh(jobs.into_iter().map(|j| (j, Some(b))).collect());
    let a = state(4.0, 0.5, true);
    assert_eq!(reg.finish_power(job_a, PowerOutcome::Refreshed(a)), Ok(a));
    assert_eq!(listing(&reg), vec![(name("A"), a), (name("B"), b)]);
}

#[test]
fn driver_failures_keep_cached_state() {
    let mut reg = two_supplies();
    let a0 = state(5.0, 1.0, false);
    tick(&mut reg, |_| Some(a0));

    let job = reg.begin_set_power(&name("A"), true).unwrap();
    assert_eq!(reg.finish_power(job, PowerOutcome::CommandFailed), Err(DeviceError::DriverError));
    assert_eq!(reg.snapshot_one(&name("A")), Ok(a0));

    let job = reg.begin_toggle_power(&name("A")).unwrap();
    assert!(job.on);
    assert_eq!(reg.finish_power(job, PowerOutcome::StatusFailed), Err(DeviceError::DriverError));
    assert_eq!(reg.snapshot_one(&name("A")), Ok(a0));
    assert!(reg.begin_set_power(&name("A"), false).is_ok());
}

#[test]
fn empty_registry_lists_nothing() {
    let mut reg: Registry<FakeSupply> = Registry::new();
    assert!(listing(&reg).is_empty());
    assert!(reg.begin_refresh().is_empty());
    reg.finish_refresh(Vec::new());
    assert_eq!(reg.snapshot_one(&name("A")), Err(DeviceError::NotFound));
}

#[test]
fn registering_a_name_again_replaces_its_connection() {
    let mut reg = two_supplies();
    tick(&mut reg, |_| Some(state(1.0, 2.0, true)));
    reg.register(name("A"), FakeSupply::on_port(7));
    assert_eq!(listing(&reg).len(), 2);
    assert_eq!(reg.snapshot_one(&name("A")), Ok(DeviceState::default()));
    let job = reg.begin_set_power(&name("A"), true).unwrap();
    assert_eq!(job.connection.port, 7);
}

#[test]
fn refresh_job_for_unknown_name_is_dropped() {
    let mut reg = two_supplies();
    let stray = PollJob { name: name("Z"), connection: FakeSupply::on_port(9) };
    reg.finish_refresh(vec![(stray, Some(state(1.0, 1.0, true)))]);
    assert_eq!(
        listing(&reg),
        vec![(name("A"), DeviceState::default()), (name("B"), DeviceState::default())]
    );
}

#[test]
fn later_read_in_same_tick_wins() {
    let mut reg = two_supplies();
    let jobs = reg.begin_refresh();
    let mut it = jobs.into_iter();
    let a = it.next().unwrap();
    let b = it.next().unwrap();
    let first = state(1.0, 0.0, false);
    let second = state(2.0, 0.0, true);
    let stray_a = PollJob { name: name("A"), connection: FakeSupply::on_port(8) };
    reg.finish_refresh(vec![(a, Some(first)), (b, None), (stray_a, Some(second))]);
    assert_eq!(reg.snapshot_one(&name("A")), Ok(second));
    let job = reg.begin_set_power(&name("A"), true).unwrap();
    assert_eq!(job.connection.port, 8);
}

#[test]
fn default_state_is_off_and_zero() {
    let d = DeviceState::default();
    assert_eq!(d, DeviceState::new(0, 0, false));
    assert_eq!(f32::from_bits(d.voltage_bits), 0.0);
    assert!(!d.power);
}
