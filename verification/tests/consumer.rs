use inqjet::consumer::{Action, Archiver, Event};

/// Advances through events, checking the action that each one answers.
fn run(archiver: &mut Archiver, steps: &[(Action, Event)]) {
    for (action, event) in steps {
        assert_eq!(archiver.action(), *action);
        archiver.advance(*event);
    }
}

#[test]
fn idle_round_parks() {
    let mut a = Archiver::new(1, true);
    run(
        &mut a,
        &[
            (Action::LoadRunning, Event::Running(true)),
            (Action::Poll(0), Event::Empty),
            (Action::Poll(1), Event::Empty),
            (Action::Park, Event::Done),
        ],
    );
    assert_eq!(a.action(), Action::LoadRunning);
}

#[test]
fn idle_round_spins_without_a_timeout() {
    let mut a = Archiver::new(0, false);
    run(
        &mut a,
        &[
            (Action::LoadRunning, Event::Running(true)),
            (Action::Poll(0), Event::Empty),
            (Action::Spin, Event::Done),
            (Action::LoadRunning, Event::Running(true)),
        ],
    );
}

#[test]
fn round_with_work_flushes_every_stream() {
    let mut a = Archiver::new(2, true);
    run(
        &mut a,
        &[
            (Action::LoadRunning, Event::Running(true)),
            (Action::Poll(0), Event::Empty),
            (Action::Poll(1), Event::Record),
            (Action::Poll(1), Event::Record),
            (Action::Poll(1), Event::Empty),
            (Action::Poll(2), Event::Empty),
            (Action::Flush(0), Event::Done),
            (Action::Flush(1), Event::Done),
            (Action::Flush(2), Event::Done),
            (Action::LoadRunning, Event::Running(true)),
            (Action::Poll(0), Event::Empty),
            (Action::Poll(1), Event::Empty),
            (Action::Poll(2), Event::Empty),
            (Action::Park, Event::Done),
        ],
    );
}

#[test]
fn shutdown_drains_and_flushes_every_stream() {
    let mut a = Archiver::new(1, true);
    run(
        &mut a,
        &[
            (Action::LoadRunning, Event::Running(false)),
            (Action::Poll(0), Event::Record),
            (Action::Poll(0), Event::Record),
            (Action::Poll(0), Event::Empty),
            (Action::Flush(0), Event::Done),
            (Action::Poll(1), Event::Record),
            (Action::Poll(1), Event::Empty),
            (Action::Flush(1), Event::Done),
        ],
    );
    assert_eq!(a.action(), Action::Stop);
}

#[test]
fn shutdown_flushes_streams_without_records() {
    let mut a = Archiver::new(0, false);
    run(
        &mut a,
        &[
            (Action::LoadRunning, Event::Running(false)),
            (Action::Poll(0), Event::Empty),
            (Action::Flush(0), Event::Done),
        ],
    );
    assert_eq!(a.action(), Action::Stop);
}
