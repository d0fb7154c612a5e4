use passiveradar::playback::{after_read, next_fetch, reader_step, Fetch, HopState, ReaderAction};

#[test]
fn reader_sleeps_when_paused_without_step() {
    let s = HopState { hop: 0, samples: 5 };
    let (t, a) = reader_step(s, true, false, 3, 100);
    assert_eq!(t, s);
    assert_eq!(a, ReaderAction::Sleep(10));
}

#[test]
fn reader_step_read_consumes_request_and_keeps_hop() {
    let s = HopState { hop: 1, samples: 500 };
    let (t, a) = reader_step(s, true, true, 3, 100);
    assert_eq!(t, s);
    assert_eq!(a, ReaderAction::Read { retune: None, consume_step: true });
}

#[test]
fn reader_hops_cyclically_after_its_share() {
    let s = HopState { hop: 2, samples: 100 };
    let (t, a) = reader_step(s, false, false, 3, 100);
    assert_eq!(t, HopState { hop: 0, samples: 0 });
    assert_eq!(a, ReaderAction::Read { retune: Some(0), consume_step: false });
    let (u, b) = reader_step(HopState { hop: 0, samples: 99 }, false, false, 3, 100);
    assert_eq!(u, HopState { hop: 0, samples: 99 });
    assert_eq!(b, ReaderAction::Read { retune: None, consume_step: false });
    assert_eq!(after_read(u, 16384), HopState { hop: 0, samples: 16483 });
}

#[test]
fn display_loop_budget_and_waits() {
    assert_eq!(next_fetch(false, false, false, 0), Fetch::Wait(5));
    assert_eq!(next_fetch(false, false, false, 3), Fetch::Poll);
    assert_eq!(next_fetch(false, false, false, 8), Fetch::Stop);
    assert_eq!(next_fetch(false, true, false, 0), Fetch::Stop);
    assert_eq!(next_fetch(false, true, true, 0), Fetch::Wait(5));
    assert_eq!(next_fetch(true, false, false, 63), Fetch::Wait(5000));
    assert_eq!(next_fetch(true, false, false, 64), Fetch::Stop);
    assert_eq!(next_fetch(true, true, true, 0), Fetch::Wait(5000));
    assert_eq!(next_fetch(true, true, true, 1), Fetch::Poll);
    assert_eq!(next_fetch(true, true, false, 0), Fetch::Poll);
}
