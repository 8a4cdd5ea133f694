use torrent_scraper::driver::{
    pacing_delay, progress_hundredths, remaining_millis, Action, Driver, Event, Phase,
    CADENCE, CATALOG_SIZE, FLOOR, MIN_INTERVAL_MS,
};

#[test]
fn the_first_candidate_is_just_above_the_floor() {
    let driver = Driver::new();
    assert_eq!(FLOOR, 99);
    assert_eq!(driver.cursor(), 99);
    assert_eq!(driver.candidate(), Some(100));
    assert_eq!(driver.phase(), Phase::Idle);
    assert_eq!(driver.processed(), 0);
}

#[test]
fn a_visited_id_is_skipped_without_a_fetch() {
    let mut driver = Driver::new();
    assert_eq!(driver.step(Event::Looked { visited: true }), Action::Look);
    assert_eq!(driver.phase(), Phase::Idle);
    assert_eq!(driver.candidate(), Some(101));
    assert_eq!(driver.processed(), 0);
}

#[test]
fn an_id_runs_through_the_phases() {
    let mut driver = Driver::new();
    assert_eq!(driver.step(Event::Looked { visited: false }), Action::Fetch(100));
    assert_eq!(driver.phase(), Phase::Fetching);
    assert_eq!(driver.step(Event::Fetched), Action::Extract(100));
    assert_eq!(driver.phase(), Phase::Extracting);
    assert_eq!(driver.step(Event::Extracted), Action::Record(100));
    assert_eq!(driver.phase(), Phase::Recording);
    assert_eq!(driver.step(Event::Recorded), Action::Pause { flush: false });
    assert_eq!(driver.phase(), Phase::Throttling);
    assert_eq!(driver.processed(), 1);
    assert_eq!(driver.step(Event::Slept), Action::Look);
    assert_eq!(driver.phase(), Phase::Idle);
    assert_eq!(driver.candidate(), Some(101));
}

#[test]
fn a_failure_leads_to_the_pause() {
    let mut driver = Driver::new();
    driver.step(Event::Looked { visited: false });
    assert_eq!(driver.step(Event::Failed), Action::Pause { flush: false });
    assert_eq!(driver.processed(), 1);
    driver.step(Event::Slept);
    driver.step(Event::Looked { visited: false });
    driver.step(Event::Fetched);
    assert_eq!(driver.step(Event::Failed), Action::Pause { flush: false });
    assert_eq!(driver.processed(), 2);
    assert_eq!(driver.phase(), Phase::Throttling);
}

#[test]
fn an_event_out_of_turn_is_refused() {
    let mut driver = Driver::new();
    assert_eq!(driver.step(Event::Fetched), Action::Refused);
    assert_eq!(driver.step(Event::Slept), Action::Refused);
    assert_eq!(driver.step(Event::Failed), Action::Refused);
    assert_eq!(driver.phase(), Phase::Idle);
    assert_eq!(driver.candidate(), Some(100));
    driver.step(Event::Looked { visited: false });
    assert_eq!(driver.step(Event::Looked { visited: false }), Action::Refused);
    assert_eq!(driver.step(Event::Recorded), Action::Refused);
    assert_eq!(driver.phase(), Phase::Fetching);
}

#[test]
fn the_checkpoint_is_due_every_eighty_processed_ids() {
    assert_eq!(CADENCE, 80);
    let mut driver = Driver::new();
    let mut flushes: Vec<u64> = Vec::new();
    for round in 0..400u64 {
        let visited = round % 5 == 0;
        match driver.step(Event::Looked { visited }) {
            Action::Look => continue,
            Action::Fetch(id) => assert_eq!(id as u64, 100 + round),
            other => panic!("{:?}", other),
        }
        driver.step(Event::Fetched);
        driver.step(Event::Extracted);
        match driver.step(Event::Recorded) {
            Action::Pause { flush: true } => flushes.push(driver.processed()),
            Action::Pause { flush: false } => {}
            other => panic!("{:?}", other),
        }
        driver.step(Event::Slept);
    }
    assert_eq!(driver.processed(), 320);
    assert_eq!(flushes, vec![80, 160, 240, 320]);
}

#[test]
fn the_pause_fills_the_interval() {
    assert_eq!(MIN_INTERVAL_MS, 50);
    assert_eq!(pacing_delay(0), 50);
    assert_eq!(pacing_delay(20), 30);
    assert_eq!(pacing_delay(49), 1);
    assert_eq!(pacing_delay(50), 0);
    assert_eq!(pacing_delay(5000), 0);
    assert_eq!(pacing_delay(u64::MAX), 0);
}

#[test]
fn progress_is_a_share_of_the_catalogue() {
    assert_eq!(CATALOG_SIZE, 5559585);
    assert_eq!(progress_hundredths(0, CATALOG_SIZE), Some(0));
    assert_eq!(progress_hundredths(5559585, CATALOG_SIZE), Some(10000));
    assert_eq!(progress_hundredths(2779792, CATALOG_SIZE), Some(4999));
    assert_eq!(progress_hundredths(1000, 3000), Some(3333));
    assert_eq!(progress_hundredths(1000, 0), None);
}

#[test]
fn the_rest_goes_at_the_pace_so_far() {
    assert_eq!(remaining_millis(1000, 0, 100), None);
    assert_eq!(remaining_millis(1000, 10, 100), Some(9000));
    assert_eq!(remaining_millis(1000, 3, 100), Some(32333));
    assert_eq!(remaining_millis(1000, 100, 100), Some(0));
    assert_eq!(remaining_millis(1000, 200, 100), Some(0));
    assert_eq!(remaining_millis(8000, 80, CATALOG_SIZE), Some(555950500));
    assert_eq!(
        remaining_millis(u64::MAX, 1, u64::MAX),
        Some((u64::MAX as u128 - 1) * u64::MAX as u128)
    );
}
