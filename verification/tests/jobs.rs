use browseros_agent::jobs::{JobState, JobTable, JOB_TTL_MS, MAX_JOBS};

#[test]
fn minted_jobs_run_until_recorded() {
    let mut t: JobTable<u32> = JobTable::new();
    let id = t.mint_running(0);
    assert!(id.starts_with("job-"));
    assert_eq!(id.len(), 40);
    match t.lookup(&id, 10) {
        Some(j) => assert_eq!(j.state.status(), "running"),
        None => panic!("job missing"),
    }
    t.complete(&id, Some(42), 20);
    match t.lookup(&id, 30) {
        Some(j) => {
            assert!(matches!(j.state, JobState::Done { value: Some(42) }));
            assert_eq!(j.updated_ms, 20);
            assert_eq!(j.state.status(), "done");
        }
        None => panic!("job missing"),
    }
    let other = t.mint_running(40);
    t.fail(&other, "boom".to_string(), 50);
    match t.lookup(&other, 60) {
        Some(j) => {
            assert!(matches!(&j.state, JobState::Failed { error } if error == "boom"));
            assert_eq!(j.state.status(), "error");
        }
        None => panic!("job missing"),
    }
    // An unknown id changes nothing.
    t.complete("job-unknown", Some(1), 70);
    assert!(t.lookup("job-unknown", 70).is_none());
}

#[test]
fn jobs_expire_after_thirty_minutes() {
    let mut t: JobTable<u32> = JobTable::new();
    let id = t.mint_running(1_000);
    assert!(t.lookup(&id, 1_000 + JOB_TTL_MS - 1).is_some());
    assert!(t.lookup(&id, 1_000 + JOB_TTL_MS).is_none());
    assert_eq!(JOB_TTL_MS, 30 * 60 * 1000);
}

#[test]
fn the_oldest_jobs_go_first_beyond_the_cap() {
    let mut t: JobTable<u32> = JobTable::new();
    let mut ids = Vec::new();
    for i in 0..(MAX_JOBS as u64 + 5) {
        ids.push(t.mint_running(i));
    }
    // Each mint collects before adding, so one job beyond the cap may stand.
    assert!(t.jobs.len() <= MAX_JOBS + 1);
    t.gc(MAX_JOBS as u64 + 5);
    assert_eq!(t.jobs.len(), MAX_JOBS);
    assert!(t.lookup(&ids[0], 100).is_none());
    assert!(t.lookup(&ids[4], 100).is_none());
    assert!(t.lookup(&ids[5], 100).is_some());
    assert!(t.lookup(&ids[MAX_JOBS + 4], 100).is_some());
}

#[test]
fn ids_are_distinct() {
    let mut t: JobTable<u32> = JobTable::new();
    let a = t.mint_running(0);
    let b = t.mint_running(0);
    assert_ne!(a, b);
    assert_eq!(t.jobs.len(), 2);
}
