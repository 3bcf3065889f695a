use rust_shell::jobs::{job_marker, next_job_number, Job, Jobs};

fn job(number: u32) -> Job {
    Job {
        number,
        command: "sleep 1".to_string(),
        status: "Running".to_string(),
    }
}

#[test]
fn the_last_two_jobs_are_marked() {
    assert_eq!(job_marker(0, 1), "+");
    assert_eq!(job_marker(0, 2), "-");
    assert_eq!(job_marker(1, 2), "+");
    assert_eq!(job_marker(0, 3), " ");
    assert_eq!(job_marker(5, 3), " ");
    assert_eq!(job_marker(usize::MAX - 1, usize::MAX), "+");
}

#[test]
fn the_least_free_number_comes_next() {
    assert_eq!(next_job_number(&vec![]), 1);
    assert_eq!(next_job_number(&vec![job(1), job(2)]), 3);
    assert_eq!(next_job_number(&vec![job(1), job(3)]), 2);
    assert_eq!(next_job_number(&vec![job(2)]), 1);
    assert_eq!(next_job_number(&vec![job(3), job(1), job(2)]), 4);
}

#[test]
fn the_next_number_grows_once_it_is_used() {
    for k in 0..=3 {
        let mut jobs = vec![job(5), job(1), job(3)];
        assert_eq!(next_job_number(&jobs), 2);
        jobs.insert(k, job(2));
        assert_eq!(next_job_number(&jobs), 4);
    }
}

#[test]
fn the_next_number_ignores_the_order() {
    for numbers in [[1, 2, 4], [1, 4, 2], [2, 1, 4], [2, 4, 1], [4, 1, 2], [4, 2, 1]] {
        let jobs: Vec<Job> = numbers.iter().map(|n| job(*n)).collect();
        assert_eq!(next_job_number(&jobs), 3);
    }
}

#[test]
fn jobs_are_listed_with_their_status() {
    let mut jobs = Jobs::new();
    assert_eq!(jobs.start("sleep 10".to_string()), 1);
    assert_eq!(jobs.start("sleep 20".to_string()), 2);
    assert_eq!(jobs.start("sleep 30".to_string()), 3);
    assert_eq!(
        jobs.list(&vec![false, true, false]),
        "[1]   Running                 sleep 10 &\n\
         [2]-  Done                    sleep 20\n\
         [3]+  Running                 sleep 30 &\n"
    );
    assert_eq!(jobs.numbers(), vec![1, 3]);
}

#[test]
fn done_jobs_are_told_of_once() {
    let mut jobs = Jobs::new();
    jobs.start("a".to_string());
    jobs.start("b".to_string());
    assert_eq!(jobs.reap(&vec![true, false]), "[1]-  Done                    a\n");
    assert_eq!(jobs.numbers(), vec![2]);
    assert_eq!(jobs.reap(&vec![false]), "");
    assert_eq!(jobs.list(&vec![false]), "[2]+  Running                 b &\n");
}

#[test]
fn the_number_of_a_job_that_left_is_used_again() {
    let mut jobs = Jobs::new();
    for name in ["a", "b", "c"] {
        jobs.start(name.to_string());
    }
    jobs.reap(&vec![false, true, false]);
    assert_eq!(jobs.numbers(), vec![1, 3]);
    assert_eq!(jobs.start("d".to_string()), 2);
    assert_eq!(jobs.numbers(), vec![1, 2, 3]);
    assert_eq!(
        jobs.list(&vec![false, false, false]),
        "[1]   Running                 a &\n\
         [2]-  Running                 d &\n\
         [3]+  Running                 c &\n"
    );
}

#[test]
fn no_jobs_print_nothing() {
    let mut jobs = Jobs::new();
    assert_eq!(jobs.list(&vec![]), "");
    assert_eq!(jobs.reap(&vec![]), "");
}
