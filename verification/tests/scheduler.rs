use ocv_patch::schedule::{batch_script_lines, schedule_jobs, script_file_name, Job, JobBatch};

fn job(cost: usize, command: &str) -> Job {
    Job { cost, command: command.to_string() }
}

#[test]
fn scenario_ascending_first_fit() {
    // costs [5,5,5,20,2], capacity 20: ascending order [2,5,5,5,20],
    // batch one holds [2,5,5,5] with load 17, batch two holds [20].
    let jobs = vec![job(5, "a"), job(5, "b"), job(5, "c"), job(20, "d"), job(2, "e")];
    let batches = schedule_jobs(jobs, 20).unwrap();
    assert_eq!(batches.len(), 2);
    assert_eq!(batches[0].load, 17);
    assert_eq!(batches[1].load, 20);
    let first: Vec<usize> = batches[0].jobs.iter().map(|j| j.cost).collect();
    assert_eq!(first, vec![2, 5, 5, 5]);
    let second: Vec<usize> = batches[1].jobs.iter().map(|j| j.cost).collect();
    assert_eq!(second, vec![20]);
    assert!(batches.iter().all(|b| b.load <= 20));
}

#[test]
fn oversized_job_fails_without_batches() {
    let jobs = vec![job(5, "a"), job(21, "b")];
    let err = schedule_jobs(jobs, 20).unwrap_err();
    assert_eq!(err.cost, 21);
    assert_eq!(err.capacity, 20);
}

#[test]
fn empty_schedule() {
    let batches = schedule_jobs(Vec::new(), 8).unwrap();
    assert!(batches.is_empty());
}

#[test]
fn equal_costs_keep_order() {
    let jobs = vec![job(3, "first"), job(3, "second"), job(3, "third")];
    let batches = schedule_jobs(jobs, 9).unwrap();
    assert_eq!(batches.len(), 1);
    let cmds: Vec<&str> = batches[0].jobs.iter().map(|j| j.command.as_str()).collect();
    assert_eq!(cmds, vec!["first", "second", "third"]);
}

#[test]
fn job_fits_exactly() {
    let jobs = vec![job(4, "a"), job(4, "b")];
    let batches = schedule_jobs(jobs, 8).unwrap();
    assert_eq!(batches.len(), 1);
    assert_eq!(batches[0].load, 8);
}

#[test]
fn second_batch_opens_when_full() {
    let jobs = vec![job(4, "a"), job(4, "b"), job(4, "c")];
    let batches = schedule_jobs(jobs, 8).unwrap();
    assert_eq!(batches.len(), 2);
    assert_eq!(batches[0].load, 8);
    assert_eq!(batches[1].load, 4);
}

#[test]
fn script_lines_shape() {
    let batch = JobBatch {
        load: 5,
        jobs: vec![job(2, "tool one.yaml"), job(3, "tool two.yaml")],
    };
    let lines = batch_script_lines("/env.d/eda.shrc", "/work/run", &batch);
    assert_eq!(
        lines,
        vec![
            "#!/bin/bash".to_string(),
            "source /env.d/eda.shrc".to_string(),
            "cd /work/run".to_string(),
            "tool one.yaml&".to_string(),
            "tool two.yaml&".to_string(),
            "wait".to_string(),
        ]
    );
}

#[test]
fn script_name() {
    assert_eq!(script_file_name(0), "run_0.sh");
    assert_eq!(script_file_name(12), "run_12.sh");
}
