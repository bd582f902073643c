use service_core::jobs::{
    count_up, first_async_job, first_sync_io_job, first_sync_job, first_sync_job1, Job,
    JobDispatcher, JobKind, JobTask,
};

#[test]
fn one_job_of_each_kind_lands_on_its_own_substrate() {
    // one job of each kind: each ends up queued for its own substrate,
    // none on another's, whatever the submission order
    let mut d = JobDispatcher::new();
    d.submit(first_sync_job1());
    d.submit(first_async_job());
    d.submit(first_sync_io_job());

    assert_eq!(d.future_queue.len(), 1);
    assert_eq!(d.io_queue.len(), 1);
    assert_eq!(d.cpu_queue.len(), 1);
    assert_eq!(d.future_queue[0].task, JobTask::Greet);
    assert_eq!(d.io_queue[0].task, JobTask::SleepNotify);
    assert_eq!(d.cpu_queue[0].task, JobTask::CountTo(10000000));

    // draining hands each substrate exactly its own jobs
    let f = d.take_future_jobs();
    let io = d.take_io_jobs();
    let c = d.take_cpu_jobs();
    assert!(f.iter().all(|j| j.kind == JobKind::Future));
    assert!(io.iter().all(|j| j.kind == JobKind::IOBlocking));
    assert!(c.iter().all(|j| j.kind == JobKind::CpuBound));
    assert!(d.future_queue.is_empty());
    assert!(d.io_queue.is_empty());
    assert!(d.cpu_queue.is_empty());
}

#[test]
fn submission_order_is_kept_per_queue() {
    let mut d = JobDispatcher::new();
    d.submit(first_sync_job(200));
    d.submit(first_sync_io_job());
    d.submit(first_sync_job(503));
    assert_eq!(
        d.io_queue,
        vec![
            Job { kind: JobKind::IOBlocking, task: JobTask::ReportStatus(200) },
            Job { kind: JobKind::IOBlocking, task: JobTask::SleepNotify },
            Job { kind: JobKind::IOBlocking, task: JobTask::ReportStatus(503) },
        ]
    );
    assert!(d.future_queue.is_empty());
    assert!(d.cpu_queue.is_empty());
}

#[test]
fn job_factories_tag_their_substrate() {
    assert_eq!(first_async_job().kind, JobKind::Future);
    assert_eq!(first_sync_job(404).kind, JobKind::IOBlocking);
    assert_eq!(first_sync_job1().kind, JobKind::CpuBound);
    assert_eq!(first_sync_io_job().kind, JobKind::IOBlocking);
}

#[test]
fn counting_reaches_the_target() {
    assert_eq!(count_up(0), 0);
    assert_eq!(count_up(10), 10);
    assert_eq!(count_up(12345), 12345);
}
