use mnist_mlp::pool::{JobQueue, Message};

#[test]
fn jobs_come_out_before_terminates() {
    let mut q: JobQueue<u32> = JobQueue::new();
    q.submit(1);
    q.submit(2);
    q.submit(3);
    q.shutdown(2);
    assert_eq!(q.len(), 5);
    let mut jobs = Vec::new();
    let mut stops = 0;
    while let Some(m) = q.take() {
        match m {
            Message::Job(j) => {
                assert_eq!(stops, 0);
                jobs.push(j);
            }
            Message::Terminate => stops += 1,
        }
    }
    assert_eq!(jobs, vec![1, 2, 3]);
    assert_eq!(stops, 2);
    assert!(q.take().is_none());
}
