use multipart_upload::dispatch::Dispatcher;
use std::collections::VecDeque;

/// A synchronous stand-in for the event loop that would advance the tasks:
/// the input queue yields task indices (`None` marks exhaustion), each task
/// resolves to its own index once the test marks it ready, and `pump` plays
/// one scheduler round — admission first, then a completion scan, repeated
/// until nothing progresses, as slots freed by completions are refilled at
/// once.
struct Harness {
    d: Dispatcher<usize>,
    queue: VecDeque<Option<usize>>,
    running: Vec<(u64, usize)>,
    ready: Vec<bool>,
}

impl Harness {
    fn new(limit: Option<usize>, tasks: usize) -> Harness {
        Harness {
            d: Dispatcher::new(limit),
            queue: VecDeque::new(),
            running: Vec::new(),
            ready: vec![false; tasks],
        }
    }

    fn pump(&mut self) {
        loop {
            while self.d.wants_task() {
                match self.queue.front() {
                    Some(Some(_)) => {
                        let task = self.queue.pop_front().unwrap().unwrap();
                        let id = self.d.admit_task();
                        self.running.push((id, task));
                    }
                    Some(None) => {
                        self.queue.pop_front();
                        self.d.input_exhausted();
                    }
                    None => break,
                }
            }
            let mut progressed = false;
            let mut i = 0;
            while i < self.running.len() {
                let (id, task) = self.running[i];
                if self.ready[task] {
                    self.running.remove(i);
                    assert!(self.d.is_in_flight(id));
                    self.d.task_completed(id, task);
                    progressed = true;
                } else {
                    i += 1;
                }
            }
            if !progressed {
                break;
            }
        }
    }
}

#[test]
fn test_dispatch_concurrent() {
    let mut h = Harness::new(Some(2), 5);

    h.pump();
    assert_eq!(h.queue.len(), 0);
    assert_eq!(h.d.in_flight_len(), 0);
    assert!(!h.d.is_done());

    h.queue.push_back(Some(0));
    h.pump();
    assert_eq!(h.queue.len(), 0);
    assert_eq!(h.d.in_flight_len(), 1);

    h.queue.push_back(Some(1));
    h.pump();
    assert_eq!(h.queue.len(), 0);
    assert_eq!(h.d.in_flight_len(), 2);

    h.queue.push_back(Some(2));
    h.pump();
    assert_eq!(h.queue.len(), 1);
    assert_eq!(h.d.in_flight_len(), 2);

    h.queue.push_back(Some(3));
    h.pump();
    assert_eq!(h.queue.len(), 2);
    assert_eq!(h.d.in_flight_len(), 2);

    h.ready[1] = true;
    h.pump();
    assert_eq!(h.queue.len(), 1);
    assert_eq!(h.d.in_flight_len(), 2);

    h.ready[3] = true;
    h.pump();
    assert_eq!(h.queue.len(), 1);
    assert_eq!(h.d.in_flight_len(), 2);

    h.ready[0] = true;
    h.pump();
    assert_eq!(h.queue.len(), 0);
    assert_eq!(h.d.in_flight_len(), 1);

    h.queue.push_back(Some(4));
    h.pump();
    assert_eq!(h.queue.len(), 0);
    assert_eq!(h.d.in_flight_len(), 2);

    h.ready[2] = true;
    h.pump();
    assert_eq!(h.queue.len(), 0);
    assert_eq!(h.d.in_flight_len(), 1);

    h.queue.push_back(None);
    h.pump();
    assert_eq!(h.queue.len(), 0);
    assert_eq!(h.d.in_flight_len(), 1);
    assert!(!h.d.is_done());

    h.ready[4] = true;
    h.pump();
    assert_eq!(h.queue.len(), 0);
    assert_eq!(h.d.in_flight_len(), 0);
    assert!(h.d.is_done());

    let outputs = h.d.into_outputs();
    assert_eq!(outputs, vec![1, 0, 3, 2, 4]);
}

#[test]
fn test_dispatch_fail_fast() {
    let mut d: Dispatcher<usize> = Dispatcher::new(Some(3));
    let a = d.admit_task();
    let b = d.admit_task();
    d.task_completed(a, 10);
    assert!(d.wants_task());
    let abandoned = d.fail();
    assert_eq!(abandoned, vec![b]);
    assert!(d.has_failed());
    assert!(!d.wants_task());
    assert!(!d.is_done());
    assert_eq!(d.in_flight_len(), 0);
    d.input_exhausted();
    assert!(!d.wants_task());
    assert!(!d.is_done());
}

#[test]
fn test_dispatch_unlimited() {
    let mut d: Dispatcher<u64> = Dispatcher::new(None);
    let mut ids = Vec::new();
    for _ in 0..100 {
        assert!(d.wants_task());
        ids.push(d.admit_task());
    }
    assert_eq!(d.in_flight_len(), 100);
    d.input_exhausted();
    for id in ids.iter().rev() {
        d.task_completed(*id, *id * 2);
    }
    assert!(d.is_done());
    let outputs = d.into_outputs();
    assert_eq!(outputs.len(), 100);
    for (i, out) in outputs.iter().enumerate() {
        assert_eq!(*out, (99 - i as u64) * 2);
    }
}
