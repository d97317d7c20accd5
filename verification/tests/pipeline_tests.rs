use base64::Engine;
use bytes::Bytes;
use md5::Digest;
use md5::Md5;
use multipart_upload::dispatch::Dispatcher;
use multipart_upload::orchestrate::AbortRequest;
use multipart_upload::orchestrate::CompleteRequest;
use multipart_upload::orchestrate::CompletedPart;
use multipart_upload::orchestrate::Orchestrator;
use multipart_upload::orchestrate::PartUploadRequest;
use multipart_upload::orchestrate::UploadState;
use multipart_upload::split::split;
use multipart_upload::split::Splitter;
use multipart_upload::PART_SIZE_MIN;
use std::collections::VecDeque;

/// An in-memory stand-in for the remote store. It checks what a real store
/// would: the session token is one it issued, each part's declared length
/// and base64 MD5 match the body, and completion names uploaded parts in
/// strictly ascending order. Completion assembles the object in part-number
/// order; abort discards the session.
struct FakeStore {
    next_id: usize,
    sessions: Vec<Session>,
    objects: Vec<(String, Vec<u8>)>,
}

struct Session {
    upload_id: String,
    key: String,
    parts: Vec<(usize, Vec<u8>, String)>,
}

fn b64(d: &[u8]) -> String {
    base64::engine::general_purpose::STANDARD.encode(d)
}

impl FakeStore {
    fn new() -> FakeStore {
        FakeStore { next_id: 0, sessions: Vec::new(), objects: Vec::new() }
    }

    fn create(&mut self, bucket: &Option<String>, key: &Option<String>) -> String {
        assert!(bucket.is_some());
        let upload_id = format!("upload-{}", self.next_id);
        self.next_id += 1;
        self.sessions.push(Session {
            upload_id: upload_id.clone(),
            key: key.clone().unwrap(),
            parts: Vec::new(),
        });
        upload_id
    }

    fn upload_part(&mut self, req: &PartUploadRequest) -> String {
        let body: Vec<u8> = req.body.iter().flat_map(|b| b.iter().copied()).collect();
        assert_eq!(body.len(), req.content_length);
        let digest: [u8; 16] = Md5::digest(&body).into();
        assert_eq!(req.content_md5, b64(&digest));
        let upload_id = req.upload_id.as_ref().expect("upload id");
        let session = self
            .sessions
            .iter_mut()
            .find(|s| &s.upload_id == upload_id)
            .expect("unknown session");
        let etag = format!("etag-{}", req.part_number);
        session.parts.push((req.part_number, body, etag.clone()));
        etag
    }

    fn complete(&mut self, req: &CompleteRequest) -> Vec<u8> {
        let upload_id = req.upload_id.as_ref().expect("upload id");
        let pos = self
            .sessions
            .iter()
            .position(|s| &s.upload_id == upload_id)
            .expect("unknown session");
        let session = self.sessions.remove(pos);
        for w in req.parts.windows(2) {
            assert!(w[0].part_number < w[1].part_number);
        }
        let mut data = Vec::new();
        for cp in &req.parts {
            let (_, body, etag) = session
                .parts
                .iter()
                .find(|(n, _, _)| *n == cp.part_number)
                .expect("part was not uploaded");
            assert_eq!(cp.e_tag.as_deref(), Some(etag.as_str()));
            data.extend_from_slice(body);
        }
        self.objects.push((session.key, data.clone()));
        data
    }

    fn abort(&mut self, req: &AbortRequest) -> bool {
        let upload_id = req.upload_id.as_ref().expect("upload id");
        match self.sessions.iter().position(|s| &s.upload_id == upload_id) {
            Some(pos) => {
                self.sessions.remove(pos);
                true
            }
            None => false,
        }
    }

    fn lists_session_for_key(&self, key: &str) -> bool {
        self.sessions.iter().any(|s| s.key == key)
    }
}

fn chunk_up(data: &[u8]) -> Vec<Bytes> {
    let sizes = [1048576usize, 13, 2718281, 524288, 999999];
    let mut chunks = vec![Bytes::new()];
    let mut off = 0;
    let mut k = 0;
    while off < data.len() {
        let s = sizes[k % sizes.len()].min(data.len() - off);
        chunks.push(Bytes::copy_from_slice(&data[off..off + s]));
        off += s;
        k += 1;
    }
    chunks
}

/// Upload `size` deterministic bytes through the whole verified pipeline
/// against the in-memory store and check the object round-trips exactly.
fn check(size: usize, limit: Option<usize>) {
    let min = PART_SIZE_MIN as usize;
    let max = 4 * min;
    let data: Vec<u8> = (0..size).map(|i| (i % 251) as u8).collect();

    let mut store = FakeStore::new();
    let mut orch: Orchestrator<String> =
        Orchestrator::new(Some("bucket".to_string()), Some("key".to_string()));

    let creq = orch.create_request();
    let upload_id = store.create(&creq.bucket, &creq.key);
    orch.on_create_ok(Some(upload_id));
    orch.start_parts();

    let parts = split(chunk_up(&data), min, max);
    let n_parts = parts.len();
    let mut reqs: VecDeque<PartUploadRequest> = orch.part_requests(parts).into();

    let mut d: Dispatcher<usize> = Dispatcher::new(limit);
    let mut running: Vec<(u64, PartUploadRequest)> = Vec::new();
    let mut input_done = false;
    let mut max_in_flight = 0;
    loop {
        while d.wants_task() && !reqs.is_empty() {
            let r = reqs.pop_front().unwrap();
            let id = d.admit_task();
            running.push((id, r));
        }
        if reqs.is_empty() && !input_done {
            d.input_exhausted();
            input_done = true;
        }
        max_in_flight = max_in_flight.max(d.in_flight_len());
        if running.is_empty() {
            break;
        }
        // Resolve the most recently admitted task first, so results arrive
        // out of admission order whenever more than one is in flight.
        let (id, r) = running.pop().unwrap();
        let etag = store.upload_part(&r);
        let part_number = r.part_number;
        d.task_completed(id, part_number);
        orch.on_part_completed(CompletedPart { e_tag: Some(etag), part_number });
    }
    assert!(d.is_done());
    if let Some(l) = limit {
        assert!(max_in_flight <= l);
    }
    let outputs = d.into_outputs();
    assert_eq!(outputs.len(), n_parts);
    let mut numbers = outputs.clone();
    numbers.sort();
    assert_eq!(numbers, (1..=n_parts).collect::<Vec<usize>>());

    let creq = orch.complete_request();
    let object = store.complete(&creq);
    orch.on_complete_ok();
    assert_eq!(orch.current_state(), UploadState::Done);
    assert_eq!(object, data);
    assert!(!store.lists_session_for_key("key"));
}

#[test]
fn test_empty() {
    // A zero-byte source: no part is emitted and the session is still
    // created and completed, with an empty part list.
    check(0, None);
}

#[test]
fn test_small() {
    check(PART_SIZE_MIN as usize / 2, None);
}

#[test]
fn test_exact() {
    check(PART_SIZE_MIN as usize * 2, None);
}

#[test]
fn test_large() {
    check(PART_SIZE_MIN as usize * 5 / 2, None);
}

#[test]
fn test_sequential() {
    check(PART_SIZE_MIN as usize * 5, Some(1));
}

#[test]
fn test_concurrent() {
    check(PART_SIZE_MIN as usize * 5, Some(2));
}

#[test]
fn test_concurrent_unlimited() {
    check(PART_SIZE_MIN as usize * 5, None);
}

#[test]
fn test_abort() {
    // Two parts are dispatched, then the source fails: the source error is
    // the one reported, the abort names the session the create call issued,
    // and no session for the key remains listable afterwards.
    let mut store = FakeStore::new();
    let mut orch: Orchestrator<String> =
        Orchestrator::new(Some("bucket".to_string()), Some("key".to_string()));
    let creq = orch.create_request();
    let upload_id = store.create(&creq.bucket, &creq.key);
    orch.on_create_ok(Some(upload_id.clone()));
    orch.start_parts();

    let mut sp = Splitter::new(4, 8);
    let mut d: Dispatcher<usize> = Dispatcher::new(None);
    let chunks = [
        Ok(Bytes::from_static(&[0, 1, 2, 3, 4, 5])),
        Ok(Bytes::from_static(&[6, 7, 8, 9, 10, 11, 12, 13, 14, 15])),
        Err("error".to_string()),
    ];
    let mut dispatched = 0;
    let mut source_error = None;
    for item in chunks {
        while let Some(part) = sp.pop() {
            let req = orch.part_request(part);
            let id = d.admit_task();
            let etag = store.upload_part(&req);
            let part_number = req.part_number;
            d.task_completed(id, part_number);
            orch.on_part_completed(CompletedPart { e_tag: Some(etag), part_number });
            dispatched += 1;
        }
        match item {
            Ok(chunk) => sp.push(chunk),
            Err(e) => {
                source_error = Some(e);
                break;
            }
        }
    }
    assert_eq!(dispatched, 2);
    let abandoned = d.fail();
    assert_eq!(abandoned.len(), 0);
    assert!(!d.wants_task());
    orch.on_source_err(source_error.unwrap());
    assert!(orch.needs_abort());
    let areq = orch.abort_request();
    assert_eq!(areq.upload_id, Some(upload_id));
    assert!(store.abort(&areq));
    orch.on_abort_done(true);
    assert_eq!(orch.current_state(), UploadState::Aborted);
    assert_eq!(orch.into_error(), Some("error".to_string()));
    assert!(!store.lists_session_for_key("key"));
}
