use bytes::Bytes;
use multipart_upload::orchestrate::CompletedPart;
use multipart_upload::orchestrate::ErrorKind;
use multipart_upload::orchestrate::Orchestrator;
use multipart_upload::orchestrate::UploadState;
use multipart_upload::split::Part;

fn some(s: &str) -> Option<String> {
    Some(s.to_string())
}

#[test]
fn test_create_error_is_terminal_without_abort() {
    let mut orch: Orchestrator<String> = Orchestrator::new(some("bucket"), some("key"));
    let req = orch.create_request();
    assert_eq!(req.bucket, some("bucket"));
    assert_eq!(req.key, some("key"));
    orch.on_create_err("create failed".to_string());
    assert_eq!(orch.current_state(), UploadState::Failed);
    assert_eq!(orch.current_error_kind(), Some(ErrorKind::Create));
    assert!(!orch.needs_abort());
    assert_eq!(orch.into_error(), Some("create failed".to_string()));
}

#[test]
fn test_part_error_triggers_abort() {
    let mut orch: Orchestrator<String> = Orchestrator::new(some("bucket"), some("key"));
    orch.on_create_ok(some("upload-7"));
    orch.start_parts();
    assert_eq!(orch.current_state(), UploadState::InProgress);
    orch.on_part_err("part 2 failed".to_string());
    assert!(orch.needs_abort());
    assert_eq!(orch.current_error_kind(), Some(ErrorKind::UploadPart));
    let areq = orch.abort_request();
    assert_eq!(areq.upload_id, some("upload-7"));
    assert_eq!(areq.bucket, some("bucket"));
    assert_eq!(areq.key, some("key"));
    orch.on_abort_done(true);
    assert_eq!(orch.current_state(), UploadState::Aborted);
    assert!(!orch.abort_reported_failure());
    assert_eq!(orch.into_error(), Some("part 2 failed".to_string()));
}

#[test]
fn test_complete_error_triggers_abort() {
    let mut orch: Orchestrator<String> = Orchestrator::new(some("bucket"), some("key"));
    orch.on_create_ok(some("upload-9"));
    orch.start_parts();
    orch.on_part_completed(CompletedPart { e_tag: some("e1"), part_number: 1 });
    let creq = orch.complete_request();
    assert_eq!(creq.upload_id, some("upload-9"));
    assert_eq!(creq.parts.len(), 1);
    orch.on_complete_err("complete rejected".to_string());
    assert!(orch.needs_abort());
    assert_eq!(orch.current_error_kind(), Some(ErrorKind::Complete));
    orch.on_abort_done(true);
    assert_eq!(orch.into_error(), Some("complete rejected".to_string()));
}

#[test]
fn test_abort_failure_never_replaces_the_original_error() {
    let mut orch: Orchestrator<String> = Orchestrator::new(some("bucket"), some("key"));
    orch.on_create_ok(some("upload-3"));
    orch.start_parts();
    orch.on_source_err("source broke".to_string());
    assert_eq!(orch.current_error_kind(), Some(ErrorKind::Source));
    orch.on_abort_done(false);
    assert_eq!(orch.current_state(), UploadState::Aborted);
    assert!(orch.abort_reported_failure());
    assert_eq!(orch.current_error_kind(), Some(ErrorKind::Source));
    assert_eq!(orch.into_error(), Some("source broke".to_string()));
}

#[test]
fn test_complete_request_sorts_receipts() {
    let mut orch: Orchestrator<String> = Orchestrator::new(some("bucket"), some("key"));
    orch.on_create_ok(some("upload-4"));
    orch.start_parts();
    for n in [3usize, 1, 4, 2] {
        assert!(!orch.has_part_number(n));
        orch.on_part_completed(CompletedPart { e_tag: Some(format!("etag-{}", n)), part_number: n });
        assert!(orch.has_part_number(n));
    }
    assert_eq!(orch.parts_collected(), 4);
    let creq = orch.complete_request();
    let numbers: Vec<usize> = creq.parts.iter().map(|p| p.part_number).collect();
    assert_eq!(numbers, vec![1, 2, 3, 4]);
    for p in &creq.parts {
        assert_eq!(p.e_tag, Some(format!("etag-{}", p.part_number)));
    }
    orch.on_complete_ok();
    assert_eq!(orch.current_state(), UploadState::Done);
    assert_eq!(orch.into_error(), None);
}

#[test]
fn test_part_request_encodes_digest() {
    let mut orch: Orchestrator<String> = Orchestrator::new(some("bucket"), some("key"));
    orch.on_create_ok(some("upload-1"));
    orch.start_parts();
    let part = Part {
        body: vec![Bytes::from_static(b"abc")],
        content_length: 3,
        content_md5: [
            0x90, 0x01, 0x50, 0x98, 0x3c, 0xd2, 0x4f, 0xb0, 0xd6, 0x96, 0x3f, 0x7d, 0x28, 0xe1,
            0x7f, 0x72,
        ],
        part_number: 1,
    };
    let req = orch.part_request(part);
    assert_eq!(req.bucket, some("bucket"));
    assert_eq!(req.key, some("key"));
    assert_eq!(req.upload_id, some("upload-1"));
    assert_eq!(req.part_number, 1);
    assert_eq!(req.content_length, 3);
    assert_eq!(req.content_md5, "kAFQmDzST7DWlj99KOF/cg==");
    assert_eq!(req.body, vec![Bytes::from_static(b"abc")]);
}

#[test]
fn test_empty_digest_encoding() {
    let mut orch: Orchestrator<String> = Orchestrator::new(some("bucket"), some("key"));
    orch.on_create_ok(some("upload-2"));
    orch.start_parts();
    let part = Part {
        body: Vec::new(),
        content_length: 0,
        content_md5: [
            0xd4, 0x1d, 0x8c, 0xd9, 0x8f, 0x00, 0xb2, 0x04, 0xe9, 0x80, 0x09, 0x98, 0xec, 0xf8,
            0x42, 0x7e,
        ],
        part_number: 1,
    };
    let req = orch.part_request(part);
    assert_eq!(req.content_md5, "1B2M2Y8AsgTpgAmY7PhCfg==");
}
