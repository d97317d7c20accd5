//! The protocol state machine.
//!
//! The orchestrator sequences one multipart upload: create the session, feed
//! every emitted part into a bounded-concurrency upload, then complete — or,
//! on the first failure after the session exists, abort. The remote store is
//! an external collaborator reached through four operations; this module
//! builds the plain-value request for each of them and verifies the
//! sequencing decisions, while the caller performs the calls and reports
//! each outcome back as an event. On failure after a session exists the
//! caller is owed exactly one best-effort abort, whose own failure is
//! recorded on the side and never replaces the original error. A source that
//! produced no parts is completed with an empty part list.
//!
//! A failure of the very first call, create, is terminal with no abort —
//! nothing exists remotely yet — and is modelled by the extra state
//! [`UploadState::Failed`].

use vstd::prelude::*;

use crate::digest::base64_encode_digest;
use crate::digest::base64_of;
use crate::split::Part;

verus! {

/// The protocol states. `Done`, `Aborted` and `Failed` are terminal; no
/// request is handed out from them.
#[derive(Clone, Copy, PartialEq, Eq, Structural, Debug)]
pub enum UploadState {
    Initial,
    Created,
    InProgress,
    Completing,
    Done,
    Aborting,
    Aborted,
    Failed,
}

/// Which step the first observed error came from.
#[derive(Clone, Copy, PartialEq, Eq, Structural, Debug)]
pub enum ErrorKind {
    Source,
    Create,
    UploadPart,
    Complete,
}

/// One remote operation issued to the store, recorded in ghost history.
#[derive(Clone, Copy, PartialEq, Eq, Structural, Debug)]
pub enum RemoteCall {
    Create,
    Complete,
    Abort,
}

/// The record of one successfully uploaded part: the receipt the store
/// returned and the part's sequence number.
#[derive(Debug)]
pub struct CompletedPart {
    pub e_tag: Option<String>,
    pub part_number: usize,
}

/// The create-session request.
pub struct CreateRequest {
    pub bucket: Option<String>,
    pub key: Option<String>,
}

/// The upload request for one part: the session coordinates, the part's
/// number, length, base64-encoded digest, and body slices.
pub struct PartUploadRequest {
    pub bucket: Option<String>,
    pub key: Option<String>,
    pub upload_id: Option<String>,
    pub part_number: usize,
    pub content_length: usize,
    pub content_md5: String,
    pub body: Vec<bytes::Bytes>,
}

/// The completion request: the session coordinates and the uploaded parts,
/// sorted ascending by part number.
pub struct CompleteRequest {
    pub bucket: Option<String>,
    pub key: Option<String>,
    pub upload_id: Option<String>,
    pub parts: Vec<CompletedPart>,
}

/// The abort request: the session coordinates.
pub struct AbortRequest {
    pub bucket: Option<String>,
    pub key: Option<String>,
    pub upload_id: Option<String>,
}

/// Part numbers never decrease along the sequence.
pub open spec fn sorted_by_part_number(s: Seq<CompletedPart>) -> bool {
    forall|i: int, j: int|
        0 <= i < j < s.len() ==> #[trigger] s[i].part_number <= #[trigger] s[j].part_number
}

/// No part number occurs twice.
pub open spec fn part_numbers_distinct(s: Seq<CompletedPart>) -> bool {
    forall|i: int, j: int|
        0 <= i < j < s.len() ==> #[trigger] s[i].part_number != #[trigger] s[j].part_number
}

/// How often `op` occurs in the issued-call history.
pub open spec fn count_op(h: Seq<RemoteCall>, op: RemoteCall) -> int
    decreases h.len(),
{
    if h.len() == 0 {
        0
    } else {
        count_op(h.drop_last(), op) + if h.last() == op {
            1int
        } else {
            0int
        }
    }
}

proof fn lemma_count_op_push(h: Seq<RemoteCall>, x: RemoteCall, op: RemoteCall)
    ensures
        count_op(h.push(x), op) == count_op(h, op) + if x == op {
            1int
        } else {
            0int
        },
{
    assert(h.push(x).drop_last() =~= h);
    assert(h.push(x).last() == x);
}

/// The state machine for one upload session, generic over the caller's
/// error type `E`. It holds the session coordinates, the collected part
/// receipts, the first observed error with the step it came from, and — in
/// ghost state — the history of create/complete/abort calls issued.
pub struct Orchestrator<E> {
    bucket: Option<String>,
    key: Option<String>,
    upload_id: Option<String>,
    state: UploadState,
    completed_parts: Vec<CompletedPart>,
    error_kind: Option<ErrorKind>,
    error: Option<E>,
    abort_failed: bool,
    history: Ghost<Seq<RemoteCall>>,
}

impl<E> Orchestrator<E> {
    /// The configured bucket.
    pub closed spec fn bucket_spec(self) -> Option<String> {
        self.bucket
    }

    /// The configured key.
    pub closed spec fn key_spec(self) -> Option<String> {
        self.key
    }

    /// The session token the create call returned.
    pub closed spec fn upload_id_spec(self) -> Option<String> {
        self.upload_id
    }

    /// The current protocol state.
    pub closed spec fn state_spec(self) -> UploadState {
        self.state
    }

    /// The part receipts collected so far, in arrival order.
    pub closed spec fn completed_parts_spec(self) -> Seq<CompletedPart> {
        self.completed_parts@
    }

    /// The step the first observed error came from, if any.
    pub closed spec fn error_kind_spec(self) -> Option<ErrorKind> {
        self.error_kind
    }

    /// The first observed error, if any.
    pub closed spec fn error_spec(self) -> Option<E> {
        self.error
    }

    /// Whether the best-effort abort itself reported failure.
    pub closed spec fn abort_failed_spec(self) -> bool {
        self.abort_failed
    }

    /// The create/complete/abort calls issued so far, in order.
    pub closed spec fn history_spec(self) -> Seq<RemoteCall> {
        self.history@
    }

    /// How many complete calls the current state accounts for.
    pub closed spec fn completes_of_state(self) -> int {
        if self.state is Completing || self.state is Done {
            1
        } else if (self.state is Aborting || self.state is Aborted) && self.error_kind == Some(
            ErrorKind::Complete,
        ) {
            1
        } else {
            0
        }
    }

    /// Internal consistency. The ghost call history is pinned to the state:
    /// create has been issued once exactly outside `Initial`, complete
    /// exactly when the state accounts for it, abort exactly in `Aborted`.
    /// An error and its kind are present exactly in the failure states, the
    /// kind matches the state that recorded it, an abort failure is only
    /// recorded in `Aborted`, and collected part numbers are distinct.
    pub closed spec fn wf(self) -> bool {
        &&& count_op(self.history@, RemoteCall::Create) == if self.state is Initial {
            0int
        } else {
            1int
        }
        &&& count_op(self.history@, RemoteCall::Complete) == self.completes_of_state()
        &&& count_op(self.history@, RemoteCall::Abort) == if self.state is Aborted {
            1int
        } else {
            0int
        }
        &&& (self.error is Some <==> self.error_kind is Some)
        &&& (self.error is Some <==> (self.state is Failed || self.state is Aborting
            || self.state is Aborted))
        &&& (self.state is Failed ==> self.error_kind == Some(ErrorKind::Create))
        &&& ((self.state is Aborting || self.state is Aborted) ==> (self.error_kind
            != Some(ErrorKind::Create)))
        &&& (self.abort_failed ==> self.state is Aborted)
        &&& part_numbers_distinct(self.completed_parts@)
    }

    /// A fresh orchestrator for one upload to `bucket`/`key`.
    pub fn new(bucket: Option<String>, key: Option<String>) -> (r: Orchestrator<E>)
        ensures
            r.wf(),
            r.state_spec() is Initial,
            r.bucket_spec() == bucket,
            r.key_spec() == key,
            r.upload_id_spec() is None,
            r.completed_parts_spec() == Seq::<CompletedPart>::empty(),
            r.error_spec() is None,
            r.error_kind_spec() is None,
            !r.abort_failed_spec(),
            r.history_spec() == Seq::<RemoteCall>::empty(),
    {
        Orchestrator {
            bucket,
            key,
            upload_id: None,
            state: UploadState::Initial,
            completed_parts: Vec::new(),
            error_kind: None,
            error: None,
            abort_failed: false,
            history: Ghost(Seq::<RemoteCall>::empty()),
        }
    }

    /// The create-session request: the configured bucket and key.
    pub fn create_request(&self) -> (r: CreateRequest)
        requires
            self.state_spec() is Initial,
        ensures
            r.bucket == self.bucket_spec(),
            r.key == self.key_spec(),
    {
        CreateRequest { bucket: clone_opt_string(&self.bucket), key: clone_opt_string(&self.key) }
    }

    /// The create call succeeded and returned the session token. The
    /// session now exists remotely; every later failure owes an abort.
    pub fn on_create_ok(&mut self, upload_id: Option<String>)
        requires
            old(self).wf(),
            old(self).state_spec() is Initial,
        ensures
            final(self).wf(),
            final(self).state_spec() is Created,
            final(self).upload_id_spec() == upload_id,
            final(self).bucket_spec() == old(self).bucket_spec(),
            final(self).key_spec() == old(self).key_spec(),
            final(self).completed_parts_spec() == old(self).completed_parts_spec(),
            final(self).error_spec() is None,
            final(self).history_spec() == old(self).history_spec().push(RemoteCall::Create),
    {
        self.upload_id = upload_id;
        self.state = UploadState::Created;
        proof {
            lemma_count_op_push(self.history@, RemoteCall::Create, RemoteCall::Create);
            lemma_count_op_push(self.history@, RemoteCall::Create, RemoteCall::Complete);
            lemma_count_op_push(self.history@, RemoteCall::Create, RemoteCall::Abort);
        }
        self.history = Ghost(self.history@.push(RemoteCall::Create));
    }

    /// The create call failed. Nothing exists remotely, so the error is
    /// surfaced directly, the session is terminal, and no abort is owed.
    pub fn on_create_err(&mut self, e: E)
        requires
            old(self).wf(),
            old(self).state_spec() is Initial,
        ensures
            final(self).wf(),
            final(self).state_spec() is Failed,
            final(self).error_kind_spec() == Some(ErrorKind::Create),
            final(self).error_spec() == Some(e),
            final(self).history_spec() == old(self).history_spec().push(RemoteCall::Create),
    {
        self.state = UploadState::Failed;
        self.error_kind = Some(ErrorKind::Create);
        self.error = Some(e);
        proof {
            lemma_count_op_push(self.history@, RemoteCall::Create, RemoteCall::Create);
            lemma_count_op_push(self.history@, RemoteCall::Create, RemoteCall::Complete);
            lemma_count_op_push(self.history@, RemoteCall::Create, RemoteCall::Abort);
        }
        self.history = Ghost(self.history@.push(RemoteCall::Create));
    }

    /// Begin feeding parts: the session turns to uploading.
    pub fn start_parts(&mut self)
        requires
            old(self).wf(),
            old(self).state_spec() is Created,
        ensures
            final(self).wf(),
            final(self).state_spec() is InProgress,
            final(self).bucket_spec() == old(self).bucket_spec(),
            final(self).key_spec() == old(self).key_spec(),
            final(self).upload_id_spec() == old(self).upload_id_spec(),
            final(self).completed_parts_spec() == old(self).completed_parts_spec(),
            final(self).error_spec() is None,
            final(self).history_spec() == old(self).history_spec(),
    {
        self.state = UploadState::InProgress;
    }

    /// The upload request for one emitted part: the session coordinates,
    /// the part's own number and length, its digest base64-encoded for the
    /// integrity header, and its body slices, unchanged.
    pub fn part_request(&self, part: Part) -> (r: PartUploadRequest)
        requires
            self.state_spec() is InProgress,
        ensures
            r.bucket == self.bucket_spec(),
            r.key == self.key_spec(),
            r.upload_id == self.upload_id_spec(),
            r.part_number == part.part_number,
            r.content_length == part.content_length,
            r.content_md5@ == base64_of(part.content_md5@),
            r.body@ == part.body@,
    {
        let content_md5 = base64_encode_digest(&part.content_md5);
        PartUploadRequest {
            bucket: clone_opt_string(&self.bucket),
            key: clone_opt_string(&self.key),
            upload_id: clone_opt_string(&self.upload_id),
            part_number: part.part_number,
            content_length: part.content_length,
            content_md5,
            body: part.body,
        }
    }

    /// The upload requests for a whole sequence of emitted parts, one per
    /// part in order: each carries the session coordinates and its own
    /// part's number, length, encoded digest and body, unchanged.
    pub fn part_requests(&self, parts: Vec<Part>) -> (r: Vec<PartUploadRequest>)
        requires
            self.state_spec() is InProgress,
        ensures
            r@.len() == parts@.len(),
            forall|i: int|
                0 <= i < r@.len() ==> {
                    let q = #[trigger] r@[i];
                    &&& q.bucket == self.bucket_spec()
                    &&& q.key == self.key_spec()
                    &&& q.upload_id == self.upload_id_spec()
                    &&& q.part_number == parts@[i].part_number
                    &&& q.content_length == parts@[i].content_length
                    &&& q.content_md5@ == base64_of(parts@[i].content_md5@)
                    &&& q.body@ == parts@[i].body@
                },
    {
        let ghost orig = parts@;
        let mut rest = parts;
        let mut out: Vec<PartUploadRequest> = Vec::new();
        while rest.len() > 0
            invariant
                self.state_spec() is InProgress,
                out@.len() + rest@.len() == orig.len(),
                rest@ == orig.skip(out@.len() as int),
                forall|i: int|
                    0 <= i < out@.len() ==> {
                        let q = #[trigger] out@[i];
                        &&& q.bucket == self.bucket_spec()
                        &&& q.key == self.key_spec()
                        &&& q.upload_id == self.upload_id_spec()
                        &&& q.part_number == orig[i].part_number
                        &&& q.content_length == orig[i].content_length
                        &&& q.content_md5@ == base64_of(orig[i].content_md5@)
                        &&& q.body@ == orig[i].body@
                    },
            decreases rest@.len(),
        {
            let ghost k = out@.len() as int;
            let p = rest.remove(0);
            proof {
                assert(p == orig[k]);
                assert(rest@ =~= orig.skip(k + 1));
            }
            let q = self.part_request(p);
            out.push(q);
        }
        out
    }

    /// Whether a receipt for this part number has already been collected.
    pub fn has_part_number(&self, n: usize) -> (r: bool)
        ensures
            r == exists|i: int|
                0 <= i < self.completed_parts_spec().len() && (#[trigger] self
                    .completed_parts_spec()[i]).part_number == n,
    {
        let mut j: usize = 0;
        while j < self.completed_parts.len()
            invariant
                j <= self.completed_parts@.len(),
                forall|k: int| 0 <= k < j ==> (#[trigger] self.completed_parts@[k]).part_number != n,
            decreases self.completed_parts@.len() - j,
        {
            if self.completed_parts[j].part_number == n {
                return true;
            }
            j = j + 1;
        }
        false
    }

    /// One part upload succeeded; collect its receipt. The uploads run
    /// concurrently, but only the orchestrator writes this collection, and
    /// each part number arrives at most once.
    pub fn on_part_completed(&mut self, cp: CompletedPart)
        requires
            old(self).wf(),
            old(self).state_spec() is InProgress,
            forall|i: int|
                0 <= i < old(self).completed_parts_spec().len() ==> (#[trigger] old(
                    self,
                ).completed_parts_spec()[i]).part_number != cp.part_number,
        ensures
            final(self).wf(),
            final(self).state_spec() is InProgress,
            final(self).completed_parts_spec() == old(self).completed_parts_spec().push(cp),
            final(self).bucket_spec() == old(self).bucket_spec(),
            final(self).key_spec() == old(self).key_spec(),
            final(self).upload_id_spec() == old(self).upload_id_spec(),
            final(self).error_spec() is None,
            final(self).history_spec() == old(self).history_spec(),
    {
        let ghost c = cp;
        self.completed_parts.push(cp);
        proof {
            let nc = self.completed_parts@;
            let pc = old(self).completed_parts@;
            assert forall|i: int, j: int|
                0 <= i < j < nc.len() implies (#[trigger] nc[i]).part_number != (#[trigger] nc[
            j]).part_number by {
                if j < pc.len() {
                    assert(pc[i].part_number != pc[j].part_number);
                } else {
                    assert(nc[j] == c);
                    assert(old(self).completed_parts_spec()[i] == pc[i]);
                    assert(pc[i].part_number != c.part_number);
                }
            }
        }
    }

    /// Reading the source failed: discard the session and owe an abort.
    pub fn on_source_err(&mut self, e: E)
        requires
            old(self).wf(),
            old(self).state_spec() is InProgress,
        ensures
            final(self).wf(),
            final(self).state_spec() is Aborting,
            final(self).error_kind_spec() == Some(ErrorKind::Source),
            final(self).error_spec() == Some(e),
            final(self).upload_id_spec() == old(self).upload_id_spec(),
            final(self).bucket_spec() == old(self).bucket_spec(),
            final(self).key_spec() == old(self).key_spec(),
            final(self).history_spec() == old(self).history_spec(),
    {
        self.state = UploadState::Aborting;
        self.error_kind = Some(ErrorKind::Source);
        self.error = Some(e);
    }

    /// One part upload failed: the first such error wins, the remaining
    /// uploads are abandoned by the dispatcher, and an abort is owed.
    pub fn on_part_err(&mut self, e: E)
        requires
            old(self).wf(),
            old(self).state_spec() is InProgress,
        ensures
            final(self).wf(),
            final(self).state_spec() is Aborting,
            final(self).error_kind_spec() == Some(ErrorKind::UploadPart),
            final(self).error_spec() == Some(e),
            final(self).upload_id_spec() == old(self).upload_id_spec(),
            final(self).bucket_spec() == old(self).bucket_spec(),
            final(self).key_spec() == old(self).key_spec(),
            final(self).history_spec() == old(self).history_spec(),
    {
        self.state = UploadState::Aborting;
        self.error_kind = Some(ErrorKind::UploadPart);
        self.error = Some(e);
    }

    /// Every part upload succeeded: issue the completion call. The
    /// collected receipts leave sorted ascending by part number, a
    /// permutation of what was collected; when the collected numbers are
    /// exactly 1..N they leave gap-free in that order
    /// ([`lemma_sorted_distinct_range_is_identity`]). A source that
    /// produced no parts completes with an empty list.
    pub fn complete_request(&mut self) -> (r: CompleteRequest)
        requires
            old(self).wf(),
            old(self).state_spec() is InProgress,
        ensures
            final(self).wf(),
            final(self).state_spec() is Completing,
            final(self).upload_id_spec() == old(self).upload_id_spec(),
            final(self).bucket_spec() == old(self).bucket_spec(),
            final(self).key_spec() == old(self).key_spec(),
            final(self).error_spec() is None,
            final(self).history_spec() == old(self).history_spec().push(RemoteCall::Complete),
            r.bucket == old(self).bucket_spec(),
            r.key == old(self).key_spec(),
            r.upload_id == old(self).upload_id_spec(),
            r.parts@.to_multiset() == old(self).completed_parts_spec().to_multiset(),
            r.parts@.len() == old(self).completed_parts_spec().len(),
            sorted_by_part_number(r.parts@),
            part_numbers_distinct(r.parts@),
            (forall|i: int|
                0 <= i < old(self).completed_parts_spec().len() ==> 1 <= (#[trigger] old(
                    self,
                ).completed_parts_spec()[i]).part_number <= old(self).completed_parts_spec().len())
                ==> (forall|i: int|
                0 <= i < r.parts@.len() ==> (#[trigger] r.parts@[i]).part_number == i + 1),
    {
        let ghost pre = *old(self);
        let mut parts: Vec<CompletedPart> = Vec::new();
        core::mem::swap(&mut parts, &mut self.completed_parts);
        let parts = sort_completed(parts);
        proof {
            lemma_part_numbers_distinct_transfer(pre.completed_parts@, parts@);
            if forall|i: int|
                0 <= i < pre.completed_parts@.len() ==> 1 <= (#[trigger] pre.completed_parts@[
            i]).part_number <= pre.completed_parts@.len() {
                lemma_part_number_range_transfer(pre.completed_parts@, parts@);
                lemma_sorted_distinct_range_is_identity(parts@);
            }
        }
        self.state = UploadState::Completing;
        proof {
            lemma_count_op_push(self.history@, RemoteCall::Complete, RemoteCall::Create);
            lemma_count_op_push(self.history@, RemoteCall::Complete, RemoteCall::Complete);
            lemma_count_op_push(self.history@, RemoteCall::Complete, RemoteCall::Abort);
        }
        self.history = Ghost(self.history@.push(RemoteCall::Complete));
        CompleteRequest {
            bucket: clone_opt_string(&self.bucket),
            key: clone_opt_string(&self.key),
            upload_id: clone_opt_string(&self.upload_id),
            parts,
        }
    }

    /// The completion call succeeded: the upload is done; no abort happens.
    pub fn on_complete_ok(&mut self)
        requires
            old(self).wf(),
            old(self).state_spec() is Completing,
        ensures
            final(self).wf(),
            final(self).state_spec() is Done,
            final(self).error_spec() is None,
            final(self).history_spec() == old(self).history_spec(),
    {
        self.state = UploadState::Done;
    }

    /// The completion call failed: the parts already exist remotely, so an
    /// abort is owed; the completion error is the one reported.
    pub fn on_complete_err(&mut self, e: E)
        requires
            old(self).wf(),
            old(self).state_spec() is Completing,
        ensures
            final(self).wf(),
            final(self).state_spec() is Aborting,
            final(self).error_kind_spec() == Some(ErrorKind::Complete),
            final(self).error_spec() == Some(e),
            final(self).upload_id_spec() == old(self).upload_id_spec(),
            final(self).bucket_spec() == old(self).bucket_spec(),
            final(self).key_spec() == old(self).key_spec(),
            final(self).history_spec() == old(self).history_spec(),
    {
        self.state = UploadState::Aborting;
        self.error_kind = Some(ErrorKind::Complete);
        self.error = Some(e);
    }

    /// Whether a best-effort abort is owed right now.
    pub fn needs_abort(&self) -> (r: bool)
        ensures
            r == (self.state_spec() is Aborting),
    {
        match self.state {
            UploadState::Aborting => true,
            _ => false,
        }
    }

    /// The abort request: the session coordinates of the failed upload.
    pub fn abort_request(&self) -> (r: AbortRequest)
        requires
            self.state_spec() is Aborting,
        ensures
            r.bucket == self.bucket_spec(),
            r.key == self.key_spec(),
            r.upload_id == self.upload_id_spec(),
    {
        AbortRequest {
            bucket: clone_opt_string(&self.bucket),
            key: clone_opt_string(&self.key),
            upload_id: clone_opt_string(&self.upload_id),
        }
    }

    /// The best-effort abort ran. Whatever its outcome, the original error
    /// stands untouched; an abort failure is only noted on the side.
    pub fn on_abort_done(&mut self, ok: bool)
        requires
            old(self).wf(),
            old(self).state_spec() is Aborting,
        ensures
            final(self).wf(),
            final(self).state_spec() is Aborted,
            final(self).error_spec() == old(self).error_spec(),
            final(self).error_kind_spec() == old(self).error_kind_spec(),
            final(self).abort_failed_spec() == !ok,
            final(self).history_spec() == old(self).history_spec().push(RemoteCall::Abort),
    {
        self.state = UploadState::Aborted;
        self.abort_failed = !ok;
        proof {
            lemma_count_op_push(self.history@, RemoteCall::Abort, RemoteCall::Create);
            lemma_count_op_push(self.history@, RemoteCall::Abort, RemoteCall::Complete);
            lemma_count_op_push(self.history@, RemoteCall::Abort, RemoteCall::Abort);
        }
        self.history = Ghost(self.history@.push(RemoteCall::Abort));
    }

    /// The current protocol state.
    pub fn current_state(&self) -> (r: UploadState)
        ensures
            r == self.state_spec(),
    {
        self.state
    }

    /// The step the first observed error came from, if any.
    pub fn current_error_kind(&self) -> (r: Option<ErrorKind>)
        ensures
            r == self.error_kind_spec(),
    {
        self.error_kind
    }

    /// Whether the best-effort abort itself reported failure; the original
    /// error is reported either way.
    pub fn abort_reported_failure(&self) -> (r: bool)
        ensures
            r == self.abort_failed_spec(),
    {
        self.abort_failed
    }

    /// How many part receipts have been collected.
    pub fn parts_collected(&self) -> (r: usize)
        ensures
            r == self.completed_parts_spec().len(),
    {
        self.completed_parts.len()
    }

    /// Surrender the first observed error, if any.
    pub fn into_error(self) -> (r: Option<E>)
        ensures
            r == self.error_spec(),
    {
        self.error
    }
}

/// Clone an optional string, value for value.
fn clone_opt_string(s: &Option<String>) -> (r: Option<String>)
    ensures
        r == *s,
{
    match s {
        Some(x) => Some(x.clone()),
        None => None,
    }
}

/// Sort part receipts ascending by part number: the result is a permutation
/// of the input, in order.
fn sort_completed(v: Vec<CompletedPart>) -> (r: Vec<CompletedPart>)
    ensures
        r@.to_multiset() == v@.to_multiset(),
        r@.len() == v@.len(),
        sorted_by_part_number(r@),
{
    broadcast use vstd::seq_lib::group_to_multiset_ensures;

    let mut src = v;
    let ghost orig = src@;
    let mut out: Vec<CompletedPart> = Vec::new();
    while src.len() > 0
        invariant
            out@.to_multiset().add(src@.to_multiset()) =~= orig.to_multiset(),
            out@.len() + src@.len() == orig.len(),
            sorted_by_part_number(out@),
            forall|i: int, j: int|
                0 <= i < out@.len() && 0 <= j < src@.len() ==> (#[trigger] out@[i]).part_number <= (
                #[trigger] src@[j]).part_number,
        decreases src@.len(),
    {
        let m = find_min_part_number(&src);
        let ghost pre_src = src@;
        let ghost pre_out = out@;
        let x = src.remove(m);
        let ghost gx = x;
        out.push(x);
        proof {
            broadcast use vstd::multiset::group_multiset_axioms;

            pre_src.to_multiset_ensures();
            pre_out.to_multiset_ensures();
            assert(pre_src.remove(m as int).to_multiset() =~= pre_src.to_multiset().remove(gx));
            assert(pre_out.push(gx).to_multiset() =~= pre_out.to_multiset().insert(gx));
            assert(pre_src.contains(gx));
            assert(pre_src.to_multiset().count(gx) >= 1);
            assert(out@.to_multiset().add(src@.to_multiset()) =~= orig.to_multiset());
            assert forall|i: int, j: int|
                0 <= i < out@.len() && 0 <= j < src@.len() implies (#[trigger] out@[i]).part_number
                <= (#[trigger] src@[j]).part_number by {
                if j < m {
                    assert(src@[j] == pre_src[j]);
                } else {
                    assert(src@[j] == pre_src[j + 1]);
                }
            }
        }
    }
    out
}

/// The index of a receipt with the smallest part number.
fn find_min_part_number(v: &Vec<CompletedPart>) -> (m: usize)
    requires
        v@.len() > 0,
    ensures
        m < v@.len(),
        forall|k: int| 0 <= k < v@.len() ==> v@[m as int].part_number <= (#[trigger] v@[k]).part_number,
{
    let mut m: usize = 0;
    let mut j: usize = 1;
    while j < v.len()
        invariant
            m < j <= v@.len(),
            forall|k: int| 0 <= k < j ==> v@[m as int].part_number <= (#[trigger] v@[k]).part_number,
        decreases v@.len() - j,
    {
        if v[j].part_number < v[m].part_number {
            m = j;
        }
        j = j + 1;
    }
    m
}

/// Distinct part numbers survive any reordering: if two sequences hold the
/// same receipts with the same multiplicities and the first never repeats a
/// part number, neither does the second.
pub proof fn lemma_part_numbers_distinct_transfer(a: Seq<CompletedPart>, b: Seq<CompletedPart>)
    requires
        a.to_multiset() == b.to_multiset(),
        part_numbers_distinct(a),
    ensures
        part_numbers_distinct(b),
{
    broadcast use vstd::multiset::group_multiset_axioms;

    assert forall|i: int, j: int|
        0 <= i < j < b.len() implies (#[trigger] b[i]).part_number != (#[trigger] b[
    j]).part_number by {
        a.to_multiset_ensures();
        b.to_multiset_ensures();
        if b[i] == b[j] {
            // The same receipt twice in b means multiplicity at least two,
            // so a holds it twice as well, repeating its part number.
            let x = b[i];
            b.remove(i).to_multiset_ensures();
            assert(b.remove(i).to_multiset() =~= b.to_multiset().remove(x));
            assert(b.remove(i)[j - 1] == x);
            assert(b.remove(i).contains(x));
            assert(b.remove(i).to_multiset().count(x) >= 1);
            assert(b.to_multiset().count(x) >= 2);
            assert(a.to_multiset().count(x) >= 2);
            assert(a.contains(x));
            let k = choose|k: int| 0 <= k < a.len() && a[k] == x;
            a.remove(k).to_multiset_ensures();
            assert(a.remove(k).to_multiset() =~= a.to_multiset().remove(x));
            assert(a.remove(k).to_multiset().count(x) >= 1);
            assert(a.remove(k).contains(x));
            let l = choose|l: int| 0 <= l < a.remove(k).len() && a.remove(k)[l] == x;
            if l < k {
                assert(a[l] == x);
            } else {
                assert(a[l + 1] == x);
            }
        } else {
            // Two different receipts of b sharing a part number both occur
            // in a, where their numbers would collide.
            let x = b[i];
            let y = b[j];
            assert(b.contains(x));
            assert(b.contains(y));
            assert(b.to_multiset().count(x) >= 1);
            assert(b.to_multiset().count(y) >= 1);
            assert(a.to_multiset().count(x) >= 1);
            assert(a.to_multiset().count(y) >= 1);
            assert(a.contains(x));
            assert(a.contains(y));
            let k = choose|k: int| 0 <= k < a.len() && a[k] == x;
            let l = choose|l: int| 0 <= l < a.len() && a[l] == y;
            assert(k != l);
        }
    }
}

/// Part numbers within 1..N survive any reordering with the same
/// multiplicities.
proof fn lemma_part_number_range_transfer(a: Seq<CompletedPart>, b: Seq<CompletedPart>)
    requires
        a.to_multiset() == b.to_multiset(),
        forall|i: int| 0 <= i < a.len() ==> 1 <= (#[trigger] a[i]).part_number <= a.len(),
    ensures
        forall|i: int| 0 <= i < b.len() ==> 1 <= (#[trigger] b[i]).part_number <= b.len(),
{
    broadcast use vstd::multiset::group_multiset_axioms;

    a.to_multiset_ensures();
    b.to_multiset_ensures();
    assert(a.len() == b.len());
    assert forall|i: int| 0 <= i < b.len() implies 1 <= (#[trigger] b[i]).part_number
        <= b.len() by {
        let x = b[i];
        assert(b.contains(x));
        assert(b.to_multiset().count(x) > 0);
        assert(a.to_multiset().count(x) > 0);
        assert(a.contains(x));
        let k = choose|k: int| 0 <= k < a.len() && a[k] == x;
    }
}

/// A sorted, repetition-free sequence of N receipts whose part numbers all
/// lie in 1..N carries them gap-free in order: the i-th receipt is part
/// i+1. This is the shape the completion call receives when the splitter's
/// numbering reached it intact.
pub proof fn lemma_sorted_distinct_range_is_identity(s: Seq<CompletedPart>)
    requires
        sorted_by_part_number(s),
        part_numbers_distinct(s),
        forall|i: int| 0 <= i < s.len() ==> 1 <= (#[trigger] s[i]).part_number <= s.len(),
    ensures
        forall|i: int| 0 <= i < s.len() ==> (#[trigger] s[i]).part_number == i + 1,
{
    assert forall|i: int| 0 <= i < s.len() implies (#[trigger] s[i]).part_number == i + 1 by {
        lemma_sorted_distinct_lower(s, i);
        lemma_sorted_distinct_upper(s, i);
    }
}

proof fn lemma_sorted_distinct_lower(s: Seq<CompletedPart>, i: int)
    requires
        sorted_by_part_number(s),
        part_numbers_distinct(s),
        forall|k: int| 0 <= k < s.len() ==> 1 <= (#[trigger] s[k]).part_number <= s.len(),
        0 <= i < s.len(),
    ensures
        s[i].part_number >= i + 1,
    decreases i,
{
    if i > 0 {
        lemma_sorted_distinct_lower(s, i - 1);
        assert(s[i - 1].part_number <= s[i].part_number);
        assert(s[i - 1].part_number != s[i].part_number);
    }
}

proof fn lemma_sorted_distinct_upper(s: Seq<CompletedPart>, i: int)
    requires
        sorted_by_part_number(s),
        part_numbers_distinct(s),
        forall|k: int| 0 <= k < s.len() ==> 1 <= (#[trigger] s[k]).part_number <= s.len(),
        0 <= i < s.len(),
    ensures
        s[i].part_number <= i + 1,
    decreases s.len() - i,
{
    if i < s.len() - 1 {
        lemma_sorted_distinct_upper(s, i + 1);
        assert(s[i].part_number <= s[i + 1].part_number);
        assert(s[i].part_number != s[i + 1].part_number);
    }
}

/// The remote-call discipline: create is issued at most once and exactly
/// once when anything was issued at all; complete and abort are each issued
/// at most once; a successful upload never aborts; and an abort is only
/// ever issued while an original error is held, which an abort failure
/// never replaces.
pub proof fn lemma_remote_call_discipline<E>(o: Orchestrator<E>)
    requires
        o.wf(),
    ensures
        count_op(o.history_spec(), RemoteCall::Create) <= 1,
        count_op(o.history_spec(), RemoteCall::Complete) <= 1,
        count_op(o.history_spec(), RemoteCall::Abort) <= 1,
        count_op(o.history_spec(), RemoteCall::Complete) + count_op(
            o.history_spec(),
            RemoteCall::Abort,
        ) >= 1 ==> count_op(o.history_spec(), RemoteCall::Create) == 1,
        o.state_spec() is Done ==> count_op(o.history_spec(), RemoteCall::Abort) == 0
            && o.error_spec() is None,
        count_op(o.history_spec(), RemoteCall::Abort) == 1 ==> o.error_spec() is Some,
{
}

} // verus!
