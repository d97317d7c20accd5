//! The streaming splitter.
//!
//! The splitter consumes the source's chunks in order and emits size-bounded,
//! checksummed [`Part`]s. Chunks go in through [`Splitter::push`]; whenever at
//! least `min_size` bytes are buffered, [`Splitter::pop`] slices off a part of
//! `min(buffered, max_size)` bytes, and at end of input [`Splitter::finish`]
//! emits whatever non-empty remainder is left (always shorter than
//! `min_size`). A part's body is a list of O(1) sub-slices of the source
//! chunks — nothing is recopied — and its digest is folded incrementally over
//! exactly its own bytes. Concatenating the emitted bodies in order
//! reproduces the input byte-for-byte, and part numbers run 1..N with no gap
//! or repeat; [`split`] states both over a whole chunk sequence.

use vstd::prelude::*;

use crate::chunk::bytes_seq;
use crate::chunk::chunk_clone;
use crate::chunk::chunk_empty;
use crate::chunk::chunk_len;
use crate::chunk::chunk_split_to;
use crate::chunk::chunks_bytes;
use crate::chunk::lemma_chunks_bytes_push;
use crate::chunk::lemma_chunks_bytes_take_skip;
use crate::digest::md5_fed;
use crate::digest::md5_finalize_reset;
use crate::digest::md5_new;
use crate::digest::md5_of;
use crate::digest::md5_update;

verus! {

/// One size-bounded, checksummed slice of the object's byte stream.
///
/// `body` holds O(1) sub-slices of the source chunks, in order;
/// `content_length` is the number of bytes they hold together; `content_md5`
/// is the digest over exactly those bytes; `part_number` counts emitted
/// parts from 1 in emission order.
pub struct Part {
    pub body: Vec<bytes::Bytes>,
    pub content_length: usize,
    pub content_md5: [u8; 16],
    pub part_number: usize,
}

impl Part {
    /// The bytes of this part's body, concatenated in order.
    pub open spec fn body_bytes(self) -> Seq<u8> {
        chunks_bytes(self.body@)
    }

    /// The recorded length matches the body, the digest is over exactly the
    /// body's bytes, and no body chunk is empty.
    pub open spec fn wf(self) -> bool {
        &&& self.content_length == self.body_bytes().len()
        &&& self.content_md5@ == md5_of(self.body_bytes())
        &&& forall|i: int|
            0 <= i < self.body@.len() ==> bytes_seq(#[trigger] self.body@[i]).len() > 0
    }
}

/// The bytes of a sequence of parts, concatenated in emission order.
pub open spec fn parts_bytes(s: Seq<Part>) -> Seq<u8>
    decreases s.len(),
{
    if s.len() == 0 {
        Seq::<u8>::empty()
    } else {
        s[0].body_bytes() + parts_bytes(s.skip(1))
    }
}

/// Concatenation distributes over appending one part at the end.
pub proof fn lemma_parts_bytes_push(s: Seq<Part>, p: Part)
    ensures
        parts_bytes(s.push(p)) == parts_bytes(s) + p.body_bytes(),
    decreases s.len(),
{
    reveal_with_fuel(parts_bytes, 3);
    if s.len() == 0 {
        assert(s.push(p)[0] == p);
        assert(s.push(p).skip(1) =~= Seq::<Part>::empty());
        assert(parts_bytes(s.push(p)) =~= parts_bytes(s) + p.body_bytes());
    } else {
        assert(s.push(p).skip(1) =~= s.skip(1).push(p));
        lemma_parts_bytes_push(s.skip(1), p);
        assert(parts_bytes(s.push(p)) =~= parts_bytes(s) + p.body_bytes());
    }
}

/// A sequence of parts that together hold no bytes, while every part holds
/// at least one, is empty: a zero-byte source yields zero parts.
pub proof fn lemma_no_bytes_no_parts(s: Seq<Part>)
    requires
        forall|i: int| 0 <= i < s.len() ==> (#[trigger] s[i]).body_bytes().len() > 0,
        parts_bytes(s).len() == 0,
    ensures
        s.len() == 0,
{
    if s.len() > 0 {
        assert(s[0].body_bytes().len() > 0);
        assert(parts_bytes(s).len() >= s[0].body_bytes().len());
    }
}

/// The length of each chunk, in order.
pub open spec fn chunk_len_seq(s: Seq<bytes::Bytes>) -> Seq<int> {
    s.map_values(|b: bytes::Bytes| bytes_seq(b).len() as int)
}

/// The length of each part, in order.
pub open spec fn part_len_seq(s: Seq<Part>) -> Seq<int> {
    s.map_values(|p: Part| p.content_length as int)
}

/// The lengths of the parts the greedy drain emits from `q` pending bytes:
/// while at least `min_size` are pending, a part of `min(pending,
/// max_size)` bytes leaves.
pub open spec fn drain_lens(q: int, min_size: int, max_size: int) -> Seq<int>
    decreases q,
{
    if 1 <= min_size <= max_size && q >= min_size {
        let e = if q >= max_size {
            max_size
        } else {
            q
        };
        seq![e] + drain_lens(q - e, min_size, max_size)
    } else {
        Seq::<int>::empty()
    }
}

/// What remains pending after the greedy drain; always below `min_size`.
pub open spec fn drain_residue(q: int, min_size: int, max_size: int) -> int
    decreases q,
{
    if 1 <= min_size <= max_size && q >= min_size {
        let e = if q >= max_size {
            max_size
        } else {
            q
        };
        drain_residue(q - e, min_size, max_size)
    } else {
        q
    }
}

/// The part lengths still to be emitted when chunks of lengths `ls` remain
/// to be pushed and `q` bytes are pending, not yet drained: drain, push the
/// next chunk, repeat; at end of input a nonzero remainder leaves as one
/// final short part.
pub open spec fn split_lens_from(ls: Seq<int>, q: int, min_size: int, max_size: int) -> Seq<int>
    decreases ls.len(),
{
    if ls.len() == 0 {
        drain_lens(q, min_size, max_size) + (if drain_residue(q, min_size, max_size) > 0 {
            seq![drain_residue(q, min_size, max_size)]
        } else {
            Seq::<int>::empty()
        })
    } else {
        drain_lens(q, min_size, max_size) + split_lens_from(
            ls.skip(1),
            drain_residue(q, min_size, max_size) + ls[0],
            min_size,
            max_size,
        )
    }
}

/// The exact sequence of part lengths the splitter emits for a source whose
/// chunks have the given lengths: the splitter's behaviour is a function of
/// the chunk boundaries alone.
pub open spec fn split_lens(chunk_lens: Seq<int>, min_size: int, max_size: int) -> Seq<int> {
    split_lens_from(chunk_lens, 0, min_size, max_size)
}

/// Emitting one greedy part commutes with the rest of the computation:
/// with at least `min_size` bytes pending, the next emitted length is
/// `min(q, max_size)` whatever chunks follow.
proof fn lemma_split_lens_from_step(ls: Seq<int>, q: int, min_size: int, max_size: int)
    requires
        1 <= min_size <= max_size,
        q >= min_size,
    ensures
        split_lens_from(ls, q, min_size, max_size) == seq![
            if q >= max_size {
                max_size
            } else {
                q
            },
        ] + split_lens_from(
            ls,
            q - if q >= max_size {
                max_size
            } else {
                q
            },
            min_size,
            max_size,
        ),
{
    let e = if q >= max_size {
        max_size
    } else {
        q
    };
    assert(drain_lens(q, min_size, max_size) == seq![e] + drain_lens(q - e, min_size, max_size));
    assert(drain_residue(q, min_size, max_size) == drain_residue(q - e, min_size, max_size));
    if ls.len() == 0 {
        assert(split_lens_from(ls, q, min_size, max_size) =~= seq![e] + split_lens_from(
            ls,
            q - e,
            min_size,
            max_size,
        ));
    } else {
        assert(split_lens_from(ls, q, min_size, max_size) =~= seq![e] + split_lens_from(
            ls,
            q - e,
            min_size,
            max_size,
        ));
    }
}

/// The incremental splitter state: an accumulation buffer of chunk slices,
/// its running length, the incremental digest over it, the not yet buffered
/// tail of the last pushed chunk, and the count of parts emitted so far.
pub struct Splitter {
    min_size: usize,
    max_size: usize,
    remaining: bytes::Bytes,
    part_body: Vec<bytes::Bytes>,
    part_content_length: usize,
    part_content_md5: md5::Md5,
    part_number: usize,
    emitted: Ghost<Seq<u8>>,
}

impl Splitter {
    /// The configured lower size bound.
    pub closed spec fn min_spec(self) -> int {
        self.min_size as int
    }

    /// The configured upper size bound.
    pub closed spec fn max_spec(self) -> int {
        self.max_size as int
    }

    /// The bytes buffered for the part under construction.
    closed spec fn buf(self) -> Seq<u8> {
        chunks_bytes(self.part_body@)
    }

    /// The bytes consumed but not yet emitted in a part.
    pub closed spec fn pending(self) -> Seq<u8> {
        self.buf() + bytes_seq(self.remaining)
    }

    /// The bytes emitted in completed parts, in order.
    pub closed spec fn emitted_bytes(self) -> Seq<u8> {
        self.emitted@
    }

    /// Every byte pushed so far, in order: emitted first, pending after.
    pub open spec fn consumed(self) -> Seq<u8> {
        self.emitted_bytes() + self.pending()
    }

    /// How many parts have been emitted.
    pub closed spec fn parts_emitted(self) -> int {
        self.part_number as int
    }

    /// A part is owed as soon as the pending bytes reach the minimum size.
    pub open spec fn ready_spec(self) -> bool {
        self.pending().len() >= self.min_spec()
    }

    /// The length of the part [`Splitter::pop`] emits when one is owed.
    pub open spec fn emit_len(self) -> int {
        if self.pending().len() >= self.max_spec() {
            self.max_spec()
        } else {
            self.pending().len() as int
        }
    }

    /// Internal consistency: the bounds are ordered, the running length and
    /// digest track the buffer exactly, the buffer stays below the minimum
    /// between pops, no buffered chunk is empty, the total consumed fits the
    /// machine, and the emitted bytes account for at least `min_size` per
    /// emitted part.
    pub closed spec fn wf(self) -> bool {
        &&& 0 < self.min_size <= self.max_size
        &&& self.part_content_length == self.buf().len()
        &&& self.buf().len() < self.min_size
        &&& md5_fed(self.part_content_md5) == self.buf()
        &&& forall|i: int|
            0 <= i < self.part_body@.len() ==> bytes_seq(#[trigger] self.part_body@[i]).len() > 0
        &&& self.consumed().len() <= usize::MAX
        &&& self.part_number * self.min_size <= self.emitted@.len()
    }

    /// A fresh splitter for the size range `[min_size, max_size]`.
    pub fn new(min_size: usize, max_size: usize) -> (r: Splitter)
        requires
            0 < min_size <= max_size,
        ensures
            r.wf(),
            r.min_spec() == min_size,
            r.max_spec() == max_size,
            r.pending() == Seq::<u8>::empty(),
            r.emitted_bytes() == Seq::<u8>::empty(),
            r.consumed() == Seq::<u8>::empty(),
            r.parts_emitted() == 0,
    {
        let r = Splitter {
            min_size,
            max_size,
            remaining: chunk_empty(),
            part_body: Vec::new(),
            part_content_length: 0,
            part_content_md5: md5_new(),
            part_number: 0,
            emitted: Ghost(Seq::<u8>::empty()),
        };
        proof {
            assert(r.buf() == Seq::<u8>::empty());
            assert(r.pending() =~= Seq::<u8>::empty());
            assert(r.consumed() =~= Seq::<u8>::empty());
        }
        r
    }

    /// Whether a part is owed right now.
    pub fn ready(&self) -> (r: bool)
        requires
            self.wf(),
        ensures
            r == self.ready_spec(),
    {
        let rem_len = chunk_len(&self.remaining);
        self.part_content_length + rem_len >= self.min_size
    }

    /// Fold a chunk slice into the part under construction: length, digest
    /// and body stay in step; an empty slice is dropped.
    fn push_part(&mut self, chunk: bytes::Bytes)
        requires
            old(self).part_content_length == old(self).buf().len(),
            md5_fed(old(self).part_content_md5) == old(self).buf(),
            old(self).buf().len() + bytes_seq(chunk).len() <= usize::MAX,
            forall|i: int|
                0 <= i < old(self).part_body@.len() ==> bytes_seq(
                    #[trigger] old(self).part_body@[i],
                ).len() > 0,
        ensures
            final(self).buf() == old(self).buf() + bytes_seq(chunk),
            final(self).part_content_length == final(self).buf().len(),
            md5_fed(final(self).part_content_md5) == final(self).buf(),
            forall|i: int|
                0 <= i < final(self).part_body@.len() ==> bytes_seq(
                    #[trigger] final(self).part_body@[i],
                ).len() > 0,
            final(self).remaining == old(self).remaining,
            final(self).min_size == old(self).min_size,
            final(self).max_size == old(self).max_size,
            final(self).part_number == old(self).part_number,
            final(self).emitted == old(self).emitted,
    {
        let n = chunk_len(&chunk);
        if n != 0 {
            self.part_content_length = self.part_content_length + n;
            md5_update(&mut self.part_content_md5, &chunk);
            let ghost old_body = self.part_body@;
            let ghost c = chunk;
            self.part_body.push(chunk);
            proof {
                lemma_chunks_bytes_push(old_body, c);
            }
        } else {
            proof {
                assert(old(self).buf() + bytes_seq(chunk) =~= old(self).buf());
            }
        }
    }

    /// Accept the next source chunk. The tail of the previously pushed chunk
    /// is folded into the part under construction and the new chunk becomes
    /// the tail; no bytes are emitted or dropped. Chunks are pushed only
    /// between exhaustive pops, so no part is owed on entry.
    pub fn push(&mut self, chunk: bytes::Bytes)
        requires
            old(self).wf(),
            !old(self).ready_spec(),
            old(self).consumed().len() + bytes_seq(chunk).len() <= usize::MAX,
        ensures
            final(self).wf(),
            final(self).min_spec() == old(self).min_spec(),
            final(self).max_spec() == old(self).max_spec(),
            final(self).parts_emitted() == old(self).parts_emitted(),
            final(self).emitted_bytes() == old(self).emitted_bytes(),
            final(self).pending() == old(self).pending() + bytes_seq(chunk),
            final(self).consumed() == old(self).consumed() + bytes_seq(chunk),
    {
        let ghost pre = *self;
        let ghost c = chunk;
        let mut tail = chunk;
        core::mem::swap(&mut self.remaining, &mut tail);
        self.push_part(tail);
        proof {
            assert(self.pending() =~= pre.pending() + bytes_seq(c));
            assert(self.consumed() =~= pre.consumed() + bytes_seq(c));
        }
    }

    /// Emit the owed part, if any. When at least `min_size` bytes are
    /// pending, the first `min(pending, max_size)` of them leave as the next
    /// part — so one large chunk can complete several parts by repeated
    /// pops — and otherwise nothing changes. No byte is emitted twice or out
    /// of order.
    pub fn pop(&mut self) -> (r: Option<Part>)
        requires
            old(self).wf(),
        ensures
            final(self).wf(),
            final(self).min_spec() == old(self).min_spec(),
            final(self).max_spec() == old(self).max_spec(),
            final(self).consumed() == old(self).consumed(),
            !old(self).ready_spec() ==> r is None && *final(self) == *old(self),
            old(self).ready_spec() ==> r is Some,
            old(self).ready_spec() ==> (r matches Some(p)
                && p.wf()
                && p.body_bytes() == old(self).pending().take(old(self).emit_len())
                && old(self).min_spec() <= p.content_length <= old(self).max_spec()
                && p.part_number == old(self).parts_emitted() + 1
                && final(self).parts_emitted() == old(self).parts_emitted() + 1
                && final(self).emitted_bytes() == old(self).emitted_bytes() + p.body_bytes()
                && final(self).pending() == old(self).pending().skip(old(self).emit_len())),
    {
        let ghost pre = *self;
        let rem_len = chunk_len(&self.remaining);
        if self.part_content_length + rem_len >= self.min_size {
            let cap = self.max_size - self.part_content_length;
            let take = if rem_len < cap {
                rem_len
            } else {
                cap
            };
            let chunk = chunk_split_to(&mut self.remaining, take);
            self.push_part(chunk);
            proof {
                // The emitted bytes are the first emit_len() of the pending bytes.
                assert(self.buf() =~= pre.pending().take(pre.emit_len()));
                assert(bytes_seq(self.remaining) =~= pre.pending().skip(pre.emit_len()));
                // One more part of at least min_size is accounted for.
                assert(pre.part_number <= pre.part_number * pre.min_size) by (nonlinear_arith)
                    requires
                        pre.min_size >= 1,
                        pre.part_number >= 0,
                ;
                assert(pre.part_number < usize::MAX);
            }
            self.part_number = self.part_number + 1;
            let mut body: Vec<bytes::Bytes> = Vec::new();
            core::mem::swap(&mut body, &mut self.part_body);
            let content_length = self.part_content_length;
            self.part_content_length = 0;
            let content_md5 = md5_finalize_reset(&mut self.part_content_md5);
            self.emitted = Ghost(self.emitted@ + chunks_bytes(body@));
            let p = Part { body, content_length, content_md5, part_number: self.part_number };
            proof {
                assert(self.buf() == Seq::<u8>::empty());
                assert(self.pending() =~= pre.pending().skip(pre.emit_len()));
                assert(self.consumed() =~= pre.consumed());
                assert((self.part_number) * (self.min_size) == pre.part_number * pre.min_size
                    + pre.min_size) by (nonlinear_arith)
                    requires
                        self.part_number == pre.part_number + 1,
                        self.min_size == pre.min_size,
                ;
            }
            Some(p)
        } else {
            None
        }
    }

    /// End of input: emit the remainder as one final part of whatever
    /// length, or nothing if no bytes are pending. Pops are exhausted first,
    /// so the final part is always shorter than `min_size`.
    pub fn finish(self) -> (r: Option<Part>)
        requires
            self.wf(),
            !self.ready_spec(),
        ensures
            self.pending().len() == 0 ==> r is None,
            self.pending().len() > 0 ==> r is Some,
            self.pending().len() > 0 ==> (r matches Some(p)
                && p.wf()
                && p.body_bytes() == self.pending()
                && 0 < p.content_length < self.min_spec()
                && p.part_number == self.parts_emitted() + 1),
    {
        let ghost pre = self;
        let mut this = self;
        let rem_len = chunk_len(&this.remaining);
        let chunk = chunk_split_to(&mut this.remaining, rem_len);
        this.push_part(chunk);
        proof {
            assert(this.buf() =~= pre.pending());
        }
        if this.part_content_length == 0 {
            None
        } else {
            proof {
                assert(pre.part_number <= pre.part_number * pre.min_size) by (nonlinear_arith)
                    requires
                        pre.min_size >= 1,
                        pre.part_number >= 0,
                ;
                assert(pre.part_number < usize::MAX);
            }
            let content_length = this.part_content_length;
            let content_md5 = md5_finalize_reset(&mut this.part_content_md5);
            Some(
                Part {
                    body: this.part_body,
                    content_length,
                    content_md5,
                    part_number: this.part_number + 1,
                },
            )
        }
    }
}

/// The parts already collected agree with the splitter: as many parts as the
/// splitter has emitted, numbered 1..N in order, each well formed and within
/// the size bounds, and their bodies concatenate to exactly the splitter's
/// emitted bytes.
pub open spec fn collected(sp: Splitter, parts: Seq<Part>) -> bool {
    &&& sp.parts_emitted() == parts.len()
    &&& sp.emitted_bytes() == parts_bytes(parts)
    &&& forall|j: int| 0 <= j < parts.len() ==> (#[trigger] parts[j]).wf()
    &&& forall|j: int| 0 <= j < parts.len() ==> (#[trigger] parts[j]).part_number == j + 1
    &&& forall|j: int|
        0 <= j < parts.len() ==> sp.min_spec() <= (#[trigger] parts[j]).content_length
            <= sp.max_spec()
}

/// Split a whole chunk sequence into parts.
///
/// Concatenating the emitted part bodies in order reproduces the input
/// byte-for-byte; part numbers are exactly 1..N in order; every part is
/// non-empty and at most `max_size` long; every part but the last is at
/// least `min_size` long; each digest is over exactly the part's own bytes;
/// and a zero-byte input yields no parts at all.
pub fn split(chunks: Vec<bytes::Bytes>, min_size: usize, max_size: usize) -> (parts: Vec<Part>)
    requires
        0 < min_size <= max_size,
        chunks_bytes(chunks@).len() <= usize::MAX,
    ensures
        parts_bytes(parts@) == chunks_bytes(chunks@),
        part_len_seq(parts@) == split_lens(chunk_len_seq(chunks@), min_size as int, max_size as int),
        forall|i: int| 0 <= i < parts@.len() ==> (#[trigger] parts@[i]).wf(),
        forall|i: int| 0 <= i < parts@.len() ==> (#[trigger] parts@[i]).part_number == i + 1,
        forall|i: int|
            0 <= i < parts@.len() ==> 0 < (#[trigger] parts@[i]).content_length <= max_size,
        forall|i: int|
            0 <= i < parts@.len() - 1 ==> min_size <= (#[trigger] parts@[i]).content_length,
        chunks_bytes(chunks@).len() == 0 ==> parts@.len() == 0,
{
    let ghost clens = chunk_len_seq(chunks@);
    let ghost total = split_lens(clens, min_size as int, max_size as int);
    let mut sp = Splitter::new(min_size, max_size);
    let mut parts: Vec<Part> = Vec::new();
    let mut i: usize = 0;
    proof {
        assert(clens.skip(0) =~= clens);
        assert(part_len_seq(parts@) =~= Seq::<int>::empty());
        assert(part_len_seq(parts@) + split_lens_from(
            clens.skip(0),
            sp.pending().len() as int,
            min_size as int,
            max_size as int,
        ) =~= total);
    }
    while i < chunks.len()
        invariant
            0 < min_size <= max_size,
            chunks_bytes(chunks@).len() <= usize::MAX,
            0 <= i <= chunks@.len(),
            sp.wf(),
            collected(sp, parts@),
            sp.min_spec() == min_size,
            sp.max_spec() == max_size,
            sp.consumed() == chunks_bytes(chunks@.take(i as int)),
            clens == chunk_len_seq(chunks@),
            total == split_lens(clens, min_size as int, max_size as int),
            part_len_seq(parts@) + split_lens_from(
                clens.skip(i as int),
                sp.pending().len() as int,
                min_size as int,
                max_size as int,
            ) == total,
        decreases chunks@.len() - i,
    {
        loop
            invariant
                0 < min_size <= max_size,
                sp.wf(),
                collected(sp, parts@),
                sp.min_spec() == min_size,
                sp.max_spec() == max_size,
                sp.consumed() == chunks_bytes(chunks@.take(i as int)),
                part_len_seq(parts@) + split_lens_from(
                    clens.skip(i as int),
                    sp.pending().len() as int,
                    min_size as int,
                    max_size as int,
                ) == total,
            ensures
                sp.wf(),
                collected(sp, parts@),
                sp.min_spec() == min_size,
                sp.max_spec() == max_size,
                sp.consumed() == chunks_bytes(chunks@.take(i as int)),
                part_len_seq(parts@) + split_lens_from(
                    clens.skip(i as int),
                    sp.pending().len() as int,
                    min_size as int,
                    max_size as int,
                ) == total,
                !sp.ready_spec(),
            decreases sp.pending().len(),
        {
            let ghost pre_sp = sp;
            let ghost pre_parts = parts@;
            match sp.pop() {
                Some(p) => {
                    proof {
                        lemma_parts_bytes_push(pre_parts, p);
                    }
                    parts.push(p);
                    proof {
                        lemma_split_lens_from_step(
                            clens.skip(i as int),
                            pre_sp.pending().len() as int,
                            min_size as int,
                            max_size as int,
                        );
                        assert(part_len_seq(parts@) =~= part_len_seq(pre_parts).push(
                            p.content_length as int,
                        ));
                        assert(part_len_seq(parts@) + split_lens_from(
                            clens.skip(i as int),
                            sp.pending().len() as int,
                            min_size as int,
                            max_size as int,
                        ) =~= part_len_seq(pre_parts) + split_lens_from(
                            clens.skip(i as int),
                            pre_sp.pending().len() as int,
                            min_size as int,
                            max_size as int,
                        ));
                    }
                },
                None => {
                    break ;
                },
            }
        }
        proof {
            assert(chunks@.take(i + 1) =~= chunks@.take(i as int).push(chunks@[i as int]));
            lemma_chunks_bytes_push(chunks@.take(i as int), chunks@[i as int]);
            lemma_chunks_bytes_take_skip(chunks@, i + 1);
            let q = sp.pending().len() as int;
            let ls = clens.skip(i as int);
            assert(ls[0] == clens[i as int]);
            assert(clens[i as int] == bytes_seq(chunks@[i as int]).len() as int);
            assert(drain_lens(q, min_size as int, max_size as int) =~= Seq::<int>::empty());
            assert(drain_residue(q, min_size as int, max_size as int) == q);
            assert(ls.skip(1) =~= clens.skip(i + 1));
            assert(split_lens_from(ls, q, min_size as int, max_size as int) =~= split_lens_from(
                clens.skip(i + 1),
                q + clens[i as int],
                min_size as int,
                max_size as int,
            ));
        }
        let c = chunk_clone(&chunks[i]);
        sp.push(c);
        i = i + 1;
    }
    proof {
        assert(chunks@.take(chunks@.len() as int) =~= chunks@);
        assert(clens.skip(i as int) =~= Seq::<int>::empty());
        assert(split_lens_from(
            clens.skip(i as int),
            sp.pending().len() as int,
            min_size as int,
            max_size as int,
        ) == split_lens_from(
            Seq::<int>::empty(),
            sp.pending().len() as int,
            min_size as int,
            max_size as int,
        ));
    }
    loop
        invariant
            0 < min_size <= max_size,
            sp.wf(),
            collected(sp, parts@),
            sp.min_spec() == min_size,
            sp.max_spec() == max_size,
            sp.consumed() == chunks_bytes(chunks@),
            part_len_seq(parts@) + split_lens_from(
                Seq::<int>::empty(),
                sp.pending().len() as int,
                min_size as int,
                max_size as int,
            ) == total,
        ensures
            sp.wf(),
            collected(sp, parts@),
            sp.min_spec() == min_size,
            sp.max_spec() == max_size,
            sp.consumed() == chunks_bytes(chunks@),
            part_len_seq(parts@) + split_lens_from(
                Seq::<int>::empty(),
                sp.pending().len() as int,
                min_size as int,
                max_size as int,
            ) == total,
            !sp.ready_spec(),
        decreases sp.pending().len(),
    {
        let ghost pre_sp = sp;
        let ghost pre_parts = parts@;
        match sp.pop() {
            Some(p) => {
                proof {
                    lemma_parts_bytes_push(pre_parts, p);
                }
                parts.push(p);
                proof {
                    lemma_split_lens_from_step(
                        Seq::<int>::empty(),
                        pre_sp.pending().len() as int,
                        min_size as int,
                        max_size as int,
                    );
                    assert(part_len_seq(parts@) =~= part_len_seq(pre_parts).push(
                        p.content_length as int,
                    ));
                    assert(part_len_seq(parts@) + split_lens_from(
                        Seq::<int>::empty(),
                        sp.pending().len() as int,
                        min_size as int,
                        max_size as int,
                    ) =~= part_len_seq(pre_parts) + split_lens_from(
                        Seq::<int>::empty(),
                        pre_sp.pending().len() as int,
                        min_size as int,
                        max_size as int,
                    ));
                }
            },
            None => {
                break ;
            },
        }
    }
    let ghost pre_sp = sp;
    let ghost pre_parts = parts@;
    let ghost q = pre_sp.pending().len() as int;
    proof {
        assert(drain_lens(q, min_size as int, max_size as int) =~= Seq::<int>::empty());
        assert(drain_residue(q, min_size as int, max_size as int) == q);
    }
    match sp.finish() {
        Some(p) => {
            proof {
                lemma_parts_bytes_push(pre_parts, p);
            }
            parts.push(p);
            proof {
                assert(parts_bytes(parts@) =~= chunks_bytes(chunks@));
                assert(split_lens_from(Seq::<int>::empty(), q, min_size as int, max_size as int)
                    =~= seq![q]);
                assert(part_len_seq(parts@) =~= part_len_seq(pre_parts).push(
                    p.content_length as int,
                ));
                assert(part_len_seq(parts@) =~= total);
            }
        },
        None => {
            proof {
                assert(pre_sp.pending().len() == 0);
                assert(parts_bytes(parts@) =~= chunks_bytes(chunks@));
                assert(split_lens_from(Seq::<int>::empty(), q, min_size as int, max_size as int)
                    =~= Seq::<int>::empty());
                assert(part_len_seq(parts@) =~= total);
            }
        },
    }
    proof {
        if chunks_bytes(chunks@).len() == 0 {
            lemma_no_bytes_no_parts(parts@);
        }
    }
    parts
}

} // verus!
