//! Per-chunk routing of a data stream into the primary output and the slack
//! output, and the whole-stream model that the chunk steps add up to.
use vstd::prelude::*;

verus! {

/// Size of one read from an attribute value.
pub const CHUNK_SIZE: usize = 4096;

/// How a `$DATA` stream is copied.
#[derive(Clone, Copy, Debug, PartialEq, Eq, Structural)]
pub enum StreamKind {
    /// The unnamed stream of a resident attribute: copied whole.
    Whole,
    /// A named alternate stream: copied whole, but all-zero chunks are dropped.
    Alternate,
    /// The unnamed stream of a non-resident attribute: bytes past the valid
    /// data length go to the slack output and are zeroed in the primary one.
    Bounded { valid_length: u64 },
}

pub open spec fn all_zero(c: Seq<u8>) -> bool {
    forall|i: int| 0 <= i < c.len() ==> c[i] == 0
}

pub open spec fn zeros(n: nat) -> Seq<u8> {
    Seq::new(n, |_i: int| 0u8)
}

/// How many bytes of a chunk of length `len`, starting at stream offset
/// `before`, lie below the valid data length `v`.
pub open spec fn valid_part(v: int, before: int, len: int) -> int {
    if v <= before {
        0
    } else if v - before >= len {
        len
    } else {
        v - before
    }
}

/// The bytes of chunk `c` (at stream offset `before`) that the primary
/// output receives as data (and that are encrypted when encrypting).
pub open spec fn chunk_data(kind: StreamKind, before: int, c: Seq<u8>) -> Seq<u8> {
    match kind {
        StreamKind::Whole => c,
        StreamKind::Alternate => if all_zero(c) {
            Seq::empty()
        } else {
            c
        },
        StreamKind::Bounded { valid_length } => c.take(valid_part(valid_length as int, before, c.len() as int)),
    }
}

/// How many zero bytes the primary output receives in place of slack.
pub open spec fn chunk_padding(kind: StreamKind, before: int, c: Seq<u8>) -> nat {
    match kind {
        StreamKind::Bounded { valid_length } => (c.len() - valid_part(valid_length as int, before, c.len() as int)) as nat,
        _ => 0,
    }
}

/// The bytes of chunk `c` that go to the slack output.
pub open spec fn chunk_slack(kind: StreamKind, before: int, c: Seq<u8>) -> Seq<u8> {
    match kind {
        StreamKind::Bounded { valid_length } => c.skip(valid_part(valid_length as int, before, c.len() as int)),
        _ => Seq::empty(),
    }
}

/// The bytes of a stream read as a sequence of chunks.
pub open spec fn flatten(chunks: Seq<Seq<u8>>) -> Seq<u8>
    decreases chunks.len(),
{
    if chunks.len() == 0 {
        Seq::empty()
    } else {
        flatten(chunks.drop_last()) + chunks.last()
    }
}

/// The chunks in order, without the all-zero ones.
pub open spec fn nonzero_chunks(chunks: Seq<Seq<u8>>) -> Seq<Seq<u8>>
    decreases chunks.len(),
{
    if chunks.len() == 0 {
        Seq::empty()
    } else if all_zero(chunks.last()) {
        nonzero_chunks(chunks.drop_last())
    } else {
        nonzero_chunks(chunks.drop_last()).push(chunks.last())
    }
}

/// The unencrypted primary output of a stream.
pub open spec fn primary_of(kind: StreamKind, chunks: Seq<Seq<u8>>) -> Seq<u8> {
    let s = flatten(chunks);
    match kind {
        StreamKind::Whole => s,
        StreamKind::Alternate => flatten(nonzero_chunks(chunks)),
        StreamKind::Bounded { valid_length } => if s.len() <= valid_length {
            s
        } else {
            s.take(valid_length as int) + zeros((s.len() - valid_length) as nat)
        },
    }
}

/// The slack output of a stream, if one is produced.
pub open spec fn slack_of(kind: StreamKind, chunks: Seq<Seq<u8>>) -> Option<Seq<u8>> {
    let s = flatten(chunks);
    match kind {
        StreamKind::Bounded { valid_length } => if s.len() > valid_length {
            Some(s.skip(valid_length as int))
        } else {
            None
        },
        _ => None,
    }
}

/// What one chunk contributes to the outputs.
pub struct ChunkOutput {
    /// Data for the primary output (encrypted there when encrypting).
    pub data: Vec<u8>,
    /// Zero bytes written to the primary output after `data`, never encrypted.
    pub padding: usize,
    /// Bytes for the slack output, never encrypted.
    pub slack: Vec<u8>,
}

/// Routes the chunks of one stream, in reading order.
pub struct StreamSplitter {
    pub kind: StreamKind,
    /// Bytes of the stream read so far.
    pub consumed: u64,
}

/// `src[from..to]` as a new vector.
pub fn copy_range(src: &[u8], from: usize, to: usize) -> (r: Vec<u8>)
    requires
        from <= to <= src@.len(),
    ensures
        r@ == src@.subrange(from as int, to as int),
{
    let mut r: Vec<u8> = Vec::new();
    let mut i: usize = from;
    while i < to
        invariant
            from <= i <= to <= src@.len(),
            r@ == src@.subrange(from as int, i as int),
        decreases to - i,
    {
        r.push(src[i]);
        assert(r@ =~= src@.subrange(from as int, i + 1));
        i = i + 1;
    }
    r
}

/// Whether every byte of `c` is zero.
pub fn is_all_zero(c: &[u8]) -> (r: bool)
    ensures
        r == all_zero(c@),
{
    let mut i: usize = 0;
    while i < c.len()
        invariant
            i <= c@.len(),
            forall|j: int| 0 <= j < i ==> c@[j] == 0,
        decreases c@.len() - i,
    {
        if c[i] != 0 {
            return false;
        }
        i = i + 1;
    }
    true
}

impl StreamSplitter {
    pub fn new(kind: StreamKind) -> (r: StreamSplitter)
        ensures
            r.kind == kind,
            r.consumed == 0,
    {
        StreamSplitter { kind, consumed: 0 }
    }

    /// Routes the next chunk of the stream.
    pub fn split_chunk(&mut self, chunk: &[u8]) -> (r: ChunkOutput)
        requires
            old(self).consumed + chunk@.len() <= u64::MAX,
        ensures
            final(self).kind == old(self).kind,
            final(self).consumed == old(self).consumed + chunk@.len(),
            r.data@ == chunk_data(old(self).kind, old(self).consumed as int, chunk@),
            r.padding == chunk_padding(old(self).kind, old(self).consumed as int, chunk@),
            r.slack@ == chunk_slack(old(self).kind, old(self).consumed as int, chunk@),
    {
        let len = chunk.len();
        let before = self.consumed;
        self.consumed = before + len as u64;
        match self.kind {
            StreamKind::Whole => {
                ChunkOutput { data: copy_range(chunk, 0, len), padding: 0, slack: Vec::new() }
            },
            StreamKind::Alternate => {
                if is_all_zero(chunk) {
                    ChunkOutput { data: Vec::new(), padding: 0, slack: Vec::new() }
                } else {
                    ChunkOutput { data: copy_range(chunk, 0, len), padding: 0, slack: Vec::new() }
                }
            },
            StreamKind::Bounded { valid_length } => {
                let split: usize = if valid_length <= before {
                    0
                } else if valid_length - before >= len as u64 {
                    len
                } else {
                    (valid_length - before) as usize
                };
                proof {
                    assert(chunk@.subrange(0, split as int) =~= chunk@.take(split as int));
                    assert(chunk@.subrange(split as int, len as int) =~= chunk@.skip(split as int));
                }
                ChunkOutput {
                    data: copy_range(chunk, 0, split),
                    padding: len - split,
                    slack: copy_range(chunk, split, len),
                }
            },
        }
    }
}

pub proof fn lemma_flatten_push(cs: Seq<Seq<u8>>, c: Seq<u8>)
    ensures
        flatten(cs.push(c)) == flatten(cs) + c,
{
    assert(cs.push(c).drop_last() =~= cs);
}

/// The slack bytes of a stream, empty when no slack output is produced.
pub open spec fn slack_bytes(kind: StreamKind, chunks: Seq<Seq<u8>>) -> Seq<u8> {
    match slack_of(kind, chunks) {
        Some(b) => b,
        None => Seq::empty(),
    }
}

/// Adding one chunk to a stream adds exactly that chunk's routed parts to
/// the outputs.
pub proof fn lemma_outputs_push(kind: StreamKind, cs: Seq<Seq<u8>>, c: Seq<u8>)
    ensures
        primary_of(kind, cs.push(c)) == primary_of(kind, cs) + chunk_data(kind, flatten(cs).len() as int, c)
            + zeros(chunk_padding(kind, flatten(cs).len() as int, c)),
        slack_bytes(kind, cs.push(c)) == slack_bytes(kind, cs) + chunk_slack(kind, flatten(cs).len() as int, c),
        slack_of(kind, cs.push(c)) is Some <==> slack_bytes(kind, cs.push(c)).len() > 0,
{
    lemma_flatten_push(cs, c);
    let s = flatten(cs);
    let before = s.len() as int;
    match kind {
        StreamKind::Whole => {
            assert(zeros(0) =~= Seq::<u8>::empty());
            assert(primary_of(kind, cs.push(c)) =~= primary_of(kind, cs) + c + zeros(0));
            assert(slack_bytes(kind, cs.push(c)) =~= slack_bytes(kind, cs) + Seq::<u8>::empty());
        },
        StreamKind::Alternate => {
            assert(zeros(0) =~= Seq::<u8>::empty());
            assert(cs.push(c).drop_last() =~= cs);
            let nz = nonzero_chunks(cs);
            if all_zero(c) {
                assert(primary_of(kind, cs.push(c)) =~= primary_of(kind, cs) + Seq::<u8>::empty() + zeros(0));
            } else {
                lemma_flatten_push(nz, c);
                assert(primary_of(kind, cs.push(c)) =~= primary_of(kind, cs) + c + zeros(0));
            }
            assert(slack_bytes(kind, cs.push(c)) =~= slack_bytes(kind, cs) + Seq::<u8>::empty());
        },
        StreamKind::Bounded { valid_length } => {
            let v = valid_length as int;
            let t = s + c;
            let k = valid_part(v, before, c.len() as int);
            if before + c.len() <= v {
                assert(zeros(0) =~= Seq::<u8>::empty());
                assert(c.take(k) =~= c);
                assert(primary_of(kind, cs.push(c)) =~= primary_of(kind, cs) + c.take(k) + zeros(0));
                assert(c.skip(k) =~= Seq::<u8>::empty());
                assert(slack_bytes(kind, cs.push(c)) =~= slack_bytes(kind, cs) + c.skip(k));
            } else if v <= before {
                assert(t.take(v) =~= s.take(v));
                assert(zeros((t.len() - v) as nat) =~= zeros((s.len() - v) as nat) + zeros(c.len()));
                assert(c.take(0) =~= Seq::<u8>::empty());
                if s.len() > v {
                    assert(primary_of(kind, cs.push(c)) =~= primary_of(kind, cs) + c.take(k) + zeros(
                        (c.len() - k) as nat,
                    ));
                    assert(t.skip(v) =~= s.skip(v) + c.skip(0));
                } else {
                    assert(s.take(v) =~= s);
                    assert(zeros(0) =~= Seq::<u8>::empty());
                    assert(primary_of(kind, cs.push(c)) =~= primary_of(kind, cs) + c.take(k) + zeros(
                        (c.len() - k) as nat,
                    ));
                    assert(t.skip(v) =~= s.skip(v) + c.skip(0));
                    assert(s.skip(v) =~= Seq::<u8>::empty());
                }
                assert(slack_bytes(kind, cs.push(c)) =~= slack_bytes(kind, cs) + c.skip(k));
            } else {
                assert(t.take(v) =~= s + c.take(k));
                assert(primary_of(kind, cs.push(c)) =~= primary_of(kind, cs) + c.take(k) + zeros(
                    (c.len() - k) as nat,
                ));
                assert(t.skip(v) =~= c.skip(k));
                assert(slack_bytes(kind, cs.push(c)) =~= slack_bytes(kind, cs) + c.skip(k));
            }
        },
    }
}

/// The views of a sequence of chunk vectors.
pub open spec fn chunk_views(chunks: Seq<Vec<u8>>) -> Seq<Seq<u8>> {
    chunks.map_values(|c: Vec<u8>| c@)
}

/// Both outputs of an unencrypted stream.
pub struct StreamOutput {
    pub primary: Vec<u8>,
    /// The slack output, when the stream runs past its valid data length.
    pub slack: Option<Vec<u8>>,
}

/// Appends `n` zero bytes to `v`.
pub fn push_zeros(v: &mut Vec<u8>, n: usize)
    ensures
        final(v)@ == old(v)@ + zeros(n as nat),
{
    let ghost start = v@;
    let mut i: usize = 0;
    while i < n
        invariant
            i <= n,
            v@ == start + zeros(i as nat),
        decreases n - i,
    {
        v.push(0);
        assert(v@ =~= start + zeros((i + 1) as nat));
        i = i + 1;
    }
}

/// Copies a whole stream, given as its chunks in reading order, into its
/// primary and slack outputs.
pub fn split_stream(kind: StreamKind, chunks: &Vec<Vec<u8>>) -> (r: StreamOutput)
    requires
        flatten(chunk_views(chunks@)).len() <= u64::MAX,
    ensures
        r.primary@ == primary_of(kind, chunk_views(chunks@)),
        r.slack is Some <==> slack_of(kind, chunk_views(chunks@)) is Some,
        r.slack matches Some(b) ==> slack_of(kind, chunk_views(chunks@)) == Some(b@),
{
    let ghost cs = chunk_views(chunks@);
    let mut splitter = StreamSplitter::new(kind);
    let mut primary: Vec<u8> = Vec::new();
    let mut slack: Vec<u8> = Vec::new();
    let mut i: usize = 0;
    proof {
        assert(cs.take(0) =~= Seq::<Seq<u8>>::empty());
        assert(zeros(0) =~= Seq::<u8>::empty());
    }
    while i < chunks.len()
        invariant
            i <= chunks@.len(),
            cs == chunk_views(chunks@),
            splitter.kind == kind,
            splitter.consumed == flatten(cs.take(i as int)).len(),
            flatten(cs).len() <= u64::MAX,
            primary@ == primary_of(kind, cs.take(i as int)),
            slack@ == slack_bytes(kind, cs.take(i as int)),
        decreases chunks@.len() - i,
    {
        proof {
            assert(cs.take(i + 1) =~= cs.take(i as int).push(cs[i as int]));
            lemma_outputs_push(kind, cs.take(i as int), cs[i as int]);
            lemma_flatten_push(cs.take(i as int), cs[i as int]);
            lemma_flatten_prefix_len(cs, i + 1);
        }
        let out = splitter.split_chunk(chunks[i].as_slice());
        let mut data = out.data;
        let mut extra = out.slack;
        primary.append(&mut data);
        push_zeros(&mut primary, out.padding);
        slack.append(&mut extra);
        i = i + 1;
    }
    proof {
        assert(cs.take(chunks@.len() as int) =~= cs);
        lemma_outputs_push_some(kind, cs);
    }
    if slack.len() > 0 {
        StreamOutput { primary, slack: Some(slack) }
    } else {
        StreamOutput { primary, slack: None }
    }
}

/// A prefix of the chunks holds no more bytes than all of them.
pub proof fn lemma_flatten_prefix_len(cs: Seq<Seq<u8>>, n: int)
    requires
        0 <= n <= cs.len(),
    ensures
        flatten(cs.take(n)).len() <= flatten(cs).len(),
    decreases cs.len() - n,
{
    if n < cs.len() {
        assert(cs.take(n + 1) =~= cs.take(n).push(cs[n]));
        lemma_flatten_push(cs.take(n), cs[n]);
        lemma_flatten_prefix_len(cs, n + 1);
    } else {
        assert(cs.take(n) =~= cs);
    }
}

/// A slack output is produced exactly when it would be non-empty.
pub proof fn lemma_outputs_push_some(kind: StreamKind, cs: Seq<Seq<u8>>)
    ensures
        slack_of(kind, cs) is Some <==> slack_bytes(kind, cs).len() > 0,
{
}

pub proof fn lemma_flatten_concat(a: Seq<Seq<u8>>, b: Seq<Seq<u8>>)
    ensures
        flatten(a + b) == flatten(a) + flatten(b),
    decreases b.len(),
{
    if b.len() == 0 {
        assert(a + b =~= a);
        assert(flatten(a) + flatten(b) =~= flatten(a));
    } else {
        assert((a + b).drop_last() =~= a + b.drop_last());
        lemma_flatten_concat(a, b.drop_last());
        assert(flatten(a + b) =~= flatten(a) + flatten(b));
    }
}

pub proof fn lemma_flatten_uniform_len(cs: Seq<Seq<u8>>, n: nat)
    requires
        forall|i: int| 0 <= i < cs.len() ==> #[trigger] cs[i].len() == n,
    ensures
        flatten(cs).len() == cs.len() * n,
    decreases cs.len(),
{
    if cs.len() > 0 {
        lemma_flatten_uniform_len(cs.drop_last(), n);
        assert((cs.len() - 1) * n + n == cs.len() * n) by (nonlinear_arith);
    }
}

/// Length preservation: with a valid data length `v`, the primary output is
/// exactly as long as the stream; a slack output exists exactly when the
/// stream is longer than `v`, and then holds its last `len - v` bytes.
pub proof fn lemma_length_preserved(v: u64, cs: Seq<Seq<u8>>)
    ensures
        primary_of(StreamKind::Bounded { valid_length: v }, cs).len() == flatten(cs).len(),
        v < flatten(cs).len() ==> slack_of(StreamKind::Bounded { valid_length: v }, cs) == Some(
            flatten(cs).skip(v as int),
        ),
        v < flatten(cs).len() ==> flatten(cs).skip(v as int).len() == flatten(cs).len() - v,
        v >= flatten(cs).len() ==> slack_of(StreamKind::Bounded { valid_length: v }, cs) is None,
{
}

/// Boundary exactness: for a stream of full chunks whose valid data length
/// ends `r` bytes into chunk `k`, the primary output's chunk `k` is the first
/// `r` bytes of that chunk followed by zeros, and the slack output is the rest
/// of chunk `k` followed by every later chunk verbatim.
pub proof fn lemma_boundary_exact(cs: Seq<Seq<u8>>, k: int, r: int)
    requires
        forall|i: int| 0 <= i < cs.len() ==> #[trigger] cs[i].len() == CHUNK_SIZE,
        0 <= k < cs.len(),
        0 < r < CHUNK_SIZE,
        k * CHUNK_SIZE + r <= u64::MAX,
    ensures
        ({
            let kind = StreamKind::Bounded { valid_length: (k * CHUNK_SIZE + r) as u64 };
            &&& primary_of(kind, cs).subrange(k * CHUNK_SIZE, (k + 1) * CHUNK_SIZE) == cs[k].take(r) + zeros(
                (CHUNK_SIZE - r) as nat,
            )
            &&& slack_of(kind, cs) == Some(cs[k].skip(r) + flatten(cs.skip(k + 1)))
        }),
{
    let n = CHUNK_SIZE as int;
    let v = k * n + r;
    let kind = StreamKind::Bounded { valid_length: v as u64 };
    let a = cs.take(k);
    let b = cs.skip(k + 1);
    let c = cs[k];
    assert(cs =~= a + seq![c] + b);
    lemma_flatten_concat(a + seq![c], b);
    lemma_flatten_concat(a, seq![c]);
    assert(seq![c] =~= Seq::<Seq<u8>>::empty().push(c));
    lemma_flatten_push(Seq::<Seq<u8>>::empty(), c);
    assert(flatten(seq![c]) =~= c);
    lemma_flatten_uniform_len(a, CHUNK_SIZE as nat);
    lemma_flatten_uniform_len(cs, CHUNK_SIZE as nat);
    assert(k * n + n == (k + 1) * n) by (nonlinear_arith);
    assert((k + 1) * n <= cs.len() * n) by (nonlinear_arith)
        requires
            k + 1 <= cs.len(),
            n > 0,
    ;
    let s = flatten(cs);
    assert(s == flatten(a) + c + flatten(b));
    assert(flatten(a).len() == k * n);
    let p = primary_of(kind, cs);
    assert(p == s.take(v) + zeros((s.len() - v) as nat));
    assert(p.subrange(k * n, (k + 1) * n) =~= c.take(r) + zeros((n - r) as nat));
    assert(s.skip(v) =~= c.skip(r) + flatten(b));
}

/// An alternate stream never produces a slack output, whatever its chunks.
pub proof fn lemma_alternate_has_no_slack(cs: Seq<Seq<u8>>)
    ensures
        slack_of(StreamKind::Alternate, cs) is None,
{
}

/// Sparse suppression: an alternate stream made of one all-zero chunk and then
/// one chunk that is not all zero copies only the second chunk.
pub proof fn lemma_sparse_suppressed(z: Seq<u8>, c: Seq<u8>)
    requires
        z.len() == CHUNK_SIZE,
        all_zero(z),
        !all_zero(c),
    ensures
        primary_of(StreamKind::Alternate, seq![z, c]) == c,
{
    let cs = seq![z, c];
    assert(cs.drop_last() =~= seq![z]);
    assert(seq![z].drop_last() =~= Seq::<Seq<u8>>::empty());
    assert(seq![z].last() == z);
    assert(cs.last() == c);
    assert(nonzero_chunks(Seq::<Seq<u8>>::empty()) == Seq::<Seq<u8>>::empty());
    assert(nonzero_chunks(seq![z]) =~= Seq::<Seq<u8>>::empty());
    assert(nonzero_chunks(cs) =~= Seq::<Seq<u8>>::empty().push(c));
    lemma_flatten_push(Seq::<Seq<u8>>::empty(), c);
    assert(flatten(Seq::<Seq<u8>>::empty().push(c)) =~= c);
}

} // verus!
