//! Encrypted stream outputs: the nonce header followed by each chunk's data
//! piece sealed on its own, zero padding in place of slack, and the reverse
//! reading of such an output.
use crate::cipher::{
    aes256gcm_open, aes256gcm_seal, aes_open, sealed_piece, CipherState, KEY_LEN, MAX_PLAINTEXT, NONCE_LEN,
    TAG_LEN,
};
use crate::stream::{
    chunk_data, chunk_padding, chunk_views, flatten, lemma_flatten_prefix_len, lemma_flatten_push,
    lemma_outputs_push, push_zeros, slack_bytes, slack_of, zeros, StreamKind, StreamOutput,
    StreamSplitter, copy_range, all_zero, CHUNK_SIZE,
};
use vstd::prelude::*;

verus! {

/// Length of one sealed full chunk.
pub const SEALED_CHUNK: usize = 4112;

/// The primary output of an encrypted stream after its nonce header.
pub open spec fn encrypted_body(key: Seq<u8>, nonce: Seq<u8>, kind: StreamKind, cs: Seq<Seq<u8>>) -> Seq<u8>
    decreases cs.len(),
{
    if cs.len() == 0 {
        Seq::empty()
    } else {
        let prev = cs.drop_last();
        let before = flatten(prev).len() as int;
        encrypted_body(key, nonce, kind, prev) + sealed_piece(key, nonce, chunk_data(kind, before, cs.last()))
            + zeros(chunk_padding(kind, before, cs.last()))
    }
}

/// Encrypts a whole stream, given as its chunks in reading order: the
/// primary output is the nonce and then each chunk's sealed data and zero
/// padding; slack is routed as without encryption and is never encrypted.
/// Fails only where the cipher refuses a piece.
pub fn encrypt_stream(cipher: &CipherState, kind: StreamKind, chunks: &Vec<Vec<u8>>) -> (r: Option<StreamOutput>)
    requires
        cipher.wf(),
        flatten(chunk_views(chunks@)).len() <= u64::MAX,
    ensures
        (forall|i: int| 0 <= i < chunks@.len() ==> chunks@[i]@.len() <= MAX_PLAINTEXT) ==> r is Some,
        r matches Some(o) ==> {
            &&& o.primary@ == cipher.nonce@ + encrypted_body(cipher.key@, cipher.nonce@, kind, chunk_views(chunks@))
            &&& (o.slack is Some <==> slack_of(kind, chunk_views(chunks@)) is Some)
            &&& (o.slack matches Some(b) ==> slack_of(kind, chunk_views(chunks@)) == Some(b@))
        },
{
    let ghost cs = chunk_views(chunks@);
    let mut splitter = StreamSplitter::new(kind);
    let mut primary: Vec<u8> = cipher.header();
    let mut slack: Vec<u8> = Vec::new();
    let mut i: usize = 0;
    proof {
        assert(cs.take(0) =~= Seq::<Seq<u8>>::empty());
        assert(primary@ =~= cipher.nonce@ + encrypted_body(cipher.key@, cipher.nonce@, kind, cs.take(0)));
    }
    while i < chunks.len()
        invariant
            i <= chunks@.len(),
            cipher.wf(),
            cs == chunk_views(chunks@),
            splitter.kind == kind,
            splitter.consumed == flatten(cs.take(i as int)).len(),
            flatten(cs).len() <= u64::MAX,
            primary@ == cipher.nonce@ + encrypted_body(cipher.key@, cipher.nonce@, kind, cs.take(i as int)),
            slack@ == slack_bytes(kind, cs.take(i as int)),
        decreases chunks@.len() - i,
    {
        proof {
            assert(cs.take(i + 1) =~= cs.take(i as int).push(cs[i as int]));
            assert(cs.take(i + 1).drop_last() =~= cs.take(i as int));
            lemma_outputs_push(kind, cs.take(i as int), cs[i as int]);
            lemma_flatten_push(cs.take(i as int), cs[i as int]);
            lemma_flatten_prefix_len(cs, i + 1);
        }
        let out = splitter.split_chunk(chunks[i].as_slice());
        let sealed = cipher.seal_piece(out.data.as_slice());
        match sealed {
            Some(c) => {
                let mut c = c;
                primary.append(&mut c);
            },
            None => {
                return None;
            },
        }
        push_zeros(&mut primary, out.padding);
        let mut extra = out.slack;
        slack.append(&mut extra);
        proof {
            assert(primary@ =~= cipher.nonce@ + encrypted_body(cipher.key@, cipher.nonce@, kind, cs.take(i + 1)));
        }
        i = i + 1;
    }
    proof {
        assert(cs.take(chunks@.len() as int) =~= cs);
    }
    if slack.len() > 0 {
        Some(StreamOutput { primary, slack: Some(slack) })
    } else {
        Some(StreamOutput { primary, slack: None })
    }
}

/// Opens the sealed units of `body` in turn: units of `SEALED_CHUNK` bytes,
/// the last one possibly shorter; nothing when a unit fails to open.
pub open spec fn open_units(key: Seq<u8>, nonce: Seq<u8>, body: Seq<u8>) -> Option<Seq<u8>>
    decreases body.len(),
{
    if body.len() == 0 {
        Some(Seq::empty())
    } else {
        let n = if body.len() < SEALED_CHUNK { body.len() as int } else { SEALED_CHUNK as int };
        match aes256gcm_open(key, nonce, body.take(n)) {
            Some(p) => match open_units(key, nonce, body.skip(n)) {
                Some(q) => Some(p + q),
                None => None,
            },
            None => None,
        }
    }
}

/// The plaintext of an encrypted output: its nonce header, then its sealed units.
pub open spec fn decrypted_of(key: Seq<u8>, encrypted: Seq<u8>) -> Option<Seq<u8>> {
    if encrypted.len() < NONCE_LEN {
        None
    } else {
        open_units(key, encrypted.take(NONCE_LEN as int), encrypted.skip(NONCE_LEN as int))
    }
}

/// Decrypts an encrypted output that holds no padding: reads the nonce
/// header, then opens successive sealed units with the same key and nonce.
pub fn decrypt_stream(key: &[u8], encrypted: &[u8]) -> (r: Option<Vec<u8>>)
    requires
        key@.len() == KEY_LEN,
    ensures
        r is Some <==> decrypted_of(key@, encrypted@) is Some,
        r matches Some(p) ==> decrypted_of(key@, encrypted@) == Some(p@),
{
    let len = encrypted.len();
    if len < NONCE_LEN {
        return None;
    }
    let nonce = copy_range(encrypted, 0, NONCE_LEN);
    let ghost body = encrypted@.skip(NONCE_LEN as int);
    proof {
        assert(nonce@ =~= encrypted@.take(NONCE_LEN as int));
    }
    let mut plain: Vec<u8> = Vec::new();
    let mut pos: usize = NONCE_LEN;
    proof {
        assert(body.skip(0) =~= body);
        assert(plain@ + Seq::<u8>::empty() =~= Seq::<u8>::empty());
    }
    while pos < len
        invariant
            NONCE_LEN <= pos <= len,
            len == encrypted@.len(),
            key@.len() == KEY_LEN,
            nonce@.len() == NONCE_LEN,
            nonce@ == encrypted@.take(NONCE_LEN as int),
            body == encrypted@.skip(NONCE_LEN as int),
            open_units(key@, nonce@, body) == match open_units(key@, nonce@, body.skip(pos - NONCE_LEN)) {
                Some(q) => Some(plain@ + q),
                None => None::<Seq<u8>>,
            },
        decreases len - pos,
    {
        let rest = len - pos;
        let n: usize = if rest < SEALED_CHUNK { rest } else { SEALED_CHUNK };
        let unit = copy_range(encrypted, pos, pos + n);
        let ghost tail = body.skip(pos - NONCE_LEN);
        proof {
            assert(unit@ =~= tail.take(n as int));
            assert(tail.skip(n as int) =~= body.skip(pos + n - NONCE_LEN));
        }
        match aes_open(key, nonce.as_slice(), unit.as_slice()) {
            Some(p) => {
                let mut p = p;
                proof {
                    assert(plain@ + p@ + Seq::<u8>::empty() =~= plain@ + p@);
                    assert forall|q: Seq<u8>| plain@ + (p@ + q) =~= (plain@ + p@) + q by {}
                }
                plain.append(&mut p);
            },
            None => {
                return None;
            },
        }
        pos = pos + n;
    }
    proof {
        assert(body.skip(len - NONCE_LEN) =~= Seq::<u8>::empty());
        assert(plain@ + Seq::<u8>::empty() =~= plain@);
    }
    Some(plain)
}

/// Sparse suppression under encryption: an alternate stream of one all-zero
/// chunk and then one chunk that is not all zero encrypts to the nonce and
/// the second chunk sealed, nothing else.
pub proof fn lemma_sparse_suppressed_encrypted(key: Seq<u8>, nonce: Seq<u8>, z: Seq<u8>, c: Seq<u8>)
    requires
        z.len() == CHUNK_SIZE,
        all_zero(z),
        !all_zero(c),
    ensures
        encrypted_body(key, nonce, StreamKind::Alternate, seq![z, c]) == aes256gcm_seal(key, nonce, c),
{
    let cs = seq![z, c];
    assert(cs.drop_last() =~= seq![z]);
    assert(seq![z].drop_last() =~= Seq::<Seq<u8>>::empty());
    assert(seq![z].last() == z);
    assert(cs.last() == c);
    assert(zeros(0) =~= Seq::<u8>::empty());
    assert(encrypted_body(key, nonce, StreamKind::Alternate, Seq::<Seq<u8>>::empty()) == Seq::<u8>::empty());
    assert(encrypted_body(key, nonce, StreamKind::Alternate, seq![z]) =~= Seq::<u8>::empty());
    assert(encrypted_body(key, nonce, StreamKind::Alternate, cs) =~= aes256gcm_seal(key, nonce, c));
}

/// Opening a body whose first part is made of whole sealed units is opening
/// that part and then the rest.
pub proof fn lemma_open_units_concat(key: Seq<u8>, nonce: Seq<u8>, x: Seq<u8>, y: Seq<u8>, units: nat)
    requires
        x.len() == units * SEALED_CHUNK,
    ensures
        open_units(key, nonce, x + y) == match (open_units(key, nonce, x), open_units(key, nonce, y)) {
            (Some(a), Some(b)) => Some(a + b),
            _ => None::<Seq<u8>>,
        },
    decreases units,
{
    if units == 0 {
        assert(x + y =~= y);
        assert(x =~= Seq::<u8>::empty());
        if let Some(b) = open_units(key, nonce, y) {
            assert(Seq::<u8>::empty() + b =~= b);
        }
    } else {
        let u = SEALED_CHUNK as int;
        assert(x.len() == (units - 1) * SEALED_CHUNK + SEALED_CHUNK) by (nonlinear_arith)
            requires
                x.len() == units * SEALED_CHUNK,
                units >= 1,
        ;
        assert((x + y).take(u) =~= x.take(u));
        assert((x + y).skip(u) =~= x.skip(u) + y);
        lemma_open_units_concat(key, nonce, x.skip(u), y, (units - 1) as nat);
        if let Some(p) = aes256gcm_open(key, nonce, x.take(u)) {
            if let Some(a) = open_units(key, nonce, x.skip(u)) {
                if let Some(b) = open_units(key, nonce, y) {
                    assert(p + (a + b) =~= (p + a) + b);
                }
            }
        }
    }
}

/// Round trip: an output copied whole and encrypted, then decrypted with the
/// same key, gives back the stream, provided that the cipher opens what it
/// sealed and adds `TAG_LEN` bytes to each piece. The chunks are those a
/// reader hands out: full, but for a last one that may be shorter.
pub proof fn lemma_round_trip(key: Seq<u8>, nonce: Seq<u8>, cs: Seq<Seq<u8>>)
    requires
        nonce.len() == NONCE_LEN,
        forall|i: int| 0 <= i < cs.len() ==> 0 < #[trigger] cs[i].len() <= CHUNK_SIZE,
        forall|i: int| 0 <= i < cs.len() - 1 ==> #[trigger] cs[i].len() == CHUNK_SIZE,
        forall|i: int|
            0 <= i < cs.len() ==> #[trigger] aes256gcm_seal(key, nonce, cs[i]).len() == cs[i].len() + TAG_LEN,
        forall|i: int|
            0 <= i < cs.len() ==> aes256gcm_open(key, nonce, #[trigger] aes256gcm_seal(key, nonce, cs[i])) == Some(
                cs[i],
            ),
    ensures
        open_units(key, nonce, encrypted_body(key, nonce, StreamKind::Whole, cs)) == Some(flatten(cs)),
        decrypted_of(key, nonce + encrypted_body(key, nonce, StreamKind::Whole, cs)) == Some(flatten(cs)),
        (forall|i: int| 0 <= i < cs.len() ==> #[trigger] cs[i].len() == CHUNK_SIZE) ==> encrypted_body(
            key,
            nonce,
            StreamKind::Whole,
            cs,
        ).len() == cs.len() * SEALED_CHUNK,
    decreases cs.len(),
{
    let body = encrypted_body(key, nonce, StreamKind::Whole, cs);
    if cs.len() == 0 {
        assert(body =~= Seq::<u8>::empty());
    } else {
        let a = cs.drop_last();
        let c = cs.last();
        assert(c == cs[cs.len() - 1]);
        assert forall|i: int| 0 <= i < a.len() implies #[trigger] a[i].len() == CHUNK_SIZE by {
            assert(a[i] == cs[i]);
        }
        assert forall|i: int| 0 <= i < a.len() implies aes256gcm_open(key, nonce, #[trigger] aes256gcm_seal(key, nonce, a[i])) == Some(
            a[i],
        ) && aes256gcm_seal(key, nonce, a[i]).len() == a[i].len() + TAG_LEN by {
            assert(a[i] == cs[i]);
        }
        lemma_round_trip(key, nonce, a);
        let ba = encrypted_body(key, nonce, StreamKind::Whole, a);
        let sc = aes256gcm_seal(key, nonce, c);
        assert(zeros(0) =~= Seq::<u8>::empty());
        assert(body =~= ba + sc);
        lemma_open_units_concat(key, nonce, ba, sc, a.len());
        assert(sc.take(sc.len() as int) =~= sc);
        assert(sc.skip(sc.len() as int) =~= Seq::<u8>::empty());
        assert(open_units(key, nonce, Seq::<u8>::empty()) == Some(Seq::<u8>::empty()));
        assert(c + Seq::<u8>::empty() =~= c);
        assert(open_units(key, nonce, sc) == Some(c));
        lemma_flatten_push(a, c);
        assert(a.push(c) =~= cs);
        if forall|i: int| 0 <= i < cs.len() ==> #[trigger] cs[i].len() == CHUNK_SIZE {
            assert(cs[cs.len() - 1].len() == CHUNK_SIZE);
            assert(a.len() * SEALED_CHUNK + SEALED_CHUNK == cs.len() * SEALED_CHUNK) by (nonlinear_arith)
                requires
                    a.len() + 1 == cs.len(),
            ;
        }
    }
    let whole = nonce + body;
    assert(whole.take(NONCE_LEN as int) =~= nonce);
    assert(whole.skip(NONCE_LEN as int) =~= body);
}

} // verus!
