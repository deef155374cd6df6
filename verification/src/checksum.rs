//! Sampled content digests: which byte ranges of a file are hashed, and the
//! lowercase hex SHA-256 of the sampled bytes.

use vstd::prelude::*;
use sha2::{Digest, Sha256};
use crate::text::push_char;

verus! {

/// Size of one sampled chunk: 5 MiB.
pub const SAMPLE_CHUNK: u64 = 5242880;

/// A run of `len` bytes starting at offset `start`.
#[derive(Clone, Copy, Debug, PartialEq, Eq)]
pub struct ByteRange {
    pub start: u64,
    pub len: u64,
}

/// The byte ranges sampled from a file of `size` bytes, as (start, length)
/// pairs: the whole file up to one chunk; the first chunk and the rest up to
/// two chunks; otherwise the first chunk and the last chunk.
pub open spec fn sample_plan(size: nat) -> Seq<(nat, nat)> {
    let c = SAMPLE_CHUNK as nat;
    if size <= c {
        seq![(0nat, size)]
    } else if size <= 2 * c {
        seq![(0nat, c), (c, (size - c) as nat)]
    } else {
        seq![(0nat, c), ((size - c) as nat, c)]
    }
}

pub open spec fn range_view(r: ByteRange) -> (nat, nat) {
    (r.start as nat, r.len as nat)
}

/// The ranges of a file of `file_size` bytes whose contents make up its
/// sampled digest, in file order.
pub fn sample_ranges(file_size: u64) -> (ranges: Vec<ByteRange>)
    ensures
        ranges@.map_values(|r: ByteRange| range_view(r)) == sample_plan(file_size as nat),
{
    let mut ranges: Vec<ByteRange> = Vec::new();
    if file_size <= SAMPLE_CHUNK {
        ranges.push(ByteRange { start: 0, len: file_size });
    } else if file_size <= 2 * SAMPLE_CHUNK {
        ranges.push(ByteRange { start: 0, len: SAMPLE_CHUNK });
        ranges.push(ByteRange { start: SAMPLE_CHUNK, len: file_size - SAMPLE_CHUNK });
    } else {
        ranges.push(ByteRange { start: 0, len: SAMPLE_CHUNK });
        ranges.push(ByteRange { start: file_size - SAMPLE_CHUNK, len: SAMPLE_CHUNK });
    }
    assert(ranges@.map_values(|r: ByteRange| range_view(r)) =~= sample_plan(file_size as nat));
    ranges
}

/// Every sampled range lies inside the file, the ranges are in increasing
/// order without overlap, they cover the whole file exactly when it is at
/// most two chunks long, and together they hold `min(size, 2 * chunk)` bytes.
pub proof fn sample_plan_is_sound(size: nat)
    ensures
        ({
            let p = sample_plan(size);
            let c = SAMPLE_CHUNK as nat;
            &&& forall|i: int| 0 <= i < p.len() ==> #[trigger] p[i].0 + p[i].1 <= size
            &&& forall|i: int|
                0 <= i < p.len() - 1 ==> #[trigger] p[i].0 + p[i].1 <= p[i + 1].0
            &&& p[0].0 == 0
            &&& (size <= 2 * c <==> p[p.len() - 1].0 + p[p.len() - 1].1 == size && forall|i: int|
                0 <= i < p.len() - 1 ==> #[trigger] p[i].0 + p[i].1 == p[i + 1].0)
            &&& (if p.len() == 1 {
                p[0].1
            } else {
                p[0].1 + p[1].1
            }) == if size <= 2 * c {
                size
            } else {
                2 * c
            }
        }),
{
}

/// The bytes of a file's contents that its sample plan selects, in order.
pub open spec fn sampled_bytes(contents: Seq<u8>) -> Seq<u8> {
    sample_plan(contents.len()).map_values(
        |r: (nat, nat)| contents.subrange(r.0 as int, (r.0 + r.1) as int),
    ).flatten()
}

/// A file of at most two chunks is sampled whole, so its sampled digest is
/// the digest of the whole file; a larger one is sampled as its first and
/// last chunk.
pub proof fn small_files_are_sampled_whole(contents: Seq<u8>)
    ensures
        contents.len() <= 2 * SAMPLE_CHUNK ==> sampled_bytes(contents) == contents,
        contents.len() > 2 * SAMPLE_CHUNK ==> sampled_bytes(contents) == contents.subrange(
            0,
            SAMPLE_CHUNK as int,
        ) + contents.subrange(contents.len() - SAMPLE_CHUNK, contents.len() as int),
{
    let c = SAMPLE_CHUNK as nat;
    let n = contents.len();
    let f = |r: (nat, nat)| contents.subrange(r.0 as int, (r.0 + r.1) as int);
    let parts = sample_plan(n).map_values(f);
    if n <= c {
        assert(parts =~= seq![contents.subrange(0, n as int)]);
        seq![contents.subrange(0, n as int)].lemma_flatten_one_element();
        assert(contents.subrange(0, n as int) =~= contents);
    } else {
        let a = f(sample_plan(n)[0]);
        let b = f(sample_plan(n)[1]);
        assert(parts =~= seq![a].push(b));
        seq![a].lemma_flatten_one_element();
        seq![a].lemma_flatten_push(b);
        if n <= 2 * c {
            assert(a + b =~= contents);
        }
    }
}

/// Names the SHA-256 digest of a byte sequence.
pub uninterp spec fn sha256_of(data: Seq<u8>) -> Seq<u8>;

/// Calls `sha2::Sha256::digest`. Claims that the result is the SHA-256 of
/// `data` (named, not spelled out) and is 32 bytes long.
#[verifier::external_body]
fn sha256_digest(data: &[u8]) -> (digest: Vec<u8>)
    ensures
        digest@ == sha256_of(data@),
        digest@.len() == 32,
{
    Sha256::digest(data).to_vec()
}

/// Lowercase hex digit of a value below sixteen.
pub open spec fn hex_char(d: nat) -> char {
    if d < 10 {
        crate::text::digit_char(d)
    } else if d == 10 {
        'a'
    } else if d == 11 {
        'b'
    } else if d == 12 {
        'c'
    } else if d == 13 {
        'd'
    } else if d == 14 {
        'e'
    } else {
        'f'
    }
}

/// Two lowercase hex digits per byte, high nibble first.
pub open spec fn lower_hex(bytes: Seq<u8>) -> Seq<char>
    decreases bytes.len(),
{
    if bytes.len() == 0 {
        seq![]
    } else {
        lower_hex(bytes.drop_last()) + seq![
            hex_char((bytes.last() / 16) as nat),
            hex_char((bytes.last() % 16) as nat),
        ]
    }
}

fn hex_digit(d: u8) -> (c: char)
    requires
        d < 16,
    ensures
        c == hex_char(d as nat),
{
    if d < 10 {
        crate::text::digit(d as u64)
    } else if d == 10 {
        'a'
    } else if d == 11 {
        'b'
    } else if d == 12 {
        'c'
    } else if d == 13 {
        'd'
    } else if d == 14 {
        'e'
    } else {
        'f'
    }
}

/// Renders bytes as lowercase hex, two digits per byte.
pub fn to_lower_hex(bytes: &[u8]) -> (res: String)
    ensures
        res@ == lower_hex(bytes@),
{
    let mut s = String::new();
    let mut i: usize = 0;
    while i < bytes.len()
        invariant
            i <= bytes@.len(),
            s@ == lower_hex(bytes@.take(i as int)),
        decreases bytes@.len() - i,
    {
        let b = bytes[i];
        push_char(&mut s, hex_digit(b / 16));
        push_char(&mut s, hex_digit(b % 16));
        assert(bytes@.take(i + 1).drop_last() =~= bytes@.take(i as int));
        assert(s@ =~= lower_hex(bytes@.take(i + 1)));
        i = i + 1;
    }
    assert(bytes@.take(bytes@.len() as int) =~= bytes@);
    s
}

pub open spec fn chunk_bytes(chunks: Seq<Vec<u8>>) -> Seq<u8> {
    chunks.map_values(|c: Vec<u8>| c@).flatten()
}

/// The digest text of sampled bytes: lowercase hex SHA-256 of the chunks
/// read from the sampled ranges, taken in order.
pub fn sampled_digest_hex(chunks: &Vec<Vec<u8>>) -> (res: String)
    ensures
        res@ == lower_hex(sha256_of(chunk_bytes(chunks@))),
        res@.len() == 64,
{
    let mut data: Vec<u8> = Vec::new();
    let mut i: usize = 0;
    while i < chunks.len()
        invariant
            i <= chunks@.len(),
            data@ == chunk_bytes(chunks@.take(i as int)),
        decreases chunks@.len() - i,
    {
        let ghost before = data@;
        data.extend_from_slice(chunks[i].as_slice());
        assert(data@ =~= before + chunks@[i as int]@);
        proof {
            let prefix = chunks@.take(i as int).map_values(|c: Vec<u8>| c@);
            assert(chunks@.take(i + 1).map_values(|c: Vec<u8>| c@) =~= prefix.push(
                chunks@[i as int]@,
            ));
            prefix.lemma_flatten_push(chunks@[i as int]@);
        }
        i = i + 1;
    }
    assert(chunks@.take(chunks@.len() as int) =~= chunks@);
    let digest = sha256_digest(data.as_slice());
    let res = to_lower_hex(digest.as_slice());
    proof {
        lemma_lower_hex_len(digest@);
    }
    res
}

pub proof fn lemma_lower_hex_len(bytes: Seq<u8>)
    ensures
        lower_hex(bytes).len() == 2 * bytes.len(),
    decreases bytes.len(),
{
    if bytes.len() > 0 {
        lemma_lower_hex_len(bytes.drop_last());
    }
}

/// The bytes that are hashed are every chunk read, in order: no chunks give
/// no bytes, and one more chunk appends exactly its bytes.
pub proof fn digest_input_is_every_chunk_in_order(chunks: Seq<Vec<u8>>, chunk: Vec<u8>)
    ensures
        chunk_bytes(Seq::<Vec<u8>>::empty()) == Seq::<u8>::empty(),
        chunk_bytes(chunks.push(chunk)) == chunk_bytes(chunks) + chunk@,
        chunk_bytes(chunks.push(chunk)).len() == chunk_bytes(chunks).len() + chunk@.len(),
{
    let m = chunks.map_values(|c: Vec<u8>| c@);
    assert(chunks.push(chunk).map_values(|c: Vec<u8>| c@) =~= m.push(chunk@));
    m.lemma_flatten_push(chunk@);
    assert(Seq::<Vec<u8>>::empty().map_values(|c: Vec<u8>| c@) =~= Seq::<Seq<u8>>::empty());
}

/// When the chunks are the contents of the sampled ranges of a file, the
/// digest covers the whole file if it holds at most two chunks, and
/// otherwise exactly its first chunk followed by its last chunk.
pub proof fn sampled_chunks_cover_the_sample(contents: Seq<u8>, chunks: Seq<Vec<u8>>)
    requires
        chunks.len() == sample_plan(contents.len()).len(),
        forall|i: int|
            0 <= i < chunks.len() ==> (#[trigger] chunks[i])@ == contents.subrange(
                sample_plan(contents.len())[i].0 as int,
                (sample_plan(contents.len())[i].0 + sample_plan(contents.len())[i].1) as int,
            ),
    ensures
        contents.len() <= 2 * SAMPLE_CHUNK ==> chunk_bytes(chunks) == contents,
        contents.len() > 2 * SAMPLE_CHUNK ==> chunk_bytes(chunks) == contents.subrange(
            0,
            SAMPLE_CHUNK as int,
        ) + contents.subrange(contents.len() - SAMPLE_CHUNK, contents.len() as int),
{
    let plan = sample_plan(contents.len());
    let f = |r: (nat, nat)| contents.subrange(r.0 as int, (r.0 + r.1) as int);
    assert(chunks.map_values(|c: Vec<u8>| c@) =~= plan.map_values(f));
    assert(chunk_bytes(chunks) == sampled_bytes(contents));
    small_files_are_sampled_whole(contents);
}

} // verus!
