use vstd::prelude::*;

verus! {

/// Bytes of one voxel: three little-endian 32-bit integers.
pub const BLOCK_BYTES: usize = 12;

/// The occupied voxels of a scene, by integer coordinate.
#[derive(Debug)]
pub struct Snapshot {
    pub blocks: Vec<(i32, i32, i32)>,
}

/// Why a byte stream is not a snapshot.
#[derive(Clone, Copy, Debug, PartialEq, Eq, Structural)]
pub enum SnapshotError {
    /// The length is not a multiple of `BLOCK_BYTES`.
    MalformedLength,
}

/// The two's-complement word of `x`, in `[0, 2^32)`.
pub open spec fn word_of(x: i32) -> int {
    if x < 0 {
        x + 0x1_0000_0000
    } else {
        x as int
    }
}

/// The signed integer whose two's-complement word is `w`.
pub open spec fn int_of_word(w: int) -> i32 {
    if w >= 0x8000_0000 {
        (w - 0x1_0000_0000) as i32
    } else {
        w as i32
    }
}

/// The four little-endian bytes of `x`.
pub open spec fn le_bytes(x: i32) -> Seq<u8> {
    let w = word_of(x);
    let q1 = w / 256;
    let q2 = q1 / 256;
    let q3 = q2 / 256;
    seq![(w % 256) as u8, (q1 % 256) as u8, (q2 % 256) as u8, (q3 % 256) as u8]
}

/// The little-endian word of the four bytes from `k`.
pub open spec fn word_at(b: Seq<u8>, k: int) -> int {
    b[k] + 256 * (b[k + 1] + 256 * (b[k + 2] + 256 * b[k + 3]))
}

pub open spec fn block_bytes(v: (i32, i32, i32)) -> Seq<u8> {
    le_bytes(v.0) + le_bytes(v.1) + le_bytes(v.2)
}

pub open spec fn block_at(b: Seq<u8>, k: int) -> (i32, i32, i32) {
    (int_of_word(word_at(b, k)), int_of_word(word_at(b, k + 4)), int_of_word(word_at(b, k + 8)))
}

/// The stream of a snapshot: its voxels' bytes, one after another.
pub open spec fn encode_spec(bs: Seq<(i32, i32, i32)>) -> Seq<u8>
    decreases bs.len(),
{
    if bs.len() == 0 {
        Seq::empty()
    } else {
        encode_spec(bs.drop_last()) + block_bytes(bs.last())
    }
}

/// The voxels of a stream, one per `BLOCK_BYTES` bytes.
pub open spec fn decode_spec(b: Seq<u8>) -> Seq<(i32, i32, i32)> {
    Seq::new(b.len() / 12, |i: int| block_at(b, 12 * i))
}

proof fn lemma_word_round_trip(x: i32)
    ensures
        le_bytes(x).len() == 4,
        int_of_word(word_at(le_bytes(x), 0)) == x,
{
    let w = word_of(x);
    let q1 = w / 256;
    let q2 = q1 / 256;
    let q3 = q2 / 256;
    assert(0 <= w < 0x1_0000_0000);
    assert(w == w % 256 + 256 * q1);
    assert(q1 == q1 % 256 + 256 * q2);
    assert(q2 == q2 % 256 + 256 * q3);
    assert(0 <= q3 < 256);
    let b = le_bytes(x);
    assert(b[0] == w % 256 && b[1] == q1 % 256 && b[2] == q2 % 256 && b[3] == q3);
    assert(word_at(b, 0) == w);
}

proof fn lemma_encode_len(bs: Seq<(i32, i32, i32)>)
    ensures
        encode_spec(bs).len() == 12 * bs.len(),
    decreases bs.len(),
{
    if bs.len() > 0 {
        lemma_encode_len(bs.drop_last());
        let v = bs.last();
        lemma_word_round_trip(v.0);
        lemma_word_round_trip(v.1);
        lemma_word_round_trip(v.2);
    }
}

proof fn lemma_encode_block(bs: Seq<(i32, i32, i32)>, i: int)
    requires
        0 <= i < bs.len(),
    ensures
        block_at(encode_spec(bs), 12 * i) == bs[i],
    decreases bs.len(),
{
    lemma_encode_len(bs);
    let e = encode_spec(bs);
    if i < bs.len() - 1 {
        lemma_encode_len(bs.drop_last());
        lemma_encode_block(bs.drop_last(), i);
        let p = encode_spec(bs.drop_last());
        assert forall|k: int| 12 * i <= k < 12 * i + 12 implies e[k] == p[k] by {}
        assert(bs.drop_last()[i] == bs[i]);
    } else {
        let v = bs.last();
        let p = encode_spec(bs.drop_last());
        lemma_encode_len(bs.drop_last());
        lemma_word_round_trip(v.0);
        lemma_word_round_trip(v.1);
        lemma_word_round_trip(v.2);
        let bb = block_bytes(v);
        assert forall|k: int| 0 <= k < 12 implies e[12 * i + k] == bb[k] by {}
        assert(word_at(e, 12 * i) == word_at(le_bytes(v.0), 0));
        assert(word_at(e, 12 * i + 4) == word_at(le_bytes(v.1), 0));
        assert(word_at(e, 12 * i + 8) == word_at(le_bytes(v.2), 0));
    }
}

/// Writing voxels as little-endian triples and reading them back gives the
/// same voxels in the same order.
pub proof fn lemma_round_trip(bs: Seq<(i32, i32, i32)>)
    ensures
        decode_spec(encode_spec(bs)) == bs,
{
    lemma_encode_len(bs);
    let d = decode_spec(encode_spec(bs));
    assert(d.len() == bs.len());
    assert forall|i: int| 0 <= i < bs.len() implies d[i] == bs[i] by {
        lemma_encode_block(bs, i);
    }
    assert(d =~= bs);
}

/// The little-endian word of four bytes.
fn read_word(b: &Vec<u8>, k: usize) -> (r: i32)
    requires
        k + 4 <= b@.len(),
    ensures
        r == int_of_word(word_at(b@, k as int)),
{
    let len = b.len();
    assert(k + 4 <= len);
    let b0: i64 = b[k] as i64;
    let b1: i64 = b[k + 1] as i64;
    let b2: i64 = b[k + 2] as i64;
    let b3: i64 = b[k + 3] as i64;
    assert(0 <= b0 < 256 && 0 <= b1 < 256 && 0 <= b2 < 256 && 0 <= b3 < 256);
    let t2: i64 = b2 + 256 * b3;
    let t1: i64 = b1 + 256 * t2;
    let w: i64 = b0 + 256 * t1;
    if w >= 0x8000_0000 {
        (w - 0x1_0000_0000) as i32
    } else {
        w as i32
    }
}

/// Appends the four little-endian bytes of `x`.
fn push_word(out: &mut Vec<u8>, x: i32)
    ensures
        final(out)@ == old(out)@ + le_bytes(x),
{
    let w: i64 = if x < 0 {
        x as i64 + 0x1_0000_0000
    } else {
        x as i64
    };
    let q1 = w / 256;
    let q2 = q1 / 256;
    let q3 = q2 / 256;
    out.push((w % 256) as u8);
    out.push((q1 % 256) as u8);
    out.push((q2 % 256) as u8);
    out.push((q3 % 256) as u8);
    proof {
        assert(final(out)@ =~= old(out)@ + le_bytes(x));
    }
}

impl Snapshot {
    /// Reads voxels from a stream of little-endian `i32` triples.
    pub fn from_bytes(bytes: &Vec<u8>) -> (r: Result<Snapshot, SnapshotError>)
        ensures
            bytes@.len() % 12 != 0 <==> r == Err::<Snapshot, SnapshotError>(SnapshotError::MalformedLength),
            r matches Ok(s) ==> s.blocks@ == decode_spec(bytes@),
    {
        if bytes.len() % BLOCK_BYTES != 0 {
            return Err(SnapshotError::MalformedLength);
        }
        let n = bytes.len() / BLOCK_BYTES;
        let mut blocks: Vec<(i32, i32, i32)> = Vec::new();
        let mut i: usize = 0;
        while i < n
            invariant
                n == bytes@.len() / 12,
                bytes@.len() <= usize::MAX,
                i <= n,
                blocks@ == Seq::new(i as nat, |j: int| block_at(bytes@, 12 * j)),
            decreases n - i,
        {
            proof {
                assert(12 * i + 12 <= bytes@.len()) by (nonlinear_arith)
                    requires
                        i < n,
                        n == bytes@.len() / 12,
                ;
            }
            let k = BLOCK_BYTES * i;
            let x = read_word(bytes, k);
            let y = read_word(bytes, k + 4);
            let z = read_word(bytes, k + 8);
            blocks.push((x, y, z));
            i = i + 1;
            proof {
                assert(blocks@ =~= Seq::new(i as nat, |j: int| block_at(bytes@, 12 * j)));
            }
        }
        proof {
            assert(blocks@ =~= decode_spec(bytes@));
        }
        Ok(Snapshot { blocks })
    }

    /// Writes the voxels as little-endian `i32` triples.
    pub fn to_bytes(&self) -> (r: Vec<u8>)
        ensures
            r@ == encode_spec(self.blocks@),
            r@.len() == 12 * self.blocks@.len(),
    {
        let mut out: Vec<u8> = Vec::new();
        let mut i: usize = 0;
        while i < self.blocks.len()
            invariant
                i <= self.blocks@.len(),
                out@ == encode_spec(self.blocks@.subrange(0, i as int)),
            decreases self.blocks@.len() - i,
        {
            let v = self.blocks[i];
            push_word(&mut out, v.0);
            push_word(&mut out, v.1);
            push_word(&mut out, v.2);
            proof {
                let pre = self.blocks@.subrange(0, i as int + 1);
                assert(pre.drop_last() == self.blocks@.subrange(0, i as int));
                assert(pre.last() == v);
            }
            i = i + 1;
        }
        proof {
            assert(self.blocks@.subrange(0, self.blocks@.len() as int) == self.blocks@);
            lemma_encode_len(self.blocks@);
        }
        out
    }
}

} // verus!
