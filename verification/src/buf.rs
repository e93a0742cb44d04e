//! Byte-buffer utilities: the block chunker and small helpers.
//!
//! The chunker splits an arbitrary buffer into fixed-size blocks, zero-padding
//! the final partial block and reporting how many bytes of it were genuine
//! input. A padding count of zero always means that no padding block was
//! appended: an input whose length is an exact multiple of the block size
//! yields exactly `len / block_size` blocks.

use vstd::prelude::*;

verus! {

/// `bytes` followed by just enough zero bytes to reach the next multiple of
/// `bs`. An exact multiple (including the empty buffer) is left unchanged.
pub open spec fn zero_pad(bytes: Seq<u8>, bs: nat) -> Seq<u8> {
    if bs == 0 || bytes.len() % bs == 0 {
        bytes
    } else {
        bytes + Seq::new((bs - bytes.len() % bs) as nat, |i: int| 0u8)
    }
}

/// How many blocks the chunker produces: `ceil(len / bs)`.
pub open spec fn spec_num_blocks(len: nat, bs: nat) -> nat {
    if bs == 0 {
        0
    } else if len % bs == 0 {
        len / bs
    } else {
        len / bs + 1
    }
}

/// The concatenation of a sequence of byte blocks, in order.
pub open spec fn flatten_bytes(blocks: Seq<Seq<u8>>) -> Seq<u8>
    decreases blocks.len(),
{
    if blocks.len() == 0 {
        Seq::empty()
    } else {
        blocks[0] + flatten_bytes(blocks.drop_first())
    }
}

/// The padded buffer is the original followed by zeros, its length is a whole
/// number of blocks, and it never grows by a full block.
pub proof fn lemma_zero_pad_len(bytes: Seq<u8>, bs: nat)
    requires
        bs > 0,
    ensures
        zero_pad(bytes, bs).len() == spec_num_blocks(bytes.len(), bs) * bs,
        bytes.len() <= zero_pad(bytes, bs).len() < bytes.len() + bs,
        zero_pad(bytes, bs).len() % bs == 0,
        zero_pad(bytes, bs).take(bytes.len() as int) == bytes,
        forall|i: int| bytes.len() <= i < zero_pad(bytes, bs).len() ==> zero_pad(bytes, bs)[i] == 0u8,
{
    vstd::arithmetic::div_mod::lemma_fundamental_div_mod(bytes.len() as int, bs as int);
    let padded = zero_pad(bytes, bs);
    if bytes.len() % bs == 0 {
        assert(padded.len() == (bytes.len() / bs) * bs) by (nonlinear_arith)
            requires
                bs > 0,
                padded.len() == bytes.len(),
                bytes.len() % bs == 0,
        ;
    } else {
        assert(padded.len() == (bytes.len() / bs + 1) * bs) by (nonlinear_arith)
            requires
                bs > 0,
                padded.len() == bytes.len() + bs - bytes.len() % bs,
                bytes.len() % bs != 0,
        ;
        assert(padded.len() % bs == 0) by (nonlinear_arith)
            requires
                bs > 0,
                padded.len() == (bytes.len() / bs + 1) * bs,
        ;
    }
    assert(padded.take(bytes.len() as int) =~= bytes);
}

/// If each block is the corresponding `bs`-wide window of `data`, then the
/// blocks concatenate back to exactly `data`. This is the statement that the
/// chunker loses nothing and invents nothing beyond the zero padding.
pub proof fn lemma_flatten_uniform(blocks: Seq<Seq<u8>>, data: Seq<u8>, bs: nat)
    requires
        bs > 0,
        data.len() == blocks.len() * bs,
        forall|i: int| 0 <= i < blocks.len() ==> blocks[i] == data.subrange(i * bs, (i + 1) * bs),
    ensures
        flatten_bytes(blocks) == data,
    decreases blocks.len(),
{
    if blocks.len() == 0 {
        assert(flatten_bytes(blocks) =~= data);
    } else {
        let tail = blocks.drop_first();
        let rest = data.skip(bs as int);
        assert(blocks.len() * bs == (tail.len() + 1) * bs);
        assert((tail.len() + 1) * bs == tail.len() * bs + bs) by (nonlinear_arith);
        assert(rest.len() == tail.len() * bs);
        assert forall|i: int| 0 <= i < tail.len() implies tail[i] == rest.subrange(
            i * bs,
            (i + 1) * bs,
        ) by {
            assert(0 <= i * bs && i * bs + 2 * bs <= tail.len() * bs + bs && (i + 1) * bs == i * bs
                + bs && (i + 2) * bs == i * bs + 2 * bs) by (nonlinear_arith)
                requires
                    0 <= i < tail.len(),
                    bs > 0,
            ;
            assert(tail[i] == blocks[i + 1]);
            assert(blocks[i + 1] == data.subrange((i + 1) * bs, (i + 2) * bs));
            assert(data.subrange(i * bs + bs, i * bs + 2 * bs) =~= rest.subrange(
                i * bs,
                i * bs + bs,
            ));
        }
        lemma_flatten_uniform(tail, rest, bs);
        assert(blocks[0] == data.subrange(0, bs as int));
        assert(flatten_bytes(blocks) =~= data);
    }
}

/// Chunker correctness: blocks shaped as [`bytes_chunks`] guarantees — one
/// `bs`-wide window of the padded buffer each, `ceil(len / bs)` of them —
/// concatenate to exactly the original bytes followed by zero padding, and
/// the padded prefix of the original's length is the original itself.
pub proof fn lemma_chunks_concat(blocks: Seq<Seq<u8>>, bytes: Seq<u8>, bs: nat)
    requires
        bs > 0,
        blocks.len() == spec_num_blocks(bytes.len(), bs),
        forall|i: int|
            0 <= i < blocks.len() ==> blocks[i] == zero_pad(bytes, bs).subrange(
                i * bs,
                (i + 1) * bs,
            ),
    ensures
        flatten_bytes(blocks) == zero_pad(bytes, bs),
        flatten_bytes(blocks).take(bytes.len() as int) == bytes,
        flatten_bytes(blocks).len() % bs == 0,
        forall|i: int|
            bytes.len() <= i < flatten_bytes(blocks).len() ==> flatten_bytes(blocks)[i] == 0u8,
{
    lemma_zero_pad_len(bytes, bs);
    lemma_flatten_uniform(blocks, zero_pad(bytes, bs), bs);
}

/// Splits `bytes` into blocks of `block_size` bytes. A final partial block is
/// zero-padded; the second component reports how many of its bytes were real
/// input (`0` means the input was an exact multiple and no block was added).
pub fn bytes_chunks(bytes: &Vec<u8>, block_size: usize) -> (r: (Vec<Vec<u8>>, usize))
    requires
        block_size > 0,
    ensures
        r.0@.len() == spec_num_blocks(bytes@.len(), block_size as nat),
        forall|i: int|
            0 <= i < r.0@.len() ==> (#[trigger] r.0@[i])@ == zero_pad(
                bytes@,
                block_size as nat,
            ).subrange(i * (block_size as int), (i + 1) * (block_size as int)),
        forall|i: int| 0 <= i < r.0@.len() ==> (#[trigger] r.0@[i])@.len() == block_size,
        r.1 == bytes@.len() % (block_size as nat),
{
    proof {
        lemma_zero_pad_len(bytes@, block_size as nat);
    }
    let ghost padded = zero_pad(bytes@, block_size as nat);
    let len = bytes.len();
    let full: usize = len / block_size;
    let rem: usize = len % block_size;
    let mut chunks: Vec<Vec<u8>> = Vec::new();

    proof {
        vstd::arithmetic::div_mod::lemma_fundamental_div_mod(len as int, block_size as int);
    }

    let mut i: usize = 0;
    while i < full
        invariant
            i <= full,
            block_size > 0,
            len == bytes@.len(),
            full == len / block_size,
            rem == len % block_size,
            len == block_size * full + rem,
            padded == zero_pad(bytes@, block_size as nat),
            padded.len() == spec_num_blocks(len as nat, block_size as nat) * (block_size as nat),
            full <= spec_num_blocks(len as nat, block_size as nat),
            padded.take(len as int) == bytes@,
            chunks@.len() == i,
            forall|j: int|
                0 <= j < i ==> (#[trigger] chunks@[j])@ == padded.subrange(
                    j * (block_size as int),
                    (j + 1) * (block_size as int),
                ),
            forall|j: int| 0 <= j < i ==> (#[trigger] chunks@[j])@.len() == block_size,
        decreases full - i,
    {
        proof {
            assert((i + 1) * (block_size as int) <= full * (block_size as int)
                && 0 <= i * (block_size as int) && i * (block_size as int) + block_size == (i + 1)
                * (block_size as int)) by (nonlinear_arith)
                requires
                    0 <= i < full,
                    block_size > 0,
            ;
            assert(full * (block_size as int) <= spec_num_blocks(len as nat, block_size as nat) * (
            block_size as int)) by (nonlinear_arith)
                requires
                    full <= spec_num_blocks(len as nat, block_size as nat),
                    block_size > 0,
            ;
            assert(full * (block_size as int) == (block_size as int) * full) by (nonlinear_arith);
        }
        let start = i * block_size;
        let block = vstd::slice::slice_to_vec(
            vstd::slice::slice_subrange(bytes.as_slice(), start, start + block_size),
        );
        proof {
            assert(block@ =~= padded.subrange(
                i * (block_size as int),
                (i + 1) * (block_size as int),
            ));
        }
        chunks.push(block);
        i += 1;
    }

    if rem != 0 {
        proof {
            assert(full * (block_size as int) == (block_size as int) * full) by (nonlinear_arith);
            assert((full + 1) * (block_size as int) == full * (block_size as int) + block_size)
                by (nonlinear_arith);
        }
        let start = full * block_size;
        let mut last: Vec<u8> = Vec::new();
        let mut j: usize = start;
        while j < len
            invariant
                start <= j <= len,
                len == bytes@.len(),
                bytes@.len() <= padded.len(),
                padded.take(len as int) == bytes@,
                last@.len() == j - start,
                forall|k: int| 0 <= k < last@.len() ==> last@[k] == padded[start + k],
            decreases len - j,
        {
            last.push(bytes[j]);
            j += 1;
        }
        let mut z: usize = rem;
        while z < block_size
            invariant
                rem <= z <= block_size,
                last@.len() == (len - start) + (z - rem),
                len - start == rem,
                start + block_size == padded.len(),
                len <= padded.len(),
                forall|i2: int| len <= i2 < padded.len() ==> padded[i2] == 0u8,
                forall|k: int| 0 <= k < last@.len() ==> last@[k] == padded[start + k],
            decreases block_size - z,
        {
            last.push(0u8);
            z += 1;
        }
        proof {
            assert(last@ =~= padded.subrange(
                full * (block_size as int),
                (full + 1) * (block_size as int),
            ));
        }
        chunks.push(last);
    }

    (chunks, rem)
}

/// Overwrites the front of `buf` with the bytes of `src`, leaving the rest of
/// `buf` (and its length) unchanged. If `src` is longer than `buf`, only the
/// first `buf.len()` bytes are copied.
pub fn fill(buf: &mut Vec<u8>, src: &Vec<u8>)
    ensures
        final(buf)@.len() == old(buf)@.len(),
        forall|i: int|
            0 <= i < old(buf)@.len() ==> final(buf)@[i] == if i < src@.len() {
                src@[i]
            } else {
                old(buf)@[i]
            },
{
    let n = if src.len() < buf.len() {
        src.len()
    } else {
        buf.len()
    };
    let mut i: usize = 0;
    while i < n
        invariant
            i <= n,
            n <= src@.len(),
            n <= buf@.len(),
            buf@.len() == old(buf)@.len(),
            forall|k: int| 0 <= k < i ==> buf@[k] == src@[k],
            forall|k: int| i <= k < buf@.len() ==> buf@[k] == old(buf)@[k],
        decreases n - i,
    {
        buf.set(i, src[i]);
        i += 1;
    }
}

/// Appends every byte of `src` to `dst`.
pub fn push_bytes(dst: &mut Vec<u8>, src: &Vec<u8>)
    ensures
        final(dst)@ == old(dst)@ + src@,
{
    dst.extend_from_slice(src.as_slice());
    proof {
        assert(final(dst)@ =~= old(dst)@ + src@);
    }
}

/// Concatenates a sequence of blocks into one buffer.
pub fn blocks_to_bytes(blocks: &Vec<Vec<u8>>) -> (r: Vec<u8>)
    ensures
        r@ == flatten_bytes(blocks@.map_values(|b: Vec<u8>| b@)),
{
    let mut out: Vec<u8> = Vec::new();
    let mut i: usize = 0;
    while i < blocks.len()
        invariant
            i <= blocks@.len(),
            out@ == flatten_bytes(blocks@.take(i as int).map_values(|b: Vec<u8>| b@)),
        decreases blocks@.len() - i,
    {
        let ghost prefix = blocks@.take(i as int).map_values(|b: Vec<u8>| b@);
        out.extend_from_slice(blocks[i].as_slice());
        proof {
            let next = blocks@.take(i + 1int).map_values(|b: Vec<u8>| b@);
            lemma_flatten_push(prefix, blocks@[i as int]@);
            assert(next =~= prefix.push(blocks@[i as int]@));
            assert(out@ =~= flatten_bytes(prefix) + blocks@[i as int]@);
        }
        i += 1;
    }
    proof {
        assert(blocks@.take(blocks@.len() as int) =~= blocks@);
    }
    out
}

/// Appending one more block to a sequence appends its bytes to the flattening.
pub proof fn lemma_flatten_push(blocks: Seq<Seq<u8>>, last: Seq<u8>)
    ensures
        flatten_bytes(blocks.push(last)) == flatten_bytes(blocks) + last,
    decreases blocks.len(),
{
    if blocks.len() == 0 {
        assert(blocks.push(last)[0] == last);
        assert(blocks.push(last).drop_first() =~= Seq::<Seq<u8>>::empty());
        assert(flatten_bytes(blocks.push(last)) == last + flatten_bytes(Seq::<Seq<u8>>::empty()));
        assert(flatten_bytes(Seq::<Seq<u8>>::empty()) == Seq::<u8>::empty());
        assert(flatten_bytes(blocks) == Seq::<u8>::empty());
        assert(flatten_bytes(blocks.push(last)) =~= flatten_bytes(blocks) + last);
    } else {
        assert(blocks.push(last).drop_first() =~= blocks.drop_first().push(last));
        lemma_flatten_push(blocks.drop_first(), last);
        assert(blocks.push(last)[0] == blocks[0]);
        assert(flatten_bytes(blocks.push(last)) == blocks[0] + flatten_bytes(
            blocks.drop_first().push(last),
        ));
        assert(flatten_bytes(blocks.drop_first().push(last)) == flatten_bytes(blocks.drop_first())
            + last);
        assert(blocks[0] + (flatten_bytes(blocks.drop_first()) + last) =~= (blocks[0]
            + flatten_bytes(blocks.drop_first())) + last);
        assert(flatten_bytes(blocks) == blocks[0] + flatten_bytes(blocks.drop_first()));
    }
}

} // verus!
