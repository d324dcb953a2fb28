use vstd::prelude::*;

verus! {

/// Size in bytes of one block of a chunk shard: 1 MiB.
pub const CHUNK_SIZE: usize = 1024 * 1024;

/// The canonical split of a byte sequence into blocks of `CHUNK_SIZE` bytes,
/// the last block possibly shorter. Empty content has no blocks.
pub open spec fn chunking(content: Seq<u8>) -> Seq<Seq<u8>>
    decreases content.len(),
{
    if content.len() == 0 {
        Seq::empty()
    } else if content.len() <= CHUNK_SIZE {
        seq![content]
    } else {
        seq![content.take(CHUNK_SIZE as int)] + chunking(content.skip(CHUNK_SIZE as int))
    }
}

/// A block sequence is a well-formed shard exactly when it is the canonical
/// split of the bytes it reassembles to.
pub open spec fn is_chunked(blocks: Seq<Seq<u8>>) -> bool {
    blocks == chunking(blocks.flatten())
}

/// The views of the blocks held by an executable shard.
pub open spec fn blocks_view(blocks: Seq<Vec<u8>>) -> Seq<Seq<u8>> {
    blocks.map_values(|b: Vec<u8>| b@)
}

/// Reassembling the canonical split in order reproduces the split bytes.
pub proof fn lemma_chunking_flattens(content: Seq<u8>)
    ensures
        chunking(content).flatten() == content,
    decreases content.len(),
{
    if content.len() == 0 {
        assert(chunking(content).flatten() =~= content);
    } else if content.len() <= CHUNK_SIZE {
        let cs = chunking(content);
        cs.lemma_flatten_one_element();
    } else {
        let head = content.take(CHUNK_SIZE as int);
        let tail = content.skip(CHUNK_SIZE as int);
        lemma_chunking_flattens(tail);
        let cs = chunking(content);
        assert(cs.first() == head);
        assert(cs.drop_first() =~= chunking(tail));
        assert(cs.flatten() == head + chunking(tail).flatten());
        assert(head + tail =~= content);
    }
}

/// Splitting at a block boundary: the canonical split of the whole is the
/// split of the first `i` bytes followed by the split of the rest, whenever
/// `i` is a multiple of the block size.
pub proof fn lemma_chunking_split(content: Seq<u8>, i: int)
    requires
        0 <= i <= content.len(),
        i % (CHUNK_SIZE as int) == 0,
    ensures
        chunking(content) == chunking(content.take(i)) + chunking(content.skip(i)),
    decreases i,
{
    if i == 0 {
        assert(content.take(0) =~= Seq::<u8>::empty());
        assert(content.skip(0) =~= content);
        assert(chunking(content) =~= chunking(content.take(0)) + chunking(content.skip(0)));
    } else if i == content.len() {
        assert(content.take(i) =~= content);
        assert(content.skip(i) =~= Seq::<u8>::empty());
        assert(chunking(content) =~= chunking(content.take(i)) + chunking(content.skip(i)));
    } else {
        let c = CHUNK_SIZE as int;
        // 0 < i < len and c divides i, so i >= c and len > c.
        assert(i >= c) by {
            vstd::arithmetic::div_mod::lemma_mod_is_zero(i as nat, c as nat);
        };
        let rest = content.skip(c);
        assert((i - c) % c == 0) by {
            vstd::arithmetic::div_mod::lemma_mod_sub_multiples_vanish(i, c);
        };
        lemma_chunking_split(rest, i - c);
        assert(rest.take(i - c) =~= content.take(i).skip(c));
        assert(rest.skip(i - c) =~= content.skip(i));
        if i == c {
            assert(content.take(i).len() == c);
            assert(chunking(content.take(i)) == seq![content.take(i)]);
            assert(chunking(content) == seq![content.take(c)] + chunking(content.skip(c)));
            assert(content.take(i) == content.take(c));
            assert(rest.take(0) =~= Seq::<u8>::empty());
            assert(chunking(rest) == chunking(content.skip(i)));
            assert(chunking(content) =~= chunking(content.take(i)) + chunking(content.skip(i)));
        } else {
            assert(content.take(i).len() == i > c);
            assert(content.take(i).take(c) =~= content.take(c));
            assert(chunking(content.take(i)) == seq![content.take(c)] + chunking(
                content.take(i).skip(c),
            ));
            assert(chunking(content.take(i).skip(c)) == chunking(rest.take(i - c)));
            assert(chunking(content) == seq![content.take(c)] + chunking(rest));
            assert(chunking(rest) == chunking(rest.take(i - c)) + chunking(rest.skip(i - c)));
            assert(chunking(content) =~= chunking(content.take(i)) + chunking(content.skip(i)));
        }
    }
}

/// Splits `content` into the canonical sequence of blocks of `CHUNK_SIZE`
/// bytes each, the last block possibly shorter.
pub fn split_into_chunks(content: &Vec<u8>) -> (r: Vec<Vec<u8>>)
    ensures
        blocks_view(r@) == chunking(content@),
        is_chunked(blocks_view(r@)),
{
    let n: usize = content.len();
    let mut r: Vec<Vec<u8>> = Vec::new();
    let mut i: usize = 0;
    while i < n
        invariant
            i <= n,
            n == content@.len(),
            i == n || i % CHUNK_SIZE == 0,
            blocks_view(r@) == chunking(content@.take(i as int)),
        decreases n - i,
    {
        let step: usize = if n - i > CHUNK_SIZE {
            CHUNK_SIZE
        } else {
            n - i
        };
        let j: usize = i + step;
        let mut block: Vec<u8> = Vec::new();
        let mut k: usize = 0;
        while k < step
            invariant
                k <= step,
                i + step == j <= n,
                n == content@.len(),
                block@ == content@.subrange(i as int, i as int + k as int),
            decreases step - k,
        {
            block.push(content[i + k]);
            assert(block@ =~= content@.subrange(i as int, i as int + (k + 1) as int));
            k = k + 1;
        }
        proof {
            let ghost old_blocks = blocks_view(r@);
            lemma_chunking_split(content@.take(j as int), i as int);
            assert(content@.take(j as int).take(i as int) =~= content@.take(i as int));
            assert(content@.take(j as int).skip(i as int) =~= content@.subrange(
                i as int,
                j as int,
            ));
            assert(chunking(content@.subrange(i as int, j as int)) == seq![
                content@.subrange(i as int, j as int),
            ]) by {
                assert(0 < j - i <= CHUNK_SIZE);
            };
            assert(chunking(content@.take(j as int)) =~= chunking(content@.take(i as int)) + seq![
                content@.subrange(i as int, j as int),
            ]);
        }
        r.push(block);
        assert(blocks_view(r@) =~= chunking(content@.take(i as int)) + seq![
            content@.subrange(i as int, j as int),
        ]);
        proof {
            if j < n {
                vstd::arithmetic::div_mod::lemma_mod_add_multiples_vanish(
                    i as int,
                    CHUNK_SIZE as int,
                );
            }
        }
        i = j;
    }
    proof {
        assert(content@.take(n as int) =~= content@);
        lemma_chunking_flattens(content@);
    }
    r
}

} // verus!
