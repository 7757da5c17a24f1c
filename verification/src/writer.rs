//! Chunked streaming: outbound file data is copied to the transport in
//! frames of at most [`CHUNK_SIZE`](crate::CHUNK_SIZE) bytes.  One call of
//! [`write_next_chunk`] is one frame; a caller streams by looping until
//! the writer reports [`ChunkStatus::End`].

use vstd::prelude::*;
use crate::CHUNK_SIZE;

verus! {

/// What one chunking step reports: more data may follow, or the stream is
/// finished (the frame was shorter than a full chunk).
#[derive(PartialEq, Eq, Structural, Clone, Copy, Debug)]
pub enum ChunkStatus {
    Remaining,
    End,
}

/// How many bytes one step copies when `remaining` bytes are left.
pub open spec fn spec_chunk_len(remaining: nat) -> nat {
    if remaining < CHUNK_SIZE as nat {
        remaining
    } else {
        CHUNK_SIZE as nat
    }
}

/// What one step returns when `remaining` bytes are left.
pub open spec fn spec_chunk_status(remaining: nat) -> ChunkStatus {
    if remaining < CHUNK_SIZE as nat {
        ChunkStatus::End
    } else {
        ChunkStatus::Remaining
    }
}

/// The sequence of statuses a full streaming run reports for a source of
/// `n` bytes.
pub open spec fn spec_chunk_statuses(n: nat) -> Seq<ChunkStatus>
    decreases n,
{
    if n < CHUNK_SIZE as nat {
        seq![ChunkStatus::End]
    } else {
        seq![ChunkStatus::Remaining] + spec_chunk_statuses((n - CHUNK_SIZE as nat) as nat)
    }
}

/// Copy the next frame from `src` (starting at `*pos`) to `out`: at most
/// one chunk.  Reports `End` exactly when the frame was short, i.e. the
/// source is exhausted.
pub fn write_next_chunk(src: &Vec<u8>, pos: &mut usize, out: &mut Vec<u8>) -> (st: ChunkStatus)
    requires
        *old(pos) <= src@.len(),
    ensures
        *final(pos) == *old(pos) + spec_chunk_len((src@.len() - *old(pos)) as nat),
        *final(pos) <= src@.len(),
        final(out)@ == old(out)@ + src@.subrange(*old(pos) as int, *final(pos) as int),
        st == spec_chunk_status((src@.len() - *old(pos)) as nat),
{
    let remaining = src.len() - *pos;
    let n: usize = if remaining < CHUNK_SIZE as usize {
        remaining
    } else {
        CHUNK_SIZE as usize
    };
    let start = *pos;
    let mut k: usize = 0;
    while k < n
        invariant
            k <= n,
            start + n <= src@.len(),
            src@.len() <= usize::MAX,
            out@ == old(out)@ + src@.subrange(start as int, start + k),
        decreases n - k,
    {
        out.push(src[start + k]);
        proof {
            assert(out@ =~= old(out)@ + src@.subrange(start as int, start + k + 1));
        }
        k = k + 1;
    }
    *pos = start + n;
    if n < CHUNK_SIZE as usize {
        ChunkStatus::End
    } else {
        ChunkStatus::Remaining
    }
}

/// The bytes a full streaming run writes for a source of `n` bytes: one
/// frame's worth per step, until a short frame ends the run.
pub open spec fn spec_chunk_total(n: nat) -> nat
    decreases n,
{
    if n < CHUNK_SIZE as nat {
        n
    } else {
        CHUNK_SIZE as nat + spec_chunk_total((n - CHUNK_SIZE as nat) as nat)
    }
}

/// The chunk writer's run over a source of `n` bytes reports `Remaining`
/// for each of the `n / CHUNK_SIZE` full frames and then one final `End`
/// (just `End` when `n < CHUNK_SIZE`), and the frames together carry
/// exactly the `n` source bytes.
pub proof fn lemma_chunk_writer_statuses(n: nat)
    ensures
        spec_chunk_statuses(n).len() == n / (CHUNK_SIZE as nat) + 1,
        forall|i: int|
            0 <= i < n / (CHUNK_SIZE as nat) ==> spec_chunk_statuses(n)[i]
                == ChunkStatus::Remaining,
        spec_chunk_statuses(n).last() == ChunkStatus::End,
        spec_chunk_total(n) == n,
    decreases n,
{
    let c = CHUNK_SIZE as nat;
    if n < c {
        assert(n / c == 0) by (nonlinear_arith)
            requires
                n < c,
                c > 0,
        ;
    } else {
        lemma_chunk_writer_statuses((n - c) as nat);
        assert(n / c == (n - c) as nat / c + 1) by (nonlinear_arith)
            requires
                n >= c,
                c > 0,
        ;
        let s = spec_chunk_statuses(n);
        let rest = spec_chunk_statuses((n - c) as nat);
        assert forall|i: int| 0 <= i < n / c implies s[i] == ChunkStatus::Remaining by {
            if i > 0 {
                assert(s[i] == rest[i - 1]);
            }
        }
        assert(s.last() == rest.last());
    }
}

} // verus!
