//! Row chunking for the thermal-safety pipeline: a long pixel buffer is
//! split into bounded chunks of whole rows, printed one at a time with a
//! delay in between so that the print head cannot overheat.

use vstd::prelude::*;

use crate::proto::{image_packet, trailing_cmd};
use vstd::arithmetic::div_mod::{
    lemma_basic_div, lemma_div_multiples_vanish, lemma_fundamental_div_mod,
    lemma_hoist_over_denominator, lemma_mod_multiples_basic, lemma_mod_sub_multiples_vanish,
    lemma_small_mod,
};

verus! {

/// Split `s` into successive chunks of `sz` bytes; the last chunk may be
/// shorter. An empty buffer yields no chunks.
pub open spec fn chunks_of(s: Seq<u8>, sz: nat) -> Seq<Seq<u8>>
    decreases s.len(),
    when sz > 0
{
    if s.len() == 0 {
        Seq::empty()
    } else if s.len() <= sz {
        seq![s]
    } else {
        seq![s.take(sz as int)] + chunks_of(s.skip(sz as int), sz)
    }
}

/// Chunking yields exactly the ceiling of `len / sz` chunks.
pub proof fn lemma_chunks_count(s: Seq<u8>, sz: nat)
    requires
        sz > 0,
    ensures
        chunks_of(s, sz).len() == (s.len() + sz - 1) / (sz as int),
    decreases s.len(),
{
    let szi = sz as int;
    if s.len() == 0 {
        lemma_basic_div(szi - 1, szi);
    } else if s.len() <= sz {
        lemma_basic_div(s.len() - 1, szi);
        lemma_hoist_over_denominator(s.len() - 1, 1, sz);
    } else {
        lemma_chunks_count(s.skip(szi), sz);
        lemma_hoist_over_denominator(s.len() - szi + szi - 1, 1, sz);
    }
}

/// Every chunk but the last has exactly `sz` bytes; the last has
/// `len % sz` bytes, or `sz` when `len` is an exact multiple.
pub proof fn lemma_chunks_sizes(s: Seq<u8>, sz: nat, i: int)
    requires
        sz > 0,
        0 <= i < chunks_of(s, sz).len(),
    ensures
        i < chunks_of(s, sz).len() - 1 ==> chunks_of(s, sz)[i].len() == sz,
        i == chunks_of(s, sz).len() - 1 ==> chunks_of(s, sz)[i].len() == (
            if s.len() % sz == 0 { sz as int } else { (s.len() % sz) as int }
        ),
    decreases s.len(),
{
    let szi = sz as int;
    lemma_chunks_count(s, sz);
    if s.len() <= sz {
        if s.len() < sz {
            lemma_small_mod(s.len(), sz);
        } else {
            lemma_mod_multiples_basic(1, szi);
        }
        assert(chunks_of(s, sz)[0] == s);
    } else {
        lemma_chunks_count(s.skip(szi), sz);
        lemma_mod_sub_multiples_vanish(s.len() as int, szi);
        let rest = chunks_of(s.skip(szi), sz);
        assert(chunks_of(s, sz) == seq![s.take(szi)] + rest);
        if i == 0 {
            assert(chunks_of(s, sz)[0] == s.take(szi));
        } else {
            lemma_chunks_sizes(s.skip(szi), sz, i - 1);
            assert(chunks_of(s, sz)[i] == rest[i - 1]);
        }
    }
}

/// Concatenating all chunks reproduces the original buffer exactly.
pub proof fn lemma_chunks_concat(s: Seq<u8>, sz: nat)
    requires
        sz > 0,
    ensures
        chunks_of(s, sz).flatten() == s,
    decreases s.len(),
{
    if s.len() == 0 {
        assert(chunks_of(s, sz).flatten() =~= s);
    } else if s.len() <= sz {
        chunks_of(s, sz).lemma_flatten_one_element();
        assert(chunks_of(s, sz).flatten() =~= s);
    } else {
        let head = s.take(sz as int);
        let rest = chunks_of(s.skip(sz as int), sz);
        lemma_chunks_concat(s.skip(sz as int), sz);
        assert((seq![head] + rest).drop_first() =~= rest);
        assert(chunks_of(s, sz).flatten() =~= s);
    }
}

/// Split a pixel buffer into successive chunks of `sz` bytes, the last
/// possibly shorter; whole rows are never split when `sz` is a multiple
/// of the row size.
pub fn split_chunks(pixels: &[u8], sz: usize) -> (r: Vec<Vec<u8>>)
    requires
        sz > 0,
    ensures
        r@.map_values(|c: Vec<u8>| c@) == chunks_of(pixels@, sz as nat),
{
    let n = pixels.len();
    let mut r: Vec<Vec<u8>> = Vec::new();
    let mut pos: usize = 0;
    proof {
        assert(pixels@.skip(0) =~= pixels@);
        assert(r@.map_values(|c: Vec<u8>| c@) + chunks_of(pixels@, sz as nat) =~= chunks_of(
            pixels@,
            sz as nat,
        ));
    }
    while pos < n
        invariant
            sz > 0,
            pos <= n,
            n == pixels@.len(),
            chunks_of(pixels@, sz as nat) == r@.map_values(|c: Vec<u8>| c@) + chunks_of(
                pixels@.skip(pos as int),
                sz as nat,
            ),
        decreases n - pos,
    {
        let end = if n - pos > sz { pos + sz } else { n };
        let chunk: Vec<u8> = vstd::slice::slice_to_vec(&pixels[pos..end]);
        proof {
            let f = |c: Vec<u8>| c@;
            let remaining = pixels@.skip(pos as int);
            if remaining.len() > sz as nat {
                assert(chunk@ =~= remaining.take(sz as int));
                assert(remaining.skip(sz as int) =~= pixels@.skip(end as int));
            } else {
                assert(chunk@ =~= remaining);
                assert(pixels@.skip(end as int) =~= Seq::<u8>::empty());
            }
            assert(r@.push(chunk).map_values(f) =~= r@.map_values(f).push(chunk@));
            assert(r@.map_values(f).push(chunk@) + chunks_of(pixels@.skip(end as int), sz as nat)
                =~= r@.map_values(f) + chunks_of(remaining, sz as nat));
        }
        r.push(chunk);
        pos = end;
    }
    proof {
        assert(pixels@.skip(pos as int) =~= Seq::<u8>::empty());
        assert(r@.map_values(|c: Vec<u8>| c@) + chunks_of(pixels@.skip(pos as int), sz as nat)
            =~= r@.map_values(|c: Vec<u8>| c@));
    }
    r
}

/// The transport sends that a chunked image print performs for the given
/// chunk list: per chunk, one image packet followed by the trailing
/// command.
pub open spec fn sends_for(chunks: Seq<Seq<u8>>, row_bytes: nat) -> Seq<Seq<u8>>
    decreases chunks.len(),
{
    if chunks.len() == 0 {
        Seq::empty()
    } else {
        seq![image_packet(chunks[0], row_bytes, chunks[0].len() / row_bytes), trailing_cmd()]
            + sends_for(chunks.skip(1), row_bytes)
    }
}

/// The transport sends of a whole chunked image print: the buffer is cut
/// into `chunk_bytes` chunks and each chunk becomes an image packet plus
/// the trailing command.
pub open spec fn chunk_sends(pixels: Seq<u8>, row_bytes: nat, chunk_bytes: nat) -> Seq<Seq<u8>> {
    sends_for(chunks_of(pixels, chunk_bytes), row_bytes)
}

/// Appending one more chunk appends exactly its packet pair to the send
/// list.
pub proof fn lemma_sends_for_snoc(chunks: Seq<Seq<u8>>, row_bytes: nat, i: int)
    requires
        0 <= i < chunks.len(),
    ensures
        sends_for(chunks.take(i + 1), row_bytes) == sends_for(chunks.take(i), row_bytes) + seq![
            image_packet(chunks[i], row_bytes, chunks[i].len() / row_bytes),
            trailing_cmd(),
        ],
    decreases i,
{
    if i == 0 {
        assert(chunks.take(1).skip(1) =~= Seq::<Seq<u8>>::empty());
        assert(chunks.take(0) =~= Seq::<Seq<u8>>::empty());
        assert(sends_for(chunks.take(1), row_bytes) =~= sends_for(chunks.take(0), row_bytes)
            + seq![
            image_packet(chunks[0], row_bytes, chunks[0].len() / row_bytes),
            trailing_cmd(),
        ]);
    } else {
        lemma_sends_for_snoc(chunks.skip(1), row_bytes, i - 1);
        assert(chunks.take(i + 1).skip(1) =~= chunks.skip(1).take(i));
        assert(chunks.take(i).skip(1) =~= chunks.skip(1).take(i - 1));
        assert(sends_for(chunks.take(i + 1), row_bytes) =~= sends_for(chunks.take(i), row_bytes)
            + seq![
            image_packet(chunks[i], row_bytes, chunks[i].len() / row_bytes),
            trailing_cmd(),
        ]);
    }
}

/// Two sends per chunk: the send list of a chunked print has twice the
/// chunk count, that is twice the ceiling of `len / chunk_bytes`.
pub proof fn lemma_chunk_sends_count(pixels: Seq<u8>, row_bytes: nat, chunk_bytes: nat)
    requires
        chunk_bytes > 0,
    ensures
        chunk_sends(pixels, row_bytes, chunk_bytes).len() == 2 * ((pixels.len() + chunk_bytes - 1)
            / (chunk_bytes as int)),
{
    lemma_chunks_count(pixels, chunk_bytes);
    lemma_sends_for_len(chunks_of(pixels, chunk_bytes), row_bytes);
}

/// The sends of a prefix of the chunk list are a prefix of the sends of
/// the whole list: two entries per chunk.
pub proof fn lemma_sends_for_take(chunks: Seq<Seq<u8>>, row_bytes: nat, i: int)
    requires
        0 <= i <= chunks.len(),
    ensures
        sends_for(chunks.take(i), row_bytes) == sends_for(chunks, row_bytes).take(2 * i),
    decreases chunks.len(),
{
    if i == 0 {
        assert(chunks.take(0) =~= Seq::<Seq<u8>>::empty());
        assert(sends_for(chunks, row_bytes).take(0) =~= Seq::<Seq<u8>>::empty());
    } else {
        let c0 = chunks[0];
        let pair = seq![
            image_packet(c0, row_bytes, c0.len() / row_bytes),
            trailing_cmd(),
        ];
        lemma_sends_for_take(chunks.skip(1), row_bytes, i - 1);
        lemma_sends_for_len(chunks.skip(1), row_bytes);
        assert(chunks.take(i).skip(1) =~= chunks.skip(1).take(i - 1));
        assert(chunks.take(i)[0] == c0);
        assert((pair + sends_for(chunks.skip(1), row_bytes)).take(2 * i) =~= pair + sends_for(
            chunks.skip(1),
            row_bytes,
        ).take(2 * i - 2));
        assert(sends_for(chunks.take(i), row_bytes) =~= sends_for(chunks, row_bytes).take(2 * i));
    }
}

/// The send list is twice as long as the chunk list.
pub proof fn lemma_sends_for_len(chunks: Seq<Seq<u8>>, row_bytes: nat)
    ensures
        sends_for(chunks, row_bytes).len() == 2 * chunks.len(),
    decreases chunks.len(),
{
    if chunks.len() > 0 {
        lemma_sends_for_len(chunks.skip(1), row_bytes);
    }
}

/// The total number of rows over all chunks of a chunked print equals the
/// row count of the whole buffer: chunking never drops or repeats a row.
pub proof fn lemma_chunk_rows_total(pixels: Seq<u8>, row_bytes: nat, rows_per_chunk: nat)
    requires
        row_bytes > 0,
        rows_per_chunk > 0,
        pixels.len() % row_bytes == 0,
    ensures
        chunk_heights_sum(chunks_of(pixels, row_bytes * rows_per_chunk), row_bytes) == pixels.len()
            / row_bytes,
    decreases pixels.len(),
{
    let sz = row_bytes * rows_per_chunk;
    let rbi = row_bytes as int;
    let ch = rows_per_chunk as int;
    assert(sz >= row_bytes) by (nonlinear_arith)
        requires
            row_bytes > 0,
            rows_per_chunk > 0,
            sz == row_bytes * rows_per_chunk,
    ;
    if pixels.len() == 0 {
        lemma_basic_div(0, rbi);
    } else if pixels.len() <= sz {
        assert(chunks_of(pixels, sz) == seq![pixels]);
        assert((seq![pixels]).skip(1) =~= Seq::<Seq<u8>>::empty());
        assert(chunk_heights_sum(Seq::<Seq<u8>>::empty(), row_bytes) == 0);
        assert(chunk_heights_sum(seq![pixels], row_bytes) == pixels.len() / row_bytes);
    } else {
        let head = pixels.take(sz as int);
        let tail = pixels.skip(sz as int);
        let q = pixels.len() as int / rbi;
        lemma_fundamental_div_mod(pixels.len() as int, rbi);
        assert(tail.len() == rbi * (q - ch)) by (nonlinear_arith)
            requires
                pixels.len() == rbi * q,
                sz == rbi * ch,
                tail.len() == pixels.len() - sz,
        ;
        lemma_mod_multiples_basic(q - ch, rbi);
        lemma_div_multiples_vanish(q - ch, rbi);
        lemma_div_multiples_vanish(ch, rbi);
        lemma_chunk_rows_total(tail, row_bytes, rows_per_chunk);
        let rest = chunks_of(tail, sz);
        assert(chunks_of(pixels, sz) == seq![head] + rest);
        assert((seq![head] + rest).skip(1) =~= rest);
        assert((seq![head] + rest)[0] == head);
        assert(chunk_heights_sum(seq![head] + rest, row_bytes) == head.len() / row_bytes
            + chunk_heights_sum(rest, row_bytes));
        assert(head.len() / row_bytes == ch);
        assert(chunk_heights_sum(rest, row_bytes) == q - ch);
    }
}

/// The number of rows in each chunk, summed over a chunk list.
pub open spec fn chunk_heights_sum(chunks: Seq<Seq<u8>>, row_bytes: nat) -> nat
    decreases chunks.len(),
{
    if chunks.len() == 0 {
        0
    } else {
        chunks[0].len() / row_bytes + chunk_heights_sum(chunks.skip(1), row_bytes)
    }
}

} // verus!
