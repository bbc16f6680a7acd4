//! Laws on how the transfer programs split their byte streams into chunks:
//! every byte is shifted out or read back exactly once, in order.
use vstd::prelude::*;
use crate::spi::transaction::Chunk;
use crate::spi::esp32_spi::{
    chunk_count, full_duplex_chunks, half_read_chunks, half_write_chunks, lemma_chunk_count,
    lemma_piece_max, piece, qspi_data_chunk, qspi_header_chunk, qspi_read_chunks, qspi_write_chunks,
};

verus! {

/// Bytes the chunks shift out in their data phases.
pub open spec fn tx_total(cs: Seq<Chunk>) -> int
    decreases cs.len(),
{
    if cs.len() == 0 { 0 } else { tx_total(cs.drop_last()) + cs.last().tx_len }
}

/// Bytes the chunks read back.
pub open spec fn rx_total(cs: Seq<Chunk>) -> int
    decreases cs.len(),
{
    if cs.len() == 0 { 0 } else { rx_total(cs.drop_last()) + cs.last().rx_len }
}

/// Chunks whose read-backs are the 64-byte pieces of an `len`-byte stream
/// read back exactly `len` bytes.
pub proof fn lemma_rx_total_pieces(cs: Seq<Chunk>, len: int)
    requires
        0 <= len,
        cs.len() == chunk_count(len),
        forall|k: int| 0 <= k < cs.len() ==> #[trigger] cs[k].rx_len == piece(len, k),
    ensures
        rx_total(cs) == len,
{
    lemma_rx_prefix(cs, len, cs.len() as int);
    assert(cs.take(cs.len() as int) =~= cs);
}

proof fn lemma_rx_prefix(cs: Seq<Chunk>, len: int, k: int)
    requires
        0 <= len,
        0 <= k <= cs.len(),
        cs.len() == chunk_count(len),
        forall|j: int| 0 <= j < cs.len() ==> #[trigger] cs[j].rx_len == piece(len, j),
    ensures
        rx_total(cs.take(k)) == if 64 * k < len { 64 * k } else { len },
    decreases k,
{
    if k == 0 {
        assert(cs.take(0) =~= Seq::<Chunk>::empty());
    } else {
        lemma_rx_prefix(cs, len, k - 1);
        assert(cs.take(k).drop_last() =~= cs.take(k - 1));
        assert(cs.take(k).last() == cs[k - 1]);
        lemma_chunk_count(len, k - 1);
    }
}

/// Chunks whose data phases are the 64-byte pieces of an `len`-byte stream
/// shift out exactly `len` bytes.
pub proof fn lemma_tx_total_pieces(cs: Seq<Chunk>, len: int)
    requires
        0 <= len,
        cs.len() == chunk_count(len),
        forall|k: int| 0 <= k < cs.len() ==> #[trigger] cs[k].tx_len == piece(len, k),
    ensures
        tx_total(cs) == len,
{
    lemma_tx_prefix(cs, len, cs.len() as int);
    assert(cs.take(cs.len() as int) =~= cs);
}

proof fn lemma_tx_prefix(cs: Seq<Chunk>, len: int, k: int)
    requires
        0 <= len,
        0 <= k <= cs.len(),
        cs.len() == chunk_count(len),
        forall|j: int| 0 <= j < cs.len() ==> #[trigger] cs[j].tx_len == piece(len, j),
    ensures
        tx_total(cs.take(k)) == if 64 * k < len { 64 * k } else { len },
    decreases k,
{
    if k == 0 {
        assert(cs.take(0) =~= Seq::<Chunk>::empty());
    } else {
        lemma_tx_prefix(cs, len, k - 1);
        assert(cs.take(k).drop_last() =~= cs.take(k - 1));
        assert(cs.take(k).last() == cs[k - 1]);
        lemma_chunk_count(len, k - 1);
    }
}

/// A full-duplex transfer shifts out every byte of `write` once, in order,
/// then pad bytes up to the read length, and reads back exactly `rlen`
/// bytes; each chunk starts where the previous one ended.
pub proof fn lemma_full_duplex_covers(wlen: int, rlen: int)
    requires
        0 <= wlen <= usize::MAX,
        0 <= rlen <= usize::MAX,
    ensures
        tx_total(full_duplex_chunks(wlen, rlen)) == if wlen < rlen { rlen } else { wlen },
        rx_total(full_duplex_chunks(wlen, rlen)) == rlen,
        forall|k: int| 0 <= k < full_duplex_chunks(wlen, rlen).len()
            ==> #[trigger] full_duplex_chunks(wlen, rlen)[k].tx_start == 64 * k,
{
    let m = if wlen < rlen { rlen } else { wlen };
    let cs = full_duplex_chunks(wlen, rlen);
    assert forall|k: int| 0 <= k < cs.len() implies #[trigger] cs[k].tx_len == piece(m, k) by {
        lemma_piece_max(wlen, rlen, k);
        lemma_chunk_count(m, k);
    }
    lemma_tx_total_pieces(cs, m);
    assert(chunk_count(rlen) <= chunk_count(m));
    let rs = cs.take(chunk_count(rlen));
    assert forall|k: int| 0 <= k < rs.len() implies #[trigger] rs[k].rx_len == piece(rlen, k) by {
        lemma_chunk_count(rlen, k);
    }
    lemma_rx_total_pieces(rs, rlen);
    lemma_rx_tail_zero(cs, rlen, chunk_count(rlen), cs.len() as int);
    assert(cs.take(cs.len() as int) =~= cs);
    assert forall|k: int| 0 <= k < cs.len() implies #[trigger] cs[k].tx_start == 64 * k by {
        lemma_chunk_count(m, k);
    }
}

/// Chunks past the end of the read stream read nothing back.
proof fn lemma_rx_tail_zero(cs: Seq<Chunk>, rlen: int, from: int, k: int)
    requires
        0 <= rlen,
        from == chunk_count(rlen),
        from <= k <= cs.len(),
        forall|j: int| 0 <= j < cs.len() ==> #[trigger] cs[j].rx_len == piece(rlen, j),
    ensures
        rx_total(cs.take(k)) == rx_total(cs.take(from)),
    decreases k,
{
    if k > from {
        lemma_rx_tail_zero(cs, rlen, from, k - 1);
        assert(cs.take(k).drop_last() =~= cs.take(k - 1));
        assert(cs.take(k).last() == cs[k - 1]);
        lemma_chunk_count(rlen, k - 1);
    }
}

/// A half-duplex write shifts out every byte of the data once, in order;
/// a read (plain or QSPI) reads back exactly the requested bytes.
pub proof fn lemma_half_duplex_covers(len: int)
    requires
        0 <= len <= usize::MAX,
    ensures
        tx_total(half_write_chunks(len)) == len,
        rx_total(half_read_chunks(len)) == len,
        rx_total(qspi_read_chunks(len)) == len,
        forall|k: int| 0 <= k < half_write_chunks(len).len() ==> #[trigger] half_write_chunks(len)[k].tx_start == 64 * k,
{
    lemma_tx_total_pieces(half_write_chunks(len), len);
    lemma_rx_total_pieces(half_read_chunks(len), len);
    lemma_rx_total_pieces(qspi_read_chunks(len), len);
    assert forall|k: int| 0 <= k < half_write_chunks(len).len() implies #[trigger] half_write_chunks(len)[k].tx_start == 64 * k by {
        lemma_chunk_count(len, k);
    }
}

/// A QSPI write shifts out the 4-byte header, then every payload byte once,
/// in order, right after it.
pub proof fn lemma_qspi_write_covers(len: int, quad: bool)
    requires
        0 <= len,
        len + 4 <= usize::MAX,
    ensures
        tx_total(qspi_write_chunks(len, quad)) == 4 + len,
        forall|k: int| 1 <= k < qspi_write_chunks(len, quad).len()
            ==> #[trigger] qspi_write_chunks(len, quad)[k].tx_start == 4 + 64 * (k - 1),
{
    let data = Seq::new(chunk_count(len) as nat, |k: int| qspi_data_chunk(len, quad, k));
    let cs = qspi_write_chunks(len, quad);
    lemma_tx_total_pieces(data, len);
    lemma_tx_total_prepend(qspi_header_chunk(), data);
    assert forall|k: int| 1 <= k < cs.len() implies #[trigger] cs[k].tx_start == 4 + 64 * (k - 1) by {
        assert(cs[k] == data[k - 1]);
        lemma_chunk_count(len, k - 1);
    }
}

proof fn lemma_tx_total_prepend(c: Chunk, cs: Seq<Chunk>)
    ensures
        tx_total(seq![c] + cs) == c.tx_len + tx_total(cs),
    decreases cs.len(),
{
    if cs.len() == 0 {
        reveal_with_fuel(tx_total, 2);
        assert(seq![c] + cs =~= seq![c]);
        assert(seq![c].drop_last() =~= Seq::<Chunk>::empty());
    } else {
        assert((seq![c] + cs).drop_last() =~= seq![c] + cs.drop_last());
        lemma_tx_total_prepend(c, cs.drop_last());
    }
}

} // verus!
