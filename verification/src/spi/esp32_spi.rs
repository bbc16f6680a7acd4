//! ESP32-C3/C6 GPSPI2 (SPI2) controller: data-buffer packing, clock divider
//! selection, and the register programs of every transfer kind.
use vstd::prelude::*;
use crate::error::HalError;
use crate::regfield::{FieldSet, field, field_spec, join};
use crate::spi::{SpiConfig, SpiPhase, SpiPolarity, SpiBitOrder};
use crate::spi::transaction::{
    Chunk, FifoReset, OnTimeout, SpiReg, SpiStep, SpiTransaction, TimeoutCounter, bitlen_word,
    chunk_fits, chunk_steps, chunks_steps, cmd_update,
    lemma_chunks_steps_fit, lemma_chunks_steps_push,
    lemma_program_fits_append, pack_words, program_fits, reset_steps, start_transfer_steps,
    wait_done_steps,
};
use crate::Soc;

verus! {

/// Size in bytes of the W0..W15 data buffer.
pub const SPI2_DATA_BUF_SIZE: usize = 64;

/// Pad byte shifted out where a full-duplex read is longer than the write.
pub const EMPTY_WRITE_PAD: u8 = 0x00;

/// Poll budget for a hardware-owned status bit to reach its awaited state.
pub const SPI_CMD_TIMEOUT: usize = 10_000;

/// QSPI opcode: command write, 1-wire data.
pub const QSPI_CMD_WRITE: u8 = 0x02;
/// QSPI opcode: pixel write, 4-wire data.
pub const QSPI_CMD_PIXEL_WRITE: u8 = 0x32;
/// QSPI opcode: command read, 1-wire data.
pub const QSPI_CMD_READ: u8 = 0x03;
/// DCS memory-write command carried by pixel writes.
pub const RAMWR: u8 = 0x2C;
/// Length of the QSPI command header `[opcode, 0x00, cmd, 0x00]`.
pub const QSPI_HEADER_LEN: usize = 4;

/// What a poll loop does after one poll.
#[derive(Debug, Clone, Copy, PartialEq, Eq)]
pub enum PollDecision {
    /// Stop with this result.
    Done(Result<(), HalError>),
    /// Poll again.
    PollAgain,
}

/// The decision after poll number `polls_done + 1` of at most `max_polls`
/// answered `set`: done as soon as the bit reads clear, a timeout when it
/// still reads set on the last poll of the budget, else another poll.
pub open spec fn poll_decision(polls_done: int, max_polls: int, set: bool) -> PollDecision {
    if !set {
        PollDecision::Done(Ok(()))
    } else if polls_done + 1 >= max_polls {
        PollDecision::Done(Err(HalError::Timeout))
    } else {
        PollDecision::PollAgain
    }
}

/// One step of the poll loop: what follows a poll that answered `set`, when
/// `polls_done` polls came before it.
pub fn poll_step(polls_done: usize, max_polls: usize, set: bool) -> (d: PollDecision)
    requires
        polls_done < max_polls,
    ensures
        d == poll_decision(polls_done as int, max_polls as int, set),
{
    if !set {
        PollDecision::Done(Ok(()))
    } else if polls_done + 1 >= max_polls {
        PollDecision::Done(Err(HalError::Timeout))
    } else {
        PollDecision::PollAgain
    }
}

/// The result and the number of polls of the poll loop driven by [`poll_step`],
/// when poll number `j + 1` answers `answers[j]` and `done` polls have been made.
pub open spec fn poll_run(answers: Seq<bool>, done: int, max_polls: int) -> (Result<(), HalError>, int)
    decreases max_polls - done,
{
    if done >= max_polls || done < 0 {
        (Err(HalError::Timeout), done)
    } else {
        match poll_decision(done, max_polls, answers[done]) {
            PollDecision::Done(r) => (r, done + 1),
            PollDecision::PollAgain => poll_run(answers, done + 1, max_polls),
        }
    }
}

/// The poll loop retries until the bit reads clear, within its budget: when
/// the first clear answer is answer `k` and `k < max_polls`, it returns `Ok`
/// after `k + 1` polls; when the first `max_polls` answers all read set, it
/// times out after exactly `max_polls` polls (none for a budget of 0).
pub proof fn lemma_poll_run(answers: Seq<bool>, max_polls: int)
    requires
        0 <= max_polls <= answers.len(),
    ensures
        forall|k: int| 0 <= k < max_polls && !answers[k] && (forall|j: int| 0 <= j < k ==> answers[j])
            ==> poll_run(answers, 0, max_polls) == (Ok::<(), HalError>(()), k + 1),
        (forall|j: int| 0 <= j < max_polls ==> answers[j])
            ==> poll_run(answers, 0, max_polls) == (Err::<(), HalError>(HalError::Timeout), max_polls),
{
    lemma_poll_run_from(answers, 0, max_polls);
}

proof fn lemma_poll_run_from(answers: Seq<bool>, done: int, max_polls: int)
    requires
        0 <= done <= max_polls <= answers.len(),
    ensures
        forall|k: int| done <= k < max_polls && !answers[k] && (forall|j: int| done <= j < k ==> answers[j])
            ==> poll_run(answers, done, max_polls) == (Ok::<(), HalError>(()), k + 1),
        (forall|j: int| done <= j < max_polls ==> answers[j])
            ==> poll_run(answers, done, max_polls) == (Err::<(), HalError>(HalError::Timeout), max_polls),
    decreases max_polls - done,
{
    if done < max_polls {
        lemma_poll_run_from(answers, done + 1, max_polls);
        assert forall|k: int| done <= k < max_polls && !answers[k] && (forall|j: int| done <= j < k ==> answers[j])
            implies poll_run(answers, done, max_polls) == (Ok::<(), HalError>(()), k + 1) by {
            if k > done {
                assert(answers[done]);
                assert forall|j: int| done + 1 <= j < k implies answers[j] by {}
            }
        }
        if forall|j: int| done <= j < max_polls ==> answers[j] {
            assert(answers[done]);
            assert forall|j: int| done + 1 <= j < max_polls implies answers[j] by {}
        }
    }
}

/// Polls `is_set` until it reports the awaited bit clear, at most `max_polls`
/// times, each answer handed to [`poll_step`]; `is_set` is told the number of
/// the poll, from 0. `Ok` as soon as a poll answers `false`, after polls
/// `0..=k` where `k` is the first to answer `false`; `Timeout` when polls
/// `0..max_polls` all answered `true` (none at all for a budget of 0).
pub fn wait_until_clear<F: FnMut(usize) -> bool>(is_set: F, max_polls: usize) -> (r: Result<(), HalError>)
    requires
        forall|j: usize| j < max_polls ==> call_requires(is_set, (j,)),
    ensures
        r == Ok::<(), HalError>(()) || r == Err::<(), HalError>(HalError::Timeout),
        r is Ok ==> exists|k: usize| k < max_polls && #[trigger] call_ensures(is_set, (k,), false)
            && forall|j: usize| j < k ==> call_ensures(is_set, (j,), true),
        r is Err ==> forall|j: usize| j < max_polls ==> call_ensures(is_set, (j,), true),
{
    if max_polls == 0 {
        return Err(HalError::Timeout);
    }
    let ghost f = is_set;
    let mut poll = is_set;
    let mut polls: usize = 0;
    loop
        invariant
            polls < max_polls,
            poll == f,
            f == is_set,
            forall|j: usize| j < max_polls ==> call_requires(f, (j,)),
            forall|j: usize| j < polls ==> call_ensures(f, (j,), true),
        decreases max_polls - polls,
    {
        let set = poll(polls);
        match poll_step(polls, max_polls, set) {
            PollDecision::Done(r) => {
                if !set {
                    assert(call_ensures(f, (polls,), false));
                } else {
                    assert forall|j: usize| j < max_polls implies call_ensures(f, (j,), true) by {
                        if j == polls {
                        }
                    }
                }
                return r;
            },
            PollDecision::PollAgain => {
                polls = polls + 1;
            },
        }
    }
}

/// The `k`-th byte of `data`, or 0 past its end.
pub open spec fn data_byte(data: Seq<u8>, k: int) -> u8 {
    if 0 <= k < data.len() { data[k] } else { 0 }
}

/// Four bytes as a little-endian word: the first byte is shifted out first.
pub open spec fn pack_le(b0: u8, b1: u8, b2: u8, b3: u8) -> u32 {
    (b0 as u32) | ((b1 as u32) << 8u32) | ((b2 as u32) << 16u32) | ((b3 as u32) << 24u32)
}

/// Buffer word `i` as written for `data`: bytes `4i..4i+4`, zero-filled past the end.
pub open spec fn packed_word(data: Seq<u8>, i: int) -> u32 {
    pack_le(data_byte(data, 4 * i), data_byte(data, 4 * i + 1), data_byte(data, 4 * i + 2), data_byte(data, 4 * i + 3))
}

/// Number of buffer words that `len` bytes occupy.
pub open spec fn word_count(len: int) -> int {
    (len + 3) / 4
}

/// The buffer words that carry `data`.
pub open spec fn packed_words(data: Seq<u8>) -> Seq<u32> {
    Seq::new(word_count(data.len() as int) as nat, |i: int| packed_word(data, i))
}

/// Byte `k` (0..4) of a buffer word.
pub open spec fn unpack_byte(word: u32, k: int) -> u8 {
    ((word >> ((8 * k) as u32)) & 0xffu32) as u8
}

/// Byte `i` of the data buffer made of `words`.
pub open spec fn buffer_byte(words: Seq<u32>, i: int) -> u8 {
    unpack_byte(words[i / 4], i % 4)
}

/// Each byte packed into a word is read back unchanged.
pub proof fn lemma_unpack_pack(b0: u8, b1: u8, b2: u8, b3: u8)
    ensures
        unpack_byte(pack_le(b0, b1, b2, b3), 0) == b0,
        unpack_byte(pack_le(b0, b1, b2, b3), 1) == b1,
        unpack_byte(pack_le(b0, b1, b2, b3), 2) == b2,
        unpack_byte(pack_le(b0, b1, b2, b3), 3) == b3,
{
    let w = pack_le(b0, b1, b2, b3);
    assert(w == (b0 as u32) | ((b1 as u32) << 8u32) | ((b2 as u32) << 16u32) | ((b3 as u32) << 24u32));
    assert(
        (((((b0 as u32) | ((b1 as u32) << 8u32) | ((b2 as u32) << 16u32) | ((b3 as u32) << 24u32)) >> 0u32) & 0xffu32) as u8 == b0) &&
        (((((b0 as u32) | ((b1 as u32) << 8u32) | ((b2 as u32) << 16u32) | ((b3 as u32) << 24u32)) >> 8u32) & 0xffu32) as u8 == b1) &&
        (((((b0 as u32) | ((b1 as u32) << 8u32) | ((b2 as u32) << 16u32) | ((b3 as u32) << 24u32)) >> 16u32) & 0xffu32) as u8 == b2) &&
        (((((b0 as u32) | ((b1 as u32) << 8u32) | ((b2 as u32) << 16u32) | ((b3 as u32) << 24u32)) >> 24u32) & 0xffu32) as u8 == b3)
    ) by (bit_vector);
}

/// What the data buffer reads back after `data` was written to it: every byte
/// of `data` (at most the buffer size) is returned unchanged.
pub proof fn lemma_buffer_round_trip(data: Seq<u8>, words: Seq<u32>)
    requires
        data.len() <= SPI2_DATA_BUF_SIZE,
        words.len() == 16,
        forall|i: int| 0 <= i < word_count(data.len() as int) ==> words[i] == packed_word(data, i),
    ensures
        forall|k: int| 0 <= k < data.len() ==> buffer_byte(words, k) == data[k],
{
    assert forall|k: int| 0 <= k < data.len() implies buffer_byte(words, k) == data[k] by {
        let i = k / 4;
        assert(0 <= i < word_count(data.len() as int));
        assert(words[i] == packed_word(data, i));
        lemma_unpack_pack(data_byte(data, 4 * i), data_byte(data, 4 * i + 1), data_byte(data, 4 * i + 2), data_byte(data, 4 * i + 3));
        assert(k == 4 * i + k % 4);
    }
}

/// Clock divisor asked for by `baudrate` on an APB clock of `apb_hz`: at least 2.
pub open spec fn clock_divisor(apb_hz: u32, baudrate: u32) -> int {
    let d = apb_hz / baudrate;
    if d < 2 { 2 } else { d as int }
}

/// Prescaler `pre` leaves a post-divider `n + 1` within 2..=64.
pub open spec fn pre_fits(divisor: int, pre: int) -> bool {
    2 <= divisor / (pre + 1) <= 64
}

/// Prescaler `pre` realises `divisor` exactly.
pub open spec fn pre_exact(divisor: int, pre: int) -> bool {
    pre_fits(divisor, pre) && (pre + 1) * (divisor / (pre + 1)) == divisor
}

/// The prescaler the divider search settles on: the smallest one that is
/// exact, or, when none of the 16 is, the smallest one that fits.
pub open spec fn chosen_pre(divisor: int, pre: int) -> bool {
    &&& 0 <= pre < 16
    &&& pre_fits(divisor, pre)
    &&& {
        ||| pre_exact(divisor, pre) && forall|p: int| 0 <= p < pre ==> !pre_exact(divisor, p)
        ||| (forall|p: int| 0 <= p < 16 ==> !pre_exact(divisor, p))
            && (forall|p: int| 0 <= p < pre ==> !pre_fits(divisor, p))
    }
}

/// High-phase count for a post-divider of `n_plus_one`: about half of it.
pub open spec fn clock_high(n_plus_one: u32) -> u32 {
    if n_plus_one / 2 < 1 { 0 } else { (n_plus_one / 2 - 1) as u32 }
}

/// CLOCK register fields for prescaler `pre` and post-divider `n_plus_one`.
pub open spec fn clock_fields(pre: u32, n_plus_one: u32) -> FieldSet {
    join(join(join(join(
        field_spec(0x3f, 0, (n_plus_one - 1) as u32),
        field_spec(0x3f, 6, clock_high(n_plus_one))),
        field_spec(0x3f, 12, (n_plus_one - 1) as u32)),
        field_spec(0xf, 18, pre)),
        field_spec(1, 31, 0))
}

/// CLOCK register value that runs the bus at the APB clock itself.
pub open spec fn clock_sysclk_word() -> u32 {
    field_spec(1, 31, 1).value
}

/// The GPSPI2 controller at `SPI_BASE`, with its clock gating and reset in the
/// system block at `SYS_BASE`, clocked from an APB clock of `APB_HZ`.
pub struct Esp32Spi2<const SPI_BASE: usize, const SYS_BASE: usize, const APB_HZ: u32> {}

impl<const SPI_BASE: usize, const SYS_BASE: usize, const APB_HZ: u32> Esp32Spi2<SPI_BASE, SYS_BASE, APB_HZ> {
    pub fn new() -> Self {
        Esp32Spi2 {}
    }

    /// The words to store into W0.. so that the controller shifts out `data`
    /// (at most the buffer size); the last word is zero-filled.
    pub fn write_buf(&self, data: &[u8]) -> (words: Vec<u32>)
        requires
            data@.len() <= SPI2_DATA_BUF_SIZE,
        ensures
            words@ == packed_words(data@),
    {
        let words = pack_words(data, 0, data.len());
        assert(data@.subrange(0, data@.len() as int) =~= data@);
        words
    }

    /// Fills `data` from the W0..W15 buffer words: byte `i` of the buffer for
    /// each of the first 64 bytes; bytes past the buffer are left unchanged.
    pub fn read_buf(&self, words: &[u32; 16], data: &mut [u8])
        ensures
            final(data)@.len() == old(data)@.len(),
            forall|i: int| 0 <= i < old(data)@.len() ==> final(data)@[i] == (
                if i < SPI2_DATA_BUF_SIZE { buffer_byte(words@, i) } else { old(data)@[i] }),
    {
        let n = data.len();
        let mut i: usize = 0;
        while i < n
            invariant
                n == data@.len(),
                n == old(data)@.len(),
                words@.len() == 16,
                i <= n,
                forall|k: int| 0 <= k < i ==> data@[k] == (
                    if k < SPI2_DATA_BUF_SIZE { buffer_byte(words@, k) } else { old(data)@[k] }),
                forall|k: int| i <= k < n ==> data@[k] == old(data)@[k],
            decreases n - i,
        {
            if i < SPI2_DATA_BUF_SIZE {
                let word_idx = i / 4;
                let byte_idx = i % 4;
                let b = ((words[word_idx] >> ((byte_idx * 8) as u32)) & 0xFF) as u8;
                data[i] = b;
            }
            i = i + 1;
        }
    }

    /// The QSPI command header in bus order: `[opcode, 0x00, cmd_code, 0x00]`.
    pub fn qspi_header(&self, opcode: u8, cmd_code: u8) -> (h: [u8; 4])
        ensures
            h@ == seq![opcode, 0x00u8, cmd_code, 0x00u8],
    {
        let h = [opcode, 0x00, cmd_code, 0x00];
        assert(h@ =~= seq![opcode, 0x00u8, cmd_code, 0x00u8]);
        h
    }

    /// The CLOCK register value that yields `baudrate`: the APB clock itself
    /// when `baudrate` reaches it, else the divider of the chosen prescaler
    /// (see [`chosen_pre`]); `NotSupport` when no prescaler leaves a
    /// post-divider within 2..=64.
    pub fn configure_clock(&self, baudrate: u32) -> (r: Result<u32, HalError>)
        requires
            baudrate != 0 || APB_HZ == 0,
        ensures
            baudrate >= APB_HZ ==> r == Ok::<u32, HalError>(clock_sysclk_word()),
            baudrate < APB_HZ ==> {
                let d = clock_divisor(APB_HZ, baudrate);
                &&& (r is Err <==> forall|p: int| 0 <= p < 16 ==> !pre_fits(d, p))
                &&& (r is Err ==> r == Err::<u32, HalError>(HalError::NotSupport))
                &&& (r matches Ok(w) ==> exists|pre: int| #[trigger] chosen_pre(d, pre)
                    && w == clock_fields(pre as u32, (d / (pre + 1)) as u32).value)
            },
            r == match clock_setting(APB_HZ, baudrate) {
                Some(w) => Ok::<u32, HalError>(w),
                None => Err(HalError::NotSupport),
            },
    {
        if baudrate >= APB_HZ {
            let f = field(1, 31, 1);
            return Ok(f.value);
        }
        let q = APB_HZ / baudrate;
        let divisor: u32 = if q < 2 { 2 } else { q };
        let ghost d = divisor as int;
        assert(d == clock_divisor(APB_HZ, baudrate));
        let mut best_pre: u32 = 0;
        let mut best_n_plus_one: u32 = 0;
        let mut pre: u32 = 0;
        while pre < 16
            invariant_except_break
                pre <= 16,
                forall|p: int| 0 <= p < pre ==> !pre_exact(d, p),
                best_n_plus_one == 0 ==> forall|p: int| 0 <= p < pre ==> !pre_fits(d, p),
                best_n_plus_one != 0 ==> {
                    &&& best_pre < pre
                    &&& pre_fits(d, best_pre as int)
                    &&& best_n_plus_one == d / (best_pre + 1)
                    &&& forall|p: int| 0 <= p < best_pre ==> !pre_fits(d, p)
                },
            invariant
                d == divisor,
            ensures
                best_n_plus_one == 0 ==> forall|p: int| 0 <= p < 16 ==> !pre_fits(d, p),
                best_n_plus_one != 0 ==> chosen_pre(d, best_pre as int)
                    && best_n_plus_one == d / (best_pre + 1),
            decreases 16 - pre,
        {
            let n_plus_one = divisor / (pre + 1);
            if n_plus_one >= 2 && n_plus_one <= 64 {
                assert((pre + 1) * n_plus_one <= 16 * 64) by (nonlinear_arith)
                    requires pre < 16, n_plus_one <= 64;
                let actual = (pre + 1) * n_plus_one;
                if actual == divisor {
                    best_pre = pre;
                    best_n_plus_one = n_plus_one;
                    assert(pre_exact(d, pre as int));
                    break;
                }
                if best_n_plus_one == 0 {
                    best_pre = pre;
                    best_n_plus_one = n_plus_one;
                }
            }
            pre = pre + 1;
        }
        if best_n_plus_one == 0 {
            proof {
                if exists|p: int| chosen_pre(d, p) {
                    let p = choose|p: int| chosen_pre(d, p);
                    assert(pre_fits(d, p));
                }
            }
            return Err(HalError::NotSupport);
        }
        let n = best_n_plus_one - 1;
        let h: u32 = if best_n_plus_one / 2 < 1 { 0 } else { best_n_plus_one / 2 - 1 };
        let fs = field(0x3f, 0, n).plus(field(0x3f, 6, h)).plus(field(0x3f, 12, n)).plus(
            field(0xf, 18, best_pre)).plus(field(1, 31, 0));
        assert(chosen_pre(d, best_pre as int));
        proof {
            let p = choose|p: int| chosen_pre(d, p);
            lemma_chosen_pre_unique(d, p, best_pre as int);
        }
        Ok(fs.value)
    }
}

} // verus!

verus! {

/// 1 for `true`, 0 for `false`.
pub open spec fn bit_of(b: bool) -> u32 {
    if b { 1 } else { 0 }
}

/// USER fields of a half-duplex MOSI-only transaction: DOUTDIN=0, USR_MOSI set,
/// USR_MISO, USR_COMMAND, USR_ADDR and USR_DUMMY clear.
pub open spec fn user_half_write() -> FieldSet {
    join(join(join(join(join(field_spec(1, 0, 0), field_spec(1, 27, 1)), field_spec(1, 28, 0)),
        field_spec(1, 31, 0)), field_spec(1, 30, 0)), field_spec(1, 29, 0))
}

/// USER fields of a full-duplex transaction: DOUTDIN=1, USR_MOSI and USR_MISO
/// set, USR_COMMAND, USR_ADDR and USR_DUMMY clear.
pub open spec fn user_full_duplex() -> FieldSet {
    join(join(join(join(join(field_spec(1, 0, 1), field_spec(1, 27, 1)), field_spec(1, 28, 1)),
        field_spec(1, 31, 0)), field_spec(1, 30, 0)), field_spec(1, 29, 0))
}

/// USER fields of a QSPI write phase: as a half-duplex write, with
/// FWRITE_QUAD selecting the 4-wire data path.
pub open spec fn user_qspi_write(quad: bool) -> FieldSet {
    join(user_half_write(), field_spec(1, 13, bit_of(quad)))
}

/// USER fields of a QSPI read: header on MOSI, dummy cycles, response on MISO, 1-wire.
pub open spec fn user_qspi_read() -> FieldSet {
    join(join(join(join(join(join(field_spec(1, 0, 0), field_spec(1, 27, 1)), field_spec(1, 28, 1)),
        field_spec(1, 31, 0)), field_spec(1, 30, 0)), field_spec(1, 29, 1)), field_spec(1, 13, 0))
}

/// CTRL.FREAD_QUAD, the master enable of the quad data lines.
pub open spec fn ctrl_quad(quad: bool) -> FieldSet {
    field_spec(1, 15, bit_of(quad))
}

/// USER1 for a QSPI read: 8 dummy cycles (USR_DUMMY_CYCLELEN = 7), no address phase.
pub open spec fn user1_qspi_read() -> u32 {
    join(field_spec(0xff, 0, 7), field_spec(0x1f, 27, 0)).value
}

/// Bytes of a `len`-byte stream carried by chunk `k` (64 bytes per chunk).
pub open spec fn piece(len: int, k: int) -> int {
    if len - 64 * k <= 0 { 0 } else if len - 64 * k < 64 { len - 64 * k } else { 64 }
}

/// Chunks of at most 64 bytes that a `len`-byte stream takes.
pub open spec fn chunk_count(len: int) -> int {
    (len + 63) / 64
}

/// `s` followed by zeros up to `total` bytes.
pub open spec fn padded(s: Seq<u8>, total: int) -> Seq<u8> {
    if total <= s.len() { s } else { s + Seq::new((total - s.len()) as nat, |i: int| EMPTY_WRITE_PAD) }
}

/// Chunk `k` of a half-duplex write of `len` bytes.
pub open spec fn half_write_chunk(len: int, k: int) -> Chunk {
    Chunk {
        ctrl: None,
        user: if k == 0 { Some(user_half_write()) } else { None },
        reset: FifoReset::Tx,
        tx_start: (64 * k) as usize,
        tx_len: piece(len, k) as usize,
        rx_len: 0,
    }
}

pub open spec fn half_write_chunks(len: int) -> Seq<Chunk> {
    Seq::new(chunk_count(len) as nat, |k: int| half_write_chunk(len, k))
}

/// Chunk `k` of a read of `len` bytes, which shifts out pad bytes meanwhile.
pub open spec fn half_read_chunk(len: int, k: int) -> Chunk {
    Chunk {
        ctrl: None,
        user: if k == 0 { Some(user_full_duplex()) } else { None },
        reset: FifoReset::TxRx,
        tx_start: (64 * k) as usize,
        tx_len: piece(len, k) as usize,
        rx_len: piece(len, k) as usize,
    }
}

pub open spec fn half_read_chunks(len: int) -> Seq<Chunk> {
    Seq::new(chunk_count(len) as nat, |k: int| half_read_chunk(len, k))
}

/// Chunk `k` of a full-duplex transfer writing `wlen` bytes and reading
/// `rlen`: the data phase covers the longer side.
pub open spec fn full_duplex_chunk(wlen: int, rlen: int, k: int) -> Chunk {
    Chunk {
        ctrl: None,
        user: if k == 0 { Some(user_full_duplex()) } else { None },
        reset: FifoReset::TxRx,
        tx_start: (64 * k) as usize,
        tx_len: (if piece(wlen, k) < piece(rlen, k) { piece(rlen, k) } else { piece(wlen, k) }) as usize,
        rx_len: piece(rlen, k) as usize,
    }
}

pub open spec fn full_duplex_chunks(wlen: int, rlen: int) -> Seq<Chunk> {
    Seq::new(chunk_count(if wlen < rlen { rlen } else { wlen }) as nat, |k: int| full_duplex_chunk(wlen, rlen, k))
}

/// The 4-byte QSPI header sent as its own 1-wire transaction.
pub open spec fn qspi_header_chunk() -> Chunk {
    Chunk { ctrl: None, user: Some(user_qspi_write(false)), reset: FifoReset::Tx, tx_start: 0, tx_len: 4, rx_len: 0 }
}

/// Chunk `k` of the payload of a QSPI write of `len` bytes (the stream
/// holds the header first).
pub open spec fn qspi_data_chunk(len: int, quad: bool, k: int) -> Chunk {
    Chunk {
        ctrl: if k == 0 { Some(ctrl_quad(quad)) } else { None },
        user: Some(user_qspi_write(quad)),
        reset: FifoReset::Tx,
        tx_start: (4 + 64 * k) as usize,
        tx_len: piece(len, k) as usize,
        rx_len: 0,
    }
}

pub open spec fn qspi_write_chunks(len: int, quad: bool) -> Seq<Chunk> {
    seq![qspi_header_chunk()] + Seq::new(chunk_count(len) as nat, |k: int| qspi_data_chunk(len, quad, k))
}

/// The chunks of a QSPI pixel write of `len` bytes: the payload goes out on four wires.
pub open spec fn pixel_write_chunks(len: int) -> Seq<Chunk> {
    qspi_write_chunks(len, true)
}

/// The chunks of a QSPI command write with `len` parameter bytes: all on one wire.
pub open spec fn command_write_chunks(len: int) -> Seq<Chunk> {
    qspi_write_chunks(len, false)
}

/// Chunk `k` of a QSPI read of `len` bytes: the header goes out and up to 64
/// response bytes come back in the same transaction.
pub open spec fn qspi_read_chunk(len: int, k: int) -> Chunk {
    Chunk { ctrl: None, user: None, reset: FifoReset::TxRx, tx_start: 0, tx_len: 4, rx_len: piece(len, k) as usize }
}

pub open spec fn qspi_read_chunks(len: int) -> Seq<Chunk> {
    Seq::new(chunk_count(len) as nat, |k: int| qspi_read_chunk(len, k))
}

/// Setup of a QSPI read: CTRL.FREAD_QUAD cleared, so the response comes in
/// on one wire whatever an earlier pixel write left there, then 8 dummy
/// cycles and the 1-wire USER fields of a read.
pub open spec fn qspi_read_setup() -> Seq<SpiStep> {
    seq![
        SpiStep::Modify(SpiReg::Ctrl, ctrl_quad(false)),
        SpiStep::Write(SpiReg::User1, user1_qspi_read()),
        SpiStep::Modify(SpiReg::User, user_qspi_read()),
    ]
}

/// The QSPI header bytes.
pub open spec fn header_bytes(opcode: u8, cmd_code: u8) -> Seq<u8> {
    seq![opcode, 0x00u8, cmd_code, 0x00u8]
}

/// The program of a transaction that runs `setup`, then `chunks`, over the
/// transmit stream `tx`, and completes with `completion`.
pub open spec fn runs(t: SpiTransaction, setup: Seq<SpiStep>, chunks: Seq<Chunk>, tx: Seq<u8>,
    completion: Result<(), HalError>) -> bool {
    &&& t.steps() == setup + chunks_steps(chunks)
    &&& t.tx() == tx
    &&& t.completion() == completion
    &&& t.fresh()
    &&& t.wf()
}

/// The register steps that enable the SPI2 clocks and pulse its reset.
pub open spec fn enable_steps(soc: Soc) -> Seq<SpiStep> {
    let gate = SpiStep::Write(SpiReg::ClkGate,
        join(join(field_spec(1, 0, 1), field_spec(1, 1, 1)), field_spec(1, 2, 1)).value);
    match soc {
        Soc::Esp32C3 => seq![
            SpiStep::Modify(SpiReg::SysPeripClkEn0, field_spec(1, 6, 1)),
            SpiStep::Modify(SpiReg::SysPeripRstEn0, field_spec(1, 6, 1)),
            SpiStep::Modify(SpiReg::SysPeripRstEn0, field_spec(1, 6, 0)),
            gate,
        ],
        Soc::Esp32C6 => seq![
            SpiStep::Modify(SpiReg::PcrSpi2Conf, join(field_spec(1, 0, 1), field_spec(1, 1, 0))),
            SpiStep::Modify(SpiReg::PcrSpi2Conf, field_spec(1, 1, 1)),
            SpiStep::Modify(SpiReg::PcrSpi2ClkmConf, join(field_spec(3, 20, 1), field_spec(1, 22, 1))),
            gate,
        ],
    }
}

/// The register steps that stop the SPI2 clocks.
pub open spec fn disable_steps(soc: Soc) -> Seq<SpiStep> {
    let stop = SpiStep::Modify(SpiReg::ClkGate, field_spec(1, 1, 0));
    match soc {
        Soc::Esp32C3 => seq![stop, SpiStep::Modify(SpiReg::SysPeripClkEn0, field_spec(1, 6, 0))],
        Soc::Esp32C6 => seq![
            stop,
            SpiStep::Modify(SpiReg::PcrSpi2ClkmConf, field_spec(1, 22, 0)),
            SpiStep::Modify(SpiReg::PcrSpi2Conf, field_spec(1, 0, 0)),
        ],
    }
}

/// MISC.CK_IDLE_EDGE: the clock idles at the polarity's level.
pub open spec fn idle_edge(p: SpiPolarity) -> FieldSet {
    field_spec(1, 29, bit_of(p == SpiPolarity::High))
}

/// USER.CK_OUT_EDGE: data changes on the trailing edge in modes 1 and 2.
pub open spec fn out_edge(p: SpiPolarity, ph: SpiPhase) -> FieldSet {
    field_spec(1, 9, bit_of((p == SpiPolarity::High) != (ph == SpiPhase::Phase1)))
}

/// CTRL.RD_BIT_ORDER and CTRL.WR_BIT_ORDER: 1 for LSB first.
pub open spec fn bit_order_fields(o: SpiBitOrder) -> FieldSet {
    join(field_spec(1, 25, bit_of(o == SpiBitOrder::LsbFirst)), field_spec(1, 26, bit_of(o == SpiBitOrder::LsbFirst)))
}

/// MISC: all six hardware chip selects disabled, CS_KEEP_ACTIVE clear.
pub open spec fn cs_disabled() -> FieldSet {
    join(join(join(join(join(join(field_spec(1, 0, 1), field_spec(1, 1, 1)), field_spec(1, 2, 1)),
        field_spec(1, 3, 1)), field_spec(1, 4, 1)), field_spec(1, 5, 1)), field_spec(1, 30, 0))
}

/// The register steps of `configure` up to the clock divider.
pub open spec fn configure_prefix(config: SpiConfig, soc: Soc) -> Seq<SpiStep> {
    enable_steps(soc) + seq![
        SpiStep::Write(SpiReg::Slave, join(field_spec(1, 26, 0), field_spec(1, 27, 1)).value),
        SpiStep::Modify(SpiReg::Slave, field_spec(1, 27, 0)),
        SpiStep::Write(SpiReg::DmaConf, join(field_spec(1, 27, 0), field_spec(1, 28, 0)).value),
    ] + reset_steps(FifoReset::TxRx) + seq![
        SpiStep::Modify(SpiReg::Misc, idle_edge(config.polarity)),
        SpiStep::Modify(SpiReg::User, out_edge(config.polarity, config.phase)),
        SpiStep::Modify(SpiReg::Ctrl, bit_order_fields(config.bit_order)),
    ]
}

impl<const SPI_BASE: usize, const SYS_BASE: usize, const APB_HZ: u32> Esp32Spi2<SPI_BASE, SYS_BASE, APB_HZ> {
    /// The set-then-clear pulse of the TX FIFO reset (`DMA_CONF.BUF_AFIFO_RST`).
    pub fn reset_tx_fifo(&self) -> (s: Vec<SpiStep>)
        ensures
            s@ == reset_steps(FifoReset::Tx),
    {
        self.reset_fifo(FifoReset::Tx)
    }

    /// The set-then-clear pulse of the RX FIFO reset (`DMA_CONF.RX_AFIFO_RST`).
    pub fn reset_rx_fifo(&self) -> (s: Vec<SpiStep>)
        ensures
            s@ == seq![SpiStep::Modify(SpiReg::DmaConf, field_spec(1, 29, 1)),
                SpiStep::Modify(SpiReg::DmaConf, field_spec(1, 29, 0))],
    {
        let mut s: Vec<SpiStep> = Vec::new();
        s.push(SpiStep::Modify(SpiReg::DmaConf, field(1, 29, 1)));
        s.push(SpiStep::Modify(SpiReg::DmaConf, field(1, 29, 0)));
        assert(s@ =~= seq![SpiStep::Modify(SpiReg::DmaConf, field_spec(1, 29, 1)),
            SpiStep::Modify(SpiReg::DmaConf, field_spec(1, 29, 0))]);
        s
    }

    /// The set-then-clear pulse of both FIFO resets at once.
    pub fn reset_tx_rx_fifo(&self) -> (s: Vec<SpiStep>)
        ensures
            s@ == reset_steps(FifoReset::TxRx),
    {
        self.reset_fifo(FifoReset::TxRx)
    }

    fn reset_fifo(&self, r: FifoReset) -> (s: Vec<SpiStep>)
        ensures
            s@ == reset_steps(r),
    {
        let (set, clear) = match r {
            FifoReset::Tx => (field(1, 30, 1), field(1, 30, 0)),
            FifoReset::TxRx => (field(1, 30, 1).plus(field(1, 29, 1)), field(1, 30, 0).plus(field(1, 29, 0))),
        };
        let mut s: Vec<SpiStep> = Vec::new();
        s.push(SpiStep::Modify(SpiReg::DmaConf, set));
        s.push(SpiStep::Modify(SpiReg::DmaConf, clear));
        assert(s@ =~= reset_steps(r));
        s
    }

    /// The steps that start a USER transaction (see [`start_transfer_steps`]).
    pub fn start_transfer(&self) -> (s: Vec<SpiStep>)
        ensures
            s@ == start_transfer_steps(),
    {
        let update = field(1, 23, 1);
        let usr = field(1, 24, 1);
        let done = field(1, 12, 1);
        let mut s: Vec<SpiStep> = Vec::new();
        s.push(SpiStep::Modify(SpiReg::Cmd, update));
        s.push(SpiStep::Poll { reg: SpiReg::Cmd, mask: update.value, until_set: false, on_timeout: OnTimeout::Abort });
        s.push(SpiStep::Write(SpiReg::DmaIntClr, done.value));
        s.push(SpiStep::Modify(SpiReg::Cmd, usr));
        s.push(SpiStep::Poll { reg: SpiReg::Cmd, mask: usr.value, until_set: false,
            on_timeout: OnTimeout::CountAndAbort(TimeoutCounter::Usr) });
        assert(s@ =~= start_transfer_steps());
        s
    }

    /// The steps that wait for the end of a USER transaction (see [`wait_done_steps`]).
    pub fn wait_done(&self) -> (s: Vec<SpiStep>)
        ensures
            s@ == wait_done_steps(),
    {
        let done = field(1, 12, 1);
        let mut s: Vec<SpiStep> = Vec::new();
        s.push(SpiStep::Poll { reg: SpiReg::DmaIntRaw, mask: done.value, until_set: true,
            on_timeout: OnTimeout::CountAndContinue(TimeoutCounter::TransDone) });
        s.push(SpiStep::Write(SpiReg::DmaIntClr, done.value));
        assert(s@ =~= wait_done_steps());
        s
    }

    /// Appends the steps of chunk `c`.
    #[verifier::rlimit(60)]
    fn push_chunk(&self, steps: &mut Vec<SpiStep>, c: Chunk)
        requires
            0 < c.tx_len <= 64,
        ensures
            final(steps)@ == old(steps)@ + chunk_steps(c),
    {
        let ghost s0 = steps@;
        let ghost a = crate::spi::transaction::optional_modify(SpiReg::Ctrl, c.ctrl);
        let ghost b = crate::spi::transaction::optional_modify(SpiReg::User, c.user);
        if let Some(f) = c.ctrl {
            steps.push(SpiStep::Modify(SpiReg::Ctrl, f));
        }
        assert(steps@ =~= s0 + a);
        if let Some(f) = c.user {
            steps.push(SpiStep::Modify(SpiReg::User, f));
        }
        assert(steps@ =~= s0 + a + b);
        let ghost s1 = steps@;
        let mut r = self.reset_fifo(c.reset);
        steps.append(&mut r);
        assert(steps@ =~= s1 + reset_steps(c.reset));
        let ghost s2 = steps@;
        let bits: u32 = (c.tx_len * 8 - 1) as u32;
        let bitlen = field(0x3ffff, 0, bits);
        assert(bitlen.value == bitlen_word(c.tx_len as int));
        steps.push(SpiStep::Write(SpiReg::MsDlen, bitlen.value));
        steps.push(SpiStep::LoadTx { start: c.tx_start, len: c.tx_len });
        let ghost mid = seq![SpiStep::Write(SpiReg::MsDlen, bitlen_word(c.tx_len as int)),
            SpiStep::LoadTx { start: c.tx_start, len: c.tx_len }];
        assert(steps@ =~= s2 + mid);
        let ghost s3 = steps@;
        let mut st = self.start_transfer();
        steps.append(&mut st);
        assert(steps@ =~= s3 + start_transfer_steps());
        let ghost s4 = steps@;
        let mut wd = self.wait_done();
        steps.append(&mut wd);
        assert(steps@ =~= s4 + wait_done_steps());
        let ghost s5 = steps@;
        let ghost tail = if c.rx_len > 0 { seq![SpiStep::Receive(c.rx_len)] } else { Seq::<SpiStep>::empty() };
        if c.rx_len > 0 {
            steps.push(SpiStep::Receive(c.rx_len));
        }
        assert(steps@ =~= s5 + tail);
        assert(chunk_steps(c) =~= a + b + reset_steps(c.reset) + mid + start_transfer_steps() + wait_done_steps() + tail);
        assert(steps@ =~= old(steps)@ + chunk_steps(c));
    }

    /// The transaction that runs `setup` then `chunks` over `tx`.
    fn assemble(&self, setup: Vec<SpiStep>, chunks: &Vec<Chunk>, tx: Vec<u8>, completion: Result<(), HalError>)
        -> (t: SpiTransaction)
        requires
            program_fits(setup@, tx@.len() as int),
            forall|k: int| 0 <= k < chunks@.len() ==> chunk_fits(#[trigger] chunks@[k], tx@.len() as int),
        ensures
            runs(t, setup@, chunks@, tx@, completion),
    {
        let ghost cs = chunks@;
        let mut steps = setup;
        let mut k: usize = 0;
        while k < chunks.len()
            invariant
                cs == chunks@,
                k <= cs.len(),
                steps@ == setup@ + chunks_steps(cs.take(k as int)),
                forall|j: int| 0 <= j < cs.len() ==> chunk_fits(#[trigger] cs[j], tx@.len() as int),
            decreases cs.len() - k,
        {
            let c = chunks[k];
            assert(chunk_fits(cs[k as int], tx@.len() as int));
            self.push_chunk(&mut steps, c);
            proof {
                lemma_chunks_steps_push(cs.take(k as int), c);
                assert(cs.take(k as int).push(c) =~= cs.take(k + 1));
            }
            k = k + 1;
        }
        proof {
            assert(cs.take(cs.len() as int) =~= cs);
            lemma_chunks_steps_fit(cs, tx@.len() as int);
            lemma_program_fits_append(setup@, chunks_steps(cs), tx@.len() as int);
        }
        SpiTransaction::new(steps, tx, completion)
    }
}

/// Bytes of a `len`-byte stream carried by the chunk starting at `start`.
fn piece_at(len: usize, start: usize) -> (n: usize)
    ensures
        n == piece(len as int, start as int / 64) || start % 64 != 0,
        start % 64 == 0 ==> n == piece(len as int, start as int / 64),
        n <= 64,
{
    if start >= len { 0 } else if len - start < 64 { len - start } else { 64 }
}

/// `a` then `b`, then pad bytes up to `total` bytes.
fn concat_padded(a: &[u8], b: &[u8], total: usize) -> (r: Vec<u8>)
    ensures
        r@ == padded(a@ + b@, total as int),
{
    let mut r: Vec<u8> = Vec::new();
    let mut i: usize = 0;
    while i < a.len()
        invariant
            i <= a@.len(),
            r@ == a@.subrange(0, i as int),
        decreases a@.len() - i,
    {
        r.push(a[i]);
        i = i + 1;
        assert(r@ =~= a@.subrange(0, i as int));
    }
    assert(a@.subrange(0, a@.len() as int) =~= a@);
    let mut j: usize = 0;
    while j < b.len()
        invariant
            j <= b@.len(),
            r@ == a@ + b@.subrange(0, j as int),
        decreases b@.len() - j,
    {
        r.push(b[j]);
        j = j + 1;
        assert(r@ =~= a@ + b@.subrange(0, j as int));
    }
    assert(b@.subrange(0, b@.len() as int) =~= b@);
    let ghost ab = a@ + b@;
    assert(r@ == ab);
    while r.len() < total
        invariant
            ab.len() <= r@.len(),
            r@.subrange(0, ab.len() as int) == ab,
            forall|k: int| ab.len() <= k < r@.len() ==> r@[k] == EMPTY_WRITE_PAD,
            r@.len() <= ab.len() || r@.len() <= total,
        decreases total - r@.len(),
    {
        r.push(EMPTY_WRITE_PAD);
    }
    assert(r@ =~= padded(ab, total as int));
    r
}

} // verus!

verus! {

/// A stream chunk `k` that starts before the end of the stream is non-empty.
pub proof fn lemma_chunk_count(len: int, k: int)
    requires
        0 <= len,
        0 <= k,
    ensures
        k < chunk_count(len) <==> 64 * k < len,
{
}

/// The longer side of a full-duplex chunk is the chunk of the longer stream.
pub proof fn lemma_piece_max(wlen: int, rlen: int, k: int)
    ensures
        (if piece(wlen, k) < piece(rlen, k) { piece(rlen, k) } else { piece(wlen, k) })
            == piece(if wlen < rlen { rlen } else { wlen }, k),
{
}

fn user_half_write_fields() -> (f: FieldSet)
    ensures
        f == user_half_write(),
{
    field(1, 0, 0).plus(field(1, 27, 1)).plus(field(1, 28, 0)).plus(field(1, 31, 0)).plus(field(1, 30, 0)).plus(
        field(1, 29, 0))
}

fn user_full_duplex_fields() -> (f: FieldSet)
    ensures
        f == user_full_duplex(),
{
    field(1, 0, 1).plus(field(1, 27, 1)).plus(field(1, 28, 1)).plus(field(1, 31, 0)).plus(field(1, 30, 0)).plus(
        field(1, 29, 0))
}

fn user_qspi_write_fields(quad: bool) -> (f: FieldSet)
    ensures
        f == user_qspi_write(quad),
{
    user_half_write_fields().plus(field(1, 13, if quad { 1 } else { 0 }))
}

fn user_qspi_read_fields() -> (f: FieldSet)
    ensures
        f == user_qspi_read(),
{
    field(1, 0, 0).plus(field(1, 27, 1)).plus(field(1, 28, 1)).plus(field(1, 31, 0)).plus(field(1, 30, 0)).plus(
        field(1, 29, 1)).plus(field(1, 13, 0))
}

impl<const SPI_BASE: usize, const SYS_BASE: usize, const APB_HZ: u32> Esp32Spi2<SPI_BASE, SYS_BASE, APB_HZ> {
    /// Half-duplex MOSI-only write of `data`, in chunks of the buffer size;
    /// nothing at all for empty data.
    pub fn do_half_duplex_write(&self, data: &[u8]) -> (t: SpiTransaction)
        ensures
            runs(t, seq![], half_write_chunks(data@.len() as int), data@, Ok(())),
    {
        let n = data.len();
        let count = n / 64 + if n % 64 != 0 { 1 } else { 0 };
        let user = user_half_write_fields();
        let mut chunks: Vec<Chunk> = Vec::new();
        let mut k: usize = 0;
        while k < count
            invariant
                n == data@.len(),
                count == chunk_count(n as int),
                k <= count,
                user == user_half_write(),
                chunks@ == half_write_chunks(n as int).take(k as int),
                forall|j: int| 0 <= j < k ==> chunk_fits(#[trigger] chunks@[j], n as int),
            decreases count - k,
        {
            proof { lemma_chunk_count(n as int, k as int); }
            let start = 64 * k;
            let c = Chunk {
                ctrl: None,
                user: if k == 0 { Some(user) } else { None },
                reset: FifoReset::Tx,
                tx_start: start,
                tx_len: piece_at(n, start),
                rx_len: 0,
            };
            assert(c == half_write_chunk(n as int, k as int));
            chunks.push(c);
            k = k + 1;
            assert(chunks@ =~= half_write_chunks(n as int).take(k as int));
        }
        assert(half_write_chunks(n as int).take(count as int) =~= half_write_chunks(n as int));
        let tx = concat_padded(data, &[], 0);
        assert(data@ + Seq::<u8>::empty() =~= data@);
        self.assemble(Vec::new(), &chunks, tx, Ok(()))
    }

    /// Read of `len` bytes, run full-duplex with pad bytes shifted out (a
    /// MISO-only read returns misaligned data); nothing at all for `len == 0`.
    /// The bytes read are the transaction's received bytes.
    pub fn do_half_duplex_read(&self, len: usize) -> (t: SpiTransaction)
        ensures
            runs(t, seq![], half_read_chunks(len as int), padded(Seq::<u8>::empty(), len as int), Ok(())),
    {
        let n = len;
        let count = n / 64 + if n % 64 != 0 { 1 } else { 0 };
        let user = user_full_duplex_fields();
        let mut chunks: Vec<Chunk> = Vec::new();
        let mut k: usize = 0;
        while k < count
            invariant
                count == chunk_count(n as int),
                k <= count,
                user == user_full_duplex(),
                chunks@ == half_read_chunks(n as int).take(k as int),
                forall|j: int| 0 <= j < k ==> chunk_fits(#[trigger] chunks@[j], n as int),
            decreases count - k,
        {
            proof { lemma_chunk_count(n as int, k as int); }
            let start = 64 * k;
            let p = piece_at(n, start);
            let c = Chunk {
                ctrl: None,
                user: if k == 0 { Some(user) } else { None },
                reset: FifoReset::TxRx,
                tx_start: start,
                tx_len: p,
                rx_len: p,
            };
            assert(c == half_read_chunk(n as int, k as int));
            chunks.push(c);
            k = k + 1;
            assert(chunks@ =~= half_read_chunks(n as int).take(k as int));
        }
        assert(half_read_chunks(n as int).take(count as int) =~= half_read_chunks(n as int));
        let none: [u8; 0] = [];
        let tx = concat_padded(&none, &none, n);
        assert(none@ + none@ =~= Seq::<u8>::empty());
        self.assemble(Vec::new(), &chunks, tx, Ok(()))
    }

    /// Full-duplex transfer writing `write` while reading `read_len` bytes,
    /// in chunks of the buffer size; the shorter side is padded. Nothing at
    /// all when both are empty. The bytes read are the received bytes.
    pub fn do_full_duplex_transfer(&self, read_len: usize, write: &[u8]) -> (t: SpiTransaction)
        ensures
            runs(t, seq![], full_duplex_chunks(write@.len() as int, read_len as int),
                padded(write@, read_len as int), Ok(())),
    {
        let wlen = write.len();
        let rlen = read_len;
        let m = if wlen < rlen { rlen } else { wlen };
        let count = m / 64 + if m % 64 != 0 { 1 } else { 0 };
        let user = user_full_duplex_fields();
        let ghost txlen = padded(write@, rlen as int).len();
        assert(txlen == m);
        let mut chunks: Vec<Chunk> = Vec::new();
        let mut k: usize = 0;
        while k < count
            invariant
                wlen == write@.len(),
                m == (if wlen < rlen { rlen } else { wlen }),
                txlen == m,
                count == chunk_count(m as int),
                k <= count,
                user == user_full_duplex(),
                chunks@ == full_duplex_chunks(wlen as int, rlen as int).take(k as int),
                forall|j: int| 0 <= j < k ==> chunk_fits(#[trigger] chunks@[j], txlen as int),
            decreases count - k,
        {
            proof {
                lemma_chunk_count(m as int, k as int);
                lemma_piece_max(wlen as int, rlen as int, k as int);
            }
            let start = 64 * k;
            let write_inc = piece_at(wlen, start);
            let read_inc = piece_at(rlen, start);
            let this_len = if write_inc < read_inc { read_inc } else { write_inc };
            let c = Chunk {
                ctrl: None,
                user: if k == 0 { Some(user) } else { None },
                reset: FifoReset::TxRx,
                tx_start: start,
                tx_len: this_len,
                rx_len: read_inc,
            };
            assert(c == full_duplex_chunk(wlen as int, rlen as int, k as int));
            chunks.push(c);
            k = k + 1;
            assert(chunks@ =~= full_duplex_chunks(wlen as int, rlen as int).take(k as int));
        }
        assert(full_duplex_chunks(wlen as int, rlen as int).take(count as int) =~= full_duplex_chunks(
            wlen as int, rlen as int));
        let tx = concat_padded(write, &[], rlen);
        assert(write@ + Seq::<u8>::empty() =~= write@);
        self.assemble(Vec::new(), &chunks, tx, Ok(()))
    }

    /// The 4-byte QSPI header as a standalone 1-wire MOSI transaction.
    pub fn qspi_send_header(&self, opcode: u8, cmd_code: u8) -> (t: SpiTransaction)
        ensures
            runs(t, seq![], seq![qspi_header_chunk()], header_bytes(opcode, cmd_code), Ok(())),
    {
        let header = self.qspi_header(opcode, cmd_code);
        let tx = concat_padded(&header, &[], 0);
        assert(header@ + Seq::<u8>::empty() =~= header_bytes(opcode, cmd_code));
        let mut chunks: Vec<Chunk> = Vec::new();
        chunks.push(Chunk {
            ctrl: None,
            user: Some(user_qspi_write_fields(false)),
            reset: FifoReset::Tx,
            tx_start: 0,
            tx_len: QSPI_HEADER_LEN,
            rx_len: 0,
        });
        assert(chunks@ =~= seq![qspi_header_chunk()]);
        self.assemble(Vec::new(), &chunks, tx, Ok(()))
    }

    /// QSPI write: the header `[opcode, 0, cmd_code, 0]` as its own 1-wire
    /// transaction, then `data` in chunks of the buffer size, 4-wire when
    /// `quad_data` (CTRL.FREAD_QUAD is set with the first chunk).
    pub fn do_qspi_write(&self, opcode: u8, cmd_code: u8, data: &[u8], quad_data: bool) -> (t: SpiTransaction)
        ensures
            runs(t, seq![], qspi_write_chunks(data@.len() as int, quad_data),
                header_bytes(opcode, cmd_code) + data@, Ok(())),
    {
        let header = self.qspi_header(opcode, cmd_code);
        let n = data.len();
        let count = n / 64 + if n % 64 != 0 { 1 } else { 0 };
        let tx = concat_padded(&header, data, 0);
        let ghost txlen = tx@.len();
        assert(txlen == 4 + n);
        let user = user_qspi_write_fields(quad_data);
        let ctrl = field(1, 15, if quad_data { 1 } else { 0 });
        let mut chunks: Vec<Chunk> = Vec::new();
        chunks.push(Chunk {
            ctrl: None,
            user: Some(user_qspi_write_fields(false)),
            reset: FifoReset::Tx,
            tx_start: 0,
            tx_len: QSPI_HEADER_LEN,
            rx_len: 0,
        });
        let ghost data_chunks = Seq::new(chunk_count(n as int) as nat, |k: int| qspi_data_chunk(n as int, quad_data, k));
        assert(chunks@ =~= seq![qspi_header_chunk()] + data_chunks.take(0));
        let mut k: usize = 0;
        while k < count
            invariant
                n == data@.len(),
                txlen == 4 + n,
                count == chunk_count(n as int),
                data_chunks == Seq::new(chunk_count(n as int) as nat, |k: int| qspi_data_chunk(n as int, quad_data, k)),
                k <= count,
                user == user_qspi_write(quad_data),
                ctrl == ctrl_quad(quad_data),
                chunks@ == seq![qspi_header_chunk()] + data_chunks.take(k as int),
                forall|j: int| 0 <= j < chunks@.len() ==> chunk_fits(#[trigger] chunks@[j], txlen as int),
            decreases count - k,
        {
            proof { lemma_chunk_count(n as int, k as int); }
            let start = 64 * k;
            let c = Chunk {
                ctrl: if k == 0 { Some(ctrl) } else { None },
                user: Some(user),
                reset: FifoReset::Tx,
                tx_start: 4 + start,
                tx_len: piece_at(n, start),
                rx_len: 0,
            };
            assert(c == qspi_data_chunk(n as int, quad_data, k as int));
            chunks.push(c);
            k = k + 1;
            assert(chunks@ =~= seq![qspi_header_chunk()] + data_chunks.take(k as int));
        }
        assert(data_chunks.take(count as int) =~= data_chunks);
        assert(padded(header@ + data@, 0) == header_bytes(opcode, cmd_code) + data@);
        self.assemble(Vec::new(), &chunks, tx, Ok(()))
    }

    /// QSPI read: CTRL.FREAD_QUAD cleared, then `[opcode, 0, cmd_code, 0]` on
    /// MOSI, 8 dummy cycles, and the response on MISO, all on one wire, one
    /// transaction per chunk of the buffer size; for `len == 0`, the header
    /// alone. The bytes read are the received bytes.
    pub fn do_qspi_read(&self, opcode: u8, cmd_code: u8, len: usize) -> (t: SpiTransaction)
        ensures
            len == 0 ==> runs(t, seq![], seq![qspi_header_chunk()], header_bytes(opcode, cmd_code), Ok(())),
            len > 0 ==> runs(t, qspi_read_setup(), qspi_read_chunks(len as int), header_bytes(opcode, cmd_code), Ok(())),
    {
        if len == 0 {
            return self.qspi_send_header(opcode, cmd_code);
        }
        let header = self.qspi_header(opcode, cmd_code);
        let tx = concat_padded(&header, &[], 0);
        assert(header@ + Seq::<u8>::empty() =~= header_bytes(opcode, cmd_code));
        let n = len;
        let count = n / 64 + if n % 64 != 0 { 1 } else { 0 };
        let mut setup: Vec<SpiStep> = Vec::new();
        setup.push(SpiStep::Modify(SpiReg::Ctrl, field(1, 15, 0)));
        let user1 = field(0xff, 0, 7).plus(field(0x1f, 27, 0));
        setup.push(SpiStep::Write(SpiReg::User1, user1.value));
        setup.push(SpiStep::Modify(SpiReg::User, user_qspi_read_fields()));
        let ghost setup_spec = qspi_read_setup();
        assert(setup@ =~= setup_spec);
        assert(program_fits(setup@, 4)) by {
            assert forall|i: int| 0 <= i < setup@.len() implies match #[trigger] setup@[i] {
                SpiStep::LoadTx { start, len } => start + len <= 4 && len <= 64,
                SpiStep::Receive(n) => n <= 64,
                _ => true,
            } by {
                assert(setup@[i] == setup_spec[i]);
            }
        }
        let mut chunks: Vec<Chunk> = Vec::new();
        let mut k: usize = 0;
        while k < count
            invariant
                count == chunk_count(n as int),
                k <= count,
                chunks@ == qspi_read_chunks(n as int).take(k as int),
                forall|j: int| 0 <= j < k ==> chunk_fits(#[trigger] chunks@[j], 4),
            decreases count - k,
        {
            proof { lemma_chunk_count(n as int, k as int); }
            let start = 64 * k;
            let c = Chunk {
                ctrl: None,
                user: None,
                reset: FifoReset::TxRx,
                tx_start: 0,
                tx_len: QSPI_HEADER_LEN,
                rx_len: piece_at(n, start),
            };
            assert(c == qspi_read_chunk(n as int, k as int));
            chunks.push(c);
            k = k + 1;
            assert(chunks@ =~= qspi_read_chunks(n as int).take(k as int));
        }
        assert(qspi_read_chunks(n as int).take(count as int) =~= qspi_read_chunks(n as int));
        self.assemble(setup, &chunks, tx, Ok(()))
    }
}

} // verus!

verus! {

/// The register steps of `configure` for `config` on an APB clock of
/// `apb_hz`: the common prefix, then the divider and the chip selects when
/// the divider can realise the baud rate.
pub open spec fn configure_steps(config: SpiConfig, soc: Soc, apb_hz: u32) -> Seq<SpiStep> {
    configure_prefix(config, soc) + match clock_setting(apb_hz, config.baudrate) {
        Some(w) => seq![SpiStep::Write(SpiReg::Clock, w), SpiStep::Modify(SpiReg::Misc, cs_disabled())],
        None => Seq::<SpiStep>::empty(),
    }
}

/// The result of `configure`: `NotSupport` exactly when the divider cannot
/// realise the baud rate.
pub open spec fn configure_result(config: SpiConfig, apb_hz: u32) -> Result<(), HalError> {
    match clock_setting(apb_hz, config.baudrate) {
        Some(_) => Ok(()),
        None => Err(HalError::NotSupport),
    }
}

/// The chip-select pin of a configuration plays no part in `configure`
/// (chip select is a GPIO that the caller drives): two configurations that
/// differ only there give the same register program and the same result.
pub proof fn lemma_configure_ignores_cs_pin(c1: SpiConfig, c2: SpiConfig, soc: Soc, apb_hz: u32)
    requires
        c1.baudrate == c2.baudrate,
        c1.phase == c2.phase,
        c1.polarity == c2.polarity,
        c1.bit_order == c2.bit_order,
    ensures
        configure_steps(c1, soc, apb_hz) == configure_steps(c2, soc, apb_hz),
        configure_result(c1, apb_hz) == configure_result(c2, apb_hz),
{
}

/// The CLOCK register value for `baudrate` on an APB clock of `apb_hz`, or
/// `None` when the divider cannot realise it.
pub open spec fn clock_setting(apb_hz: u32, baudrate: u32) -> Option<u32> {
    if baudrate >= apb_hz {
        Some(clock_sysclk_word())
    } else {
        let d = clock_divisor(apb_hz, baudrate);
        if exists|p: int| chosen_pre(d, p) {
            let p = choose|p: int| chosen_pre(d, p);
            Some(clock_fields(p as u32, (d / (p + 1)) as u32).value)
        } else {
            None
        }
    }
}

/// At most one prescaler is the chosen one.
pub proof fn lemma_chosen_pre_unique(d: int, a: int, b: int)
    requires
        chosen_pre(d, a),
        chosen_pre(d, b),
    ensures
        a == b,
{
    if a < b {
        assert(pre_fits(d, a));
        if pre_exact(d, a) {
            assert(!pre_exact(d, b) || !(forall|p: int| 0 <= p < b ==> !pre_exact(d, p)));
        }
    } else if b < a {
        assert(pre_fits(d, b));
        if pre_exact(d, b) {
            assert(!pre_exact(d, a) || !(forall|p: int| 0 <= p < a ==> !pre_exact(d, p)));
        }
    }
}

/// The divider search realises the requested divisor exactly whenever one
/// of the 16 prescalers can.
pub proof fn lemma_clock_exact_when_possible(d: int, pre: int, q: int)
    requires
        chosen_pre(d, pre),
        0 <= q < 16,
        pre_exact(d, q),
    ensures
        pre_exact(d, pre),
        (pre + 1) * (d / (pre + 1)) == d,
{
}

/// A program of register steps only (no loads, no receives) fits any stream.
pub proof fn lemma_register_steps_fit(s: Seq<SpiStep>)
    requires
        forall|i: int| 0 <= i < s.len() ==> !(#[trigger] s[i] is LoadTx) && !(s[i] is Receive),
    ensures
        program_fits(s, 0),
{
    assert forall|i: int| 0 <= i < s.len() implies match #[trigger] s[i] {
        SpiStep::LoadTx { start, len } => start + len <= 0 && len <= 64,
        SpiStep::Receive(n) => n <= 64,
        _ => true,
    } by {
        assert(!(s[i] is LoadTx) && !(s[i] is Receive));
    }
}

fn enable_steps_exec(soc: Soc) -> (s: Vec<SpiStep>)
    ensures
        s@ == enable_steps(soc),
{
    let gate = SpiStep::Write(SpiReg::ClkGate, field(1, 0, 1).plus(field(1, 1, 1)).plus(field(1, 2, 1)).value);
    let mut s: Vec<SpiStep> = Vec::new();
    match soc {
        Soc::Esp32C3 => {
            s.push(SpiStep::Modify(SpiReg::SysPeripClkEn0, field(1, 6, 1)));
            s.push(SpiStep::Modify(SpiReg::SysPeripRstEn0, field(1, 6, 1)));
            s.push(SpiStep::Modify(SpiReg::SysPeripRstEn0, field(1, 6, 0)));
        },
        Soc::Esp32C6 => {
            s.push(SpiStep::Modify(SpiReg::PcrSpi2Conf, field(1, 0, 1).plus(field(1, 1, 0))));
            s.push(SpiStep::Modify(SpiReg::PcrSpi2Conf, field(1, 1, 1)));
            s.push(SpiStep::Modify(SpiReg::PcrSpi2ClkmConf, field(3, 20, 1).plus(field(1, 22, 1))));
        },
    }
    s.push(gate);
    assert(s@ =~= enable_steps(soc));
    s
}

impl<const SPI_BASE: usize, const SYS_BASE: usize, const APB_HZ: u32> Esp32Spi2<SPI_BASE, SYS_BASE, APB_HZ> {
    /// Turns the SPI2 clocks on and pulses its reset (C3: SYSTEM gating, reset
    /// active high; C6: PCR gating, reset active low, 80 MHz PLL function
    /// clock), then enables the controller's own clock gate.
    pub fn enable(&self, soc: Soc) -> (t: SpiTransaction)
        ensures
            runs(t, enable_steps(soc), seq![], seq![], Ok(())),
    {
        let s = enable_steps_exec(soc);
        proof { lemma_register_steps_fit(s@); }
        let none: Vec<Chunk> = Vec::new();
        assert(none@ =~= Seq::<Chunk>::empty());
        self.assemble(s, &none, Vec::new(), Ok(()))
    }

    /// Stops the controller's master clock and the SPI2 clocks.
    pub fn disable(&self, soc: Soc) -> (t: SpiTransaction)
        ensures
            runs(t, disable_steps(soc), seq![], seq![], Ok(())),
    {
        let mut s: Vec<SpiStep> = Vec::new();
        s.push(SpiStep::Modify(SpiReg::ClkGate, field(1, 1, 0)));
        match soc {
            Soc::Esp32C3 => {
                s.push(SpiStep::Modify(SpiReg::SysPeripClkEn0, field(1, 6, 0)));
            },
            Soc::Esp32C6 => {
                s.push(SpiStep::Modify(SpiReg::PcrSpi2ClkmConf, field(1, 22, 0)));
                s.push(SpiStep::Modify(SpiReg::PcrSpi2Conf, field(1, 0, 0)));
            },
        }
        assert(s@ =~= disable_steps(soc));
        proof { lemma_register_steps_fit(s@); }
        let none: Vec<Chunk> = Vec::new();
        assert(none@ =~= Seq::<Chunk>::empty());
        self.assemble(s, &none, Vec::new(), Ok(()))
    }

    /// Latches the configuration registers: CMD.UPDATE written, then awaited clear.
    pub fn apply_config(&self) -> (t: SpiTransaction)
        ensures
            runs(t, seq![
                SpiStep::Write(SpiReg::Cmd, cmd_update().value),
                SpiStep::Poll { reg: SpiReg::Cmd, mask: cmd_update().value, until_set: false, on_timeout: OnTimeout::Abort },
            ], seq![], seq![], Ok(())),
    {
        let update = field(1, 23, 1);
        let mut s: Vec<SpiStep> = Vec::new();
        s.push(SpiStep::Write(SpiReg::Cmd, update.value));
        s.push(SpiStep::Poll { reg: SpiReg::Cmd, mask: update.value, until_set: false, on_timeout: OnTimeout::Abort });
        assert(s@ =~= seq![
            SpiStep::Write(SpiReg::Cmd, cmd_update().value),
            SpiStep::Poll { reg: SpiReg::Cmd, mask: cmd_update().value, until_set: false, on_timeout: OnTimeout::Abort },
        ]);
        proof { lemma_register_steps_fit(s@); }
        let none: Vec<Chunk> = Vec::new();
        assert(none@ =~= Seq::<Chunk>::empty());
        self.assemble(s, &none, Vec::new(), Ok(()))
    }

    /// Configures the controller as SPI master for `config`: enable, soft
    /// reset, no DMA, FIFOs reset, clock polarity and phase, bit order, then
    /// the clock divider and all hardware chip selects disabled. When the
    /// divider cannot realise the baud rate, the steps stop after the bit
    /// order and the result is `NotSupport`.
    pub fn configure(&self, config: &SpiConfig, soc: Soc) -> (t: SpiTransaction)
        requires
            config.baudrate != 0 || APB_HZ == 0,
        ensures
            runs(t, configure_steps(*config, soc, APB_HZ), seq![], seq![], configure_result(*config, APB_HZ)),
    {
        let mut s = enable_steps_exec(soc);
        s.push(SpiStep::Write(SpiReg::Slave, field(1, 26, 0).plus(field(1, 27, 1)).value));
        s.push(SpiStep::Modify(SpiReg::Slave, field(1, 27, 0)));
        s.push(SpiStep::Write(SpiReg::DmaConf, field(1, 27, 0).plus(field(1, 28, 0)).value));
        let mut r = self.reset_tx_rx_fifo();
        s.append(&mut r);
        let idle = field(1, 29, match config.polarity { SpiPolarity::Low => 0, SpiPolarity::High => 1 });
        let edge = match (config.polarity, config.phase) {
            (SpiPolarity::Low, SpiPhase::Phase0) => field(1, 9, 0),
            (SpiPolarity::Low, SpiPhase::Phase1) => field(1, 9, 1),
            (SpiPolarity::High, SpiPhase::Phase0) => field(1, 9, 1),
            (SpiPolarity::High, SpiPhase::Phase1) => field(1, 9, 0),
        };
        let order: u32 = match config.bit_order { SpiBitOrder::MsbFirst => 0, SpiBitOrder::LsbFirst => 1 };
        s.push(SpiStep::Modify(SpiReg::Misc, idle));
        s.push(SpiStep::Modify(SpiReg::User, edge));
        s.push(SpiStep::Modify(SpiReg::Ctrl, field(1, 25, order).plus(field(1, 26, order))));
        assert(s@ =~= configure_prefix(*config, soc));
        let ghost prefix = s@;
        let clk = self.configure_clock(config.baudrate);
        let completion = match clk {
            Ok(w) => {
                s.push(SpiStep::Write(SpiReg::Clock, w));
                let cs = field(1, 0, 1).plus(field(1, 1, 1)).plus(field(1, 2, 1)).plus(field(1, 3, 1)).plus(
                    field(1, 4, 1)).plus(field(1, 5, 1)).plus(field(1, 30, 0));
                s.push(SpiStep::Modify(SpiReg::Misc, cs));
                assert(s@ =~= prefix + seq![SpiStep::Write(SpiReg::Clock, w), SpiStep::Modify(SpiReg::Misc, cs_disabled())]);
                Ok(())
            },
            Err(e) => {
                assert(s@ =~= prefix + Seq::<SpiStep>::empty());
                Err(e)
            },
        };
        proof { lemma_register_steps_fit(s@); }
        let none: Vec<Chunk> = Vec::new();
        assert(none@ =~= Seq::<Chunk>::empty());
        self.assemble(s, &none, Vec::new(), completion)
    }

    /// `Spi::transfer`: full-duplex, see [`Self::do_full_duplex_transfer`].
    pub fn transfer(&self, read_len: usize, write: &[u8]) -> (t: SpiTransaction)
        ensures
            runs(t, seq![], full_duplex_chunks(write@.len() as int, read_len as int),
                padded(write@, read_len as int), Ok(())),
    {
        self.do_full_duplex_transfer(read_len, write)
    }

    /// `Spi::read`, see [`Self::do_half_duplex_read`].
    pub fn read(&self, len: usize) -> (t: SpiTransaction)
        ensures
            runs(t, seq![], half_read_chunks(len as int), padded(Seq::<u8>::empty(), len as int), Ok(())),
    {
        self.do_half_duplex_read(len)
    }

    /// `Spi::write`, see [`Self::do_half_duplex_write`].
    pub fn write(&self, buf: &[u8]) -> (t: SpiTransaction)
        ensures
            runs(t, seq![], half_write_chunks(buf@.len() as int), buf@, Ok(())),
    {
        self.do_half_duplex_write(buf)
    }

    /// QSPI command write: opcode 0x02, `cmd`, then `params` on one wire.
    pub fn qspi_write_command(&self, cmd: u8, params: &[u8]) -> (t: SpiTransaction)
        ensures
            runs(t, seq![], command_write_chunks(params@.len() as int),
                header_bytes(QSPI_CMD_WRITE, cmd) + params@, Ok(())),
    {
        self.do_qspi_write(QSPI_CMD_WRITE, cmd, params, false)
    }

    /// QSPI pixel write: opcode 0x32, RAMWR (0x2C), then `pixels` on four wires.
    pub fn qspi_write_pixels(&self, pixels: &[u8]) -> (t: SpiTransaction)
        ensures
            runs(t, seq![], pixel_write_chunks(pixels@.len() as int),
                header_bytes(QSPI_CMD_PIXEL_WRITE, RAMWR) + pixels@, Ok(())),
    {
        self.do_qspi_write(QSPI_CMD_PIXEL_WRITE, RAMWR, pixels, true)
    }

    /// QSPI command read: opcode 0x03 and `cmd`, then `len` response bytes.
    pub fn qspi_read_command(&self, cmd: u8, len: usize) -> (t: SpiTransaction)
        ensures
            len == 0 ==> runs(t, seq![], seq![qspi_header_chunk()], header_bytes(QSPI_CMD_READ, cmd), Ok(())),
            len > 0 ==> runs(t, qspi_read_setup(), qspi_read_chunks(len as int), header_bytes(QSPI_CMD_READ, cmd), Ok(())),
    {
        self.do_qspi_read(QSPI_CMD_READ, cmd, len)
    }
}

} // verus!
