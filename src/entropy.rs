use vstd::prelude::*;
use crate::regs::{DriverError, IoError, Reg};

verus! {

/// Number of entropy words ready in the FIFO: the top byte of `STATUS`.
pub open spec fn ready_count(status: u32) -> u32 {
    status >> 24u32
}

/// Byte `j` of `w` counted from the least significant end.
pub open spec fn word_byte(w: u32, j: u32) -> u8 {
    ((w >> (8 * j) as u32) & 0xffu32) as u8
}

/// `buf` with the word `w` laid out least significant byte first at word
/// position `i`.
pub open spec fn put_word(buf: Seq<u8>, i: int, w: u32) -> Seq<u8> {
    buf.update(4 * i, word_byte(w, 0))
        .update(4 * i + 1, word_byte(w, 1))
        .update(4 * i + 2, word_byte(w, 2))
        .update(4 * i + 3, word_byte(w, 3))
}

/// Where a read stands: which reply it waits for.
#[derive(Clone, Copy, Debug, PartialEq, Eq, Structural)]
pub enum ReadPhase {
    /// Waits for a `STATUS` value to see whether anything is ready.
    Poll,
    /// Waits for the caller to have spun once before polling again.
    Spin,
    /// Waits for the `STATUS` value that fixes how many words to move.
    Count,
    /// Waits for the `DATA` word at position `next` of `total`.
    Transfer { next: usize, total: usize },
    /// The read has returned.
    Finished,
}

/// What the caller has to do next for a read.
#[derive(Clone, Copy, Debug, PartialEq, Eq, Structural)]
pub enum ReadAction {
    /// Load the register and report its value.
    Read(Reg),
    /// Busy-wait once, then report back.
    Spin,
    /// The read is over: this many bytes were written to the buffer.
    Done(u32),
    /// The read is over and failed.
    Fail(DriverError),
}

/// One read of entropy into a caller's buffer.
#[derive(Clone, Copy, Debug, PartialEq, Eq, Structural)]
pub struct ReadOp {
    /// Whole words that fit in the buffer.
    pub max_words: usize,
    /// Whether to spin until data is ready instead of returning nothing.
    pub blocking: bool,
    pub phase: ReadPhase,
}

impl ReadOp {
    pub open spec fn wf(self) -> bool {
        match self.phase {
            ReadPhase::Transfer { next, total } => next < total && total <= self.max_words
                && total <= 255,
            _ => true,
        }
    }

    pub open spec fn is_finished(self) -> bool {
        self.phase is Finished
    }

    /// Upper bound on the replies a non-blocking read still takes.
    pub open spec fn remaining(self) -> nat {
        match self.phase {
            ReadPhase::Poll => (self.max_words + 2) as nat,
            ReadPhase::Spin => (self.max_words + 3) as nat,
            ReadPhase::Count => (self.max_words + 1) as nat,
            ReadPhase::Transfer { next, total } => (total - next) as nat,
            ReadPhase::Finished => 0,
        }
    }

    pub open spec fn with_phase(self, phase: ReadPhase) -> ReadOp {
        ReadOp { phase, ..self }
    }
}

/// The next state and request of a read after the reply `ev`.
pub open spec fn read_transition(op: ReadOp, ev: Result<u32, IoError>) -> (ReadOp, ReadAction) {
    let done = op.with_phase(ReadPhase::Finished);
    let failed = (done, ReadAction::Fail(DriverError::DeviceError));
    match op.phase {
        ReadPhase::Poll => match ev {
            Err(_) => failed,
            Ok(s) => if ready_count(s) != 0 {
                (op.with_phase(ReadPhase::Count), ReadAction::Read(Reg::Status))
            } else if op.blocking {
                (op.with_phase(ReadPhase::Spin), ReadAction::Spin)
            } else {
                (done, ReadAction::Done(0))
            },
        },
        ReadPhase::Spin => (op.with_phase(ReadPhase::Poll), ReadAction::Read(Reg::Status)),
        ReadPhase::Count => match ev {
            Err(_) => failed,
            Ok(s) => {
                let n = if ready_count(s) as int > op.max_words as int {
                    op.max_words
                } else {
                    ready_count(s) as usize
                };
                if n == 0 {
                    (done, ReadAction::Done(0))
                } else {
                    (
                        op.with_phase(ReadPhase::Transfer { next: 0, total: n }),
                        ReadAction::Read(Reg::Data),
                    )
                }
            },
        },
        ReadPhase::Transfer { next, total } => match ev {
            Err(_) => failed,
            Ok(_) => if next + 1 == total {
                (done, ReadAction::Done((4 * total) as u32))
            } else {
                (
                    op.with_phase(ReadPhase::Transfer { next: (next + 1) as usize, total }),
                    ReadAction::Read(Reg::Data),
                )
            },
        },
        ReadPhase::Finished => (op, ReadAction::Fail(DriverError::DeviceError)),
    }
}

/// The buffer after the reply `ev`: only a `DATA` word changes it.
pub open spec fn read_fill(op: ReadOp, ev: Result<u32, IoError>, buf: Seq<u8>) -> Seq<u8> {
    match (op.phase, ev) {
        (ReadPhase::Transfer { next, total }, Ok(w)) => put_word(buf, next as int, w),
        _ => buf,
    }
}

/// The requests a read makes when fed the replies `evs`, up to the one that
/// ends it.
pub open spec fn run_read(op: ReadOp, evs: Seq<Result<u32, IoError>>) -> Seq<ReadAction>
    decreases evs.len(),
{
    if evs.len() == 0 || op.is_finished() {
        seq![]
    } else {
        seq![read_transition(op, evs[0]).1] + run_read(read_transition(op, evs[0]).0, evs.drop_first())
    }
}

/// The count field of `STATUS` is one byte wide.
pub proof fn lemma_ready_count_bound(status: u32)
    ensures
        ready_count(status) <= 255,
{
    assert(status >> 24u32 <= 255) by (bit_vector);
}

/// A request that ends the read.
pub open spec fn is_final(a: ReadAction) -> bool {
    a is Done || a is Fail
}

/// Every request of a non-blocking read is well formed: it never spins,
/// it reports at most `4 * max_words` bytes and a whole number of words,
/// it ends after at most `remaining` replies, and given that many it has
/// ended.
proof fn lemma_nonblocking_run(op: ReadOp, evs: Seq<Result<u32, IoError>>)
    requires
        op.wf(),
        !op.blocking,
        !(op.phase is Spin),
    ensures
        run_read(op, evs).len() <= op.remaining(),
        forall|i: int| 0 <= i < run_read(op, evs).len() ==> !(#[trigger] run_read(op, evs)[i] is Spin),
        forall|i: int| 0 <= i < run_read(op, evs).len() && #[trigger] run_read(op, evs)[i] is Done
            ==> run_read(op, evs)[i]->Done_0 <= 4 * op.max_words
                && run_read(op, evs)[i]->Done_0 % 4 == 0,
        evs.len() >= op.remaining() && !op.is_finished() ==> run_read(op, evs).len() > 0
            && is_final(run_read(op, evs).last()),
    decreases evs.len(),
{
    if evs.len() > 0 && !op.is_finished() {
        if let Ok(st) = evs[0] {
            lemma_ready_count_bound(st);
        }
        let (next, a) = read_transition(op, evs[0]);
        let rest = evs.drop_first();
        lemma_nonblocking_run(next, rest);
        let tail = run_read(next, rest);
        let run = run_read(op, evs);
        assert(run == seq![a] + tail);
        assert(next.is_finished() <==> is_final(a));
        assert(next.remaining() < op.remaining());
        assert(a is Done ==> a->Done_0 <= 4 * op.max_words && a->Done_0 % 4 == 0);
        assert forall|i: int| 0 <= i < run.len() implies !(#[trigger] run[i] is Spin) by {
            if i > 0 {
                assert(run[i] == tail[i - 1]);
            }
        }
        assert forall|i: int| 0 <= i < run.len() && #[trigger] run[i] is Done implies run[i]->Done_0
            <= 4 * op.max_words && run[i]->Done_0 % 4 == 0 by {
            if i > 0 {
                assert(run[i] == tail[i - 1]);
            }
        }
        if next.is_finished() {
            assert(tail.len() == 0);
        }
    }
}

/// A non-blocking read never blocks: into a buffer of `buf_len` bytes it
/// makes no spin request, reports a whole number of words that fits the
/// buffer, and has returned once given `buf_len / 4 + 2` replies.
pub proof fn lemma_nonblocking_read_returns(buf_len: usize, evs: Seq<Result<u32, IoError>>)
    ensures
        ({
            let op = ReadOp { max_words: buf_len / 4, blocking: false, phase: ReadPhase::Poll };
            let run = run_read(op, evs);
            &&& run.len() <= buf_len / 4 + 2
            &&& forall|i: int| 0 <= i < run.len() ==> !(#[trigger] run[i] is Spin)
            &&& forall|i: int| 0 <= i < run.len() && #[trigger] run[i] is Done
                ==> run[i]->Done_0 <= buf_len && run[i]->Done_0 % 4 == 0
            &&& evs.len() >= buf_len / 4 + 2 ==> run.len() > 0 && is_final(run.last())
        }),
{
    let op = ReadOp { max_words: buf_len / 4, blocking: false, phase: ReadPhase::Poll };
    lemma_nonblocking_run(op, evs);
}

/// When `STATUS` reports no ready word, a non-blocking read returns 0 at
/// once and never loads `DATA`.
pub proof fn lemma_empty_nonblocking_read(
    buf_len: usize,
    status: u32,
    rest: Seq<Result<u32, IoError>>,
)
    requires
        ready_count(status) == 0,
    ensures
        run_read(
            ReadOp { max_words: buf_len / 4, blocking: false, phase: ReadPhase::Poll },
            seq![Ok(status)] + rest,
        ) == seq![ReadAction::Done(0)],
{
    let op = ReadOp { max_words: buf_len / 4, blocking: false, phase: ReadPhase::Poll };
    let evs = seq![Ok(status)] + rest;
    assert(evs.drop_first() == rest);
    assert(run_read(op.with_phase(ReadPhase::Finished), rest) == Seq::<ReadAction>::empty());
}

/// `n` loads of `DATA`.
pub open spec fn data_loads(n: nat) -> Seq<ReadAction> {
    Seq::new(n, |_i: int| ReadAction::Read(Reg::Data))
}

proof fn lemma_transfer_run(op: ReadOp, evs: Seq<Result<u32, IoError>>)
    requires
        op.wf(),
        op.phase is Transfer,
        evs.len() >= op.remaining(),
        forall|i: int| 0 <= i < evs.len() ==> #[trigger] evs[i] is Ok,
    ensures
        run_read(op, evs) == data_loads((op.remaining() - 1) as nat) + seq![
            ReadAction::Done((4 * op.phase->total) as u32),
        ],
    decreases evs.len(),
{
    let (next, a) = read_transition(op, evs[0]);
    let rest = evs.drop_first();
    if next.is_finished() {
        assert(run_read(next, rest) == Seq::<ReadAction>::empty());
        assert(data_loads(0) + seq![a] == seq![a]);
    } else {
        assert forall|i: int| 0 <= i < rest.len() implies #[trigger] rest[i] is Ok by {
            assert(evs[i + 1] is Ok);
        }
        lemma_transfer_run(next, rest);
        assert(data_loads((op.remaining() - 1) as nat) == seq![ReadAction::Read(Reg::Data)]
            + data_loads((next.remaining() - 1) as nat));
    }
}

/// A read that sees a ready word, then a count of `ready_count(count)`,
/// loads `DATA` exactly `n` times, `n` being that count clamped to the words
/// that fit the buffer, and returns `4 * n`.
pub proof fn lemma_read_moves_ready_words(
    buf_len: usize,
    blocking: bool,
    poll: u32,
    count: u32,
    words: Seq<Result<u32, IoError>>,
)
    requires
        ready_count(poll) != 0,
        words.len() >= (if ready_count(count) as int > buf_len as int / 4 { buf_len as int / 4 } else {
            ready_count(count) as int
        }),
        forall|i: int| 0 <= i < words.len() ==> #[trigger] words[i] is Ok,
    ensures
        ({
            let n: nat = if ready_count(count) as int > buf_len as int / 4 {
                (buf_len / 4) as nat
            } else {
                ready_count(count) as nat
            };
            run_read(
                ReadOp { max_words: buf_len / 4, blocking, phase: ReadPhase::Poll },
                seq![Ok(poll), Ok(count)] + words,
            ) == seq![ReadAction::Read(Reg::Status)] + data_loads(n) + seq![
                ReadAction::Done((4 * n) as u32),
            ]
        }),
{
    let op = ReadOp { max_words: buf_len / 4, blocking, phase: ReadPhase::Poll };
    let evs = seq![Ok(poll), Ok(count)] + words;
    let n: nat = if ready_count(count) as int > buf_len as int / 4 {
        (buf_len / 4) as nat
    } else {
        ready_count(count) as nat
    };
    lemma_ready_count_bound(count);
    let op1 = op.with_phase(ReadPhase::Count);
    let evs1 = seq![Ok(count)] + words;
    assert(evs[0] == Ok::<u32, IoError>(poll));
    assert(evs.drop_first() =~= evs1);
    assert(evs1[0] == Ok::<u32, IoError>(count));
    assert(evs1.drop_first() =~= words);
    assert(read_transition(op, evs[0]) == (op1, ReadAction::Read(Reg::Status)));
    assert(run_read(op, evs) == seq![ReadAction::Read(Reg::Status)] + run_read(op1, evs1));
    let (op2, a2) = read_transition(op1, Ok(count));
    assert(run_read(op1, evs1) == seq![a2] + run_read(op2, words));
    if n == 0 {
        assert(run_read(op2, words) == Seq::<ReadAction>::empty());
        assert(data_loads(0) + seq![ReadAction::Done(0)] =~= seq![ReadAction::Done(0)]);
        assert(seq![ReadAction::Read(Reg::Status)] + run_read(op1, evs1) =~= seq![
            ReadAction::Read(Reg::Status),
        ] + data_loads(n) + seq![ReadAction::Done((4 * n) as u32)]);
    } else {
        lemma_transfer_run(op2, words);
        assert(data_loads(n) =~= seq![ReadAction::Read(Reg::Data)] + data_loads((n - 1) as nat));
        assert(seq![ReadAction::Read(Reg::Status)] + run_read(op1, evs1) =~= seq![
            ReadAction::Read(Reg::Status),
        ] + data_loads(n) + seq![ReadAction::Done((4 * n) as u32)]);
    }
}

/// Each `DATA` word lands in the buffer least significant byte first: the
/// four bytes put back together give the word, on every host.
pub proof fn lemma_word_bytes_little_endian(w: u32)
    ensures
        w == (word_byte(w, 0) as u32) | ((word_byte(w, 1) as u32) << 8u32) | ((word_byte(w, 2) as u32)
            << 16u32) | ((word_byte(w, 3) as u32) << 24u32),
{
    assert(w == (((w >> 0u32) & 0xffu32) as u8 as u32) | ((((w >> 8u32) & 0xffu32) as u8 as u32)
        << 8u32) | ((((w >> 16u32) & 0xffu32) as u8 as u32) << 16u32) | ((((w >> 24u32) & 0xffu32)
        as u8 as u32) << 24u32)) by (bit_vector);
}

fn byte_at(w: u32, j: u32) -> (r: u8)
    requires
        j < 4,
    ensures
        r == word_byte(w, j),
{
    ((w >> (8 * j)) & 0xff) as u8
}

impl ReadOp {
    /// Begins a read into a buffer of `buf_len` bytes; the first request is
    /// a load of `STATUS`.
    pub fn start(buf_len: usize, blocking: bool) -> (r: (ReadOp, ReadAction))
        ensures
            r.0 == (ReadOp { max_words: buf_len / 4, blocking, phase: ReadPhase::Poll }),
            r.1 == ReadAction::Read(Reg::Status),
            r.0.wf(),
    {
        (ReadOp { max_words: buf_len / 4, blocking, phase: ReadPhase::Poll }, ReadAction::Read(Reg::Status))
    }

    /// Whether the read has returned.
    pub fn finished(&self) -> (r: bool)
        ensures
            r == self.is_finished(),
    {
        matches!(self.phase, ReadPhase::Finished)
    }

    /// Feeds the reply to the last request; a `DATA` word is stored in
    /// `buf`, least significant byte first, whatever the host's byte order.
    /// For a spin the value carried by `Ok` is not looked at.
    pub fn step(&mut self, ev: Result<u32, IoError>, buf: &mut [u8]) -> (a: ReadAction)
        requires
            old(self).wf(),
            !old(self).is_finished(),
            old(self).max_words <= old(buf)@.len() / 4,
        ensures
            (*final(self), a) == read_transition(*old(self), ev),
            final(buf)@ == read_fill(*old(self), ev, old(buf)@),
            final(self).wf(),
            !old(self).blocking ==> final(self).remaining() < old(self).remaining(),
    {
        match self.phase {
            ReadPhase::Poll => match ev {
                Err(_) => {
                    self.phase = ReadPhase::Finished;
                    ReadAction::Fail(DriverError::DeviceError)
                },
                Ok(s) => {
                    if s >> 24 != 0 {
                        self.phase = ReadPhase::Count;
                        ReadAction::Read(Reg::Status)
                    } else if self.blocking {
                        self.phase = ReadPhase::Spin;
                        ReadAction::Spin
                    } else {
                        self.phase = ReadPhase::Finished;
                        ReadAction::Done(0)
                    }
                },
            },
            ReadPhase::Spin => {
                self.phase = ReadPhase::Poll;
                ReadAction::Read(Reg::Status)
            },
            ReadPhase::Count => match ev {
                Err(_) => {
                    self.phase = ReadPhase::Finished;
                    ReadAction::Fail(DriverError::DeviceError)
                },
                Ok(s) => {
                    let ready: u32 = s >> 24;
                    assert(s >> 24u32 <= 255) by (bit_vector);
                    let n: usize = if ready as usize > self.max_words {
                        self.max_words
                    } else {
                        ready as usize
                    };
                    if n == 0 {
                        self.phase = ReadPhase::Finished;
                        ReadAction::Done(0)
                    } else {
                        self.phase = ReadPhase::Transfer { next: 0, total: n };
                        ReadAction::Read(Reg::Data)
                    }
                },
            },
            ReadPhase::Transfer { next, total } => match ev {
                Err(_) => {
                    self.phase = ReadPhase::Finished;
                    ReadAction::Fail(DriverError::DeviceError)
                },
                Ok(w) => {
                    let base: usize = 4 * next;
                    buf[base] = byte_at(w, 0);
                    buf[base + 1] = byte_at(w, 1);
                    buf[base + 2] = byte_at(w, 2);
                    buf[base + 3] = byte_at(w, 3);
                    if next + 1 == total {
                        self.phase = ReadPhase::Finished;
                        ReadAction::Done((4 * total) as u32)
                    } else {
                        self.phase = ReadPhase::Transfer { next: next + 1, total };
                        ReadAction::Read(Reg::Data)
                    }
                },
            },
            ReadPhase::Finished => ReadAction::Fail(DriverError::DeviceError),
        }
    }
}

} // verus!
