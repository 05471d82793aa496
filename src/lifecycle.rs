use vstd::prelude::*;
use crate::guard::{take_post, EnabledClock, Reset, TakeOnce};
use crate::regs::{DriverError, IoError, Reg, RNG_DISABLE, RNG_ENABLE, RNG_INT_OFF, RNG_WARMUP_COUNT};
use crate::variant::VariantConfig;

verus! {

// ---------------------------------------------------------------- probe

/// Where a probe stands: which outcome it waits for.
#[derive(Clone, Copy, Debug, PartialEq, Eq, Structural)]
pub enum ProbePhase {
    MapWindow,
    FindClock,
    EnableClock,
    FindReset,
    Register,
    Finished,
}

/// What the platform glue has to do next for a probe.
#[derive(Clone, Copy, Debug, PartialEq, Eq, Structural)]
pub enum ProbeAction {
    /// Map the register window; report whether it was mapped.
    MapWindow,
    /// Look for the device's clock; report whether one was found.
    FindClock,
    /// Prepare and enable the clock found; report whether that worked.
    EnableClock,
    /// Ask for the optional reset controller; whatever is reported, a
    /// missing one is tolerated.
    FindReset,
    /// Register with the entropy consumer; report whether that worked.
    Register,
    /// The device is probed.
    Done,
    /// The probe failed.
    Fail(DriverError),
}

/// Bringing up one discovered device.
#[derive(Clone, Copy, Debug, PartialEq, Eq, Structural)]
pub struct ProbeOp {
    pub phase: ProbePhase,
}

/// The next state and request of a probe after outcome `ok`.
pub open spec fn probe_transition(op: ProbeOp, ok: bool) -> (ProbeOp, ProbeAction) {
    let fin = ProbeOp { phase: ProbePhase::Finished };
    match op.phase {
        ProbePhase::MapWindow => if ok {
            (ProbeOp { phase: ProbePhase::FindClock }, ProbeAction::FindClock)
        } else {
            (fin, ProbeAction::Fail(DriverError::NoDevice))
        },
        ProbePhase::FindClock => if ok {
            (ProbeOp { phase: ProbePhase::EnableClock }, ProbeAction::EnableClock)
        } else {
            (ProbeOp { phase: ProbePhase::FindReset }, ProbeAction::FindReset)
        },
        ProbePhase::EnableClock => if ok {
            (ProbeOp { phase: ProbePhase::FindReset }, ProbeAction::FindReset)
        } else {
            (fin, ProbeAction::Fail(DriverError::DeviceError))
        },
        ProbePhase::FindReset => (ProbeOp { phase: ProbePhase::Register }, ProbeAction::Register),
        ProbePhase::Register => if ok {
            (fin, ProbeAction::Done)
        } else {
            (fin, ProbeAction::Fail(DriverError::DeviceError))
        },
        ProbePhase::Finished => (op, ProbeAction::Fail(DriverError::NoDevice)),
    }
}

impl ProbeOp {
    /// Begins a probe; the first request maps the register window.
    pub fn start() -> (r: (ProbeOp, ProbeAction))
        ensures
            r == (ProbeOp { phase: ProbePhase::MapWindow }, ProbeAction::MapWindow),
    {
        (ProbeOp { phase: ProbePhase::MapWindow }, ProbeAction::MapWindow)
    }

    /// Whether the probe has ended.
    pub fn finished(&self) -> (r: bool)
        ensures
            r == (self.phase is Finished),
    {
        matches!(self.phase, ProbePhase::Finished)
    }

    /// Feeds the outcome of the last request.
    pub fn step(&mut self, ok: bool) -> (a: ProbeAction)
        requires
            !(old(self).phase is Finished),
        ensures
            (*final(self), a) == probe_transition(*old(self), ok),
    {
        let fin = ProbeOp { phase: ProbePhase::Finished };
        let (next, a) = match self.phase {
            ProbePhase::MapWindow => if ok {
                (ProbeOp { phase: ProbePhase::FindClock }, ProbeAction::FindClock)
            } else {
                (fin, ProbeAction::Fail(DriverError::NoDevice))
            },
            ProbePhase::FindClock => if ok {
                (ProbeOp { phase: ProbePhase::EnableClock }, ProbeAction::EnableClock)
            } else {
                (ProbeOp { phase: ProbePhase::FindReset }, ProbeAction::FindReset)
            },
            ProbePhase::EnableClock => if ok {
                (ProbeOp { phase: ProbePhase::FindReset }, ProbeAction::FindReset)
            } else {
                (fin, ProbeAction::Fail(DriverError::DeviceError))
            },
            ProbePhase::FindReset => (ProbeOp { phase: ProbePhase::Register }, ProbeAction::Register),
            ProbePhase::Register => if ok {
                (fin, ProbeAction::Done)
            } else {
                (fin, ProbeAction::Fail(DriverError::DeviceError))
            },
            ProbePhase::Finished => (*self, ProbeAction::Fail(DriverError::NoDevice)),
        };
        *self = next;
        a
    }
}

// ---------------------------------------------------------------- init

/// Where an init stands: which reply it waits for.
#[derive(Clone, Copy, Debug, PartialEq, Eq, Structural)]
pub enum InitPhase {
    /// The reset pulse.
    Pulse,
    /// The value of `INT_MASK`.
    MaskRead,
    /// The store of the masked `INT_MASK`.
    MaskWrite,
    /// The value of `CTRL`.
    CtrlRead,
    /// The store of the warm-up count to `STATUS`.
    Warmup,
    /// The store of the enable value to `CTRL`.
    Enable,
    Finished,
}

/// What the caller has to do next for an init.
#[derive(Clone, Copy, Debug, PartialEq, Eq, Structural)]
pub enum InitAction {
    /// Fire one pulse on the reset line handed out by `InitOp::start`.
    PulseReset,
    /// Load the register and report its value.
    Read(Reg),
    /// Store the value to the register and report whether that worked.
    Write(Reg, u32),
    /// The device is initialised.
    Done,
    /// The init failed.
    Fail(DriverError),
}

/// Bringing a probed device to the state where it produces entropy.
#[derive(Clone, Copy, Debug, PartialEq, Eq, Structural)]
pub struct InitOp {
    pub mask_interrupts: bool,
    pub phase: InitPhase,
}

/// State and request once the reset is dealt with.
pub open spec fn init_after_reset(mask_interrupts: bool) -> (InitOp, InitAction) {
    if mask_interrupts {
        (InitOp { mask_interrupts, phase: InitPhase::MaskRead }, InitAction::Read(Reg::IntMask))
    } else {
        (InitOp { mask_interrupts, phase: InitPhase::CtrlRead }, InitAction::Read(Reg::Ctrl))
    }
}

/// First state and request of an init that took a reset capability or not.
pub open spec fn init_begin(took_reset: bool, mask_interrupts: bool) -> (InitOp, InitAction) {
    if took_reset {
        (InitOp { mask_interrupts, phase: InitPhase::Pulse }, InitAction::PulseReset)
    } else {
        init_after_reset(mask_interrupts)
    }
}

/// The next state and request of an init after the reply `ev`; every
/// failure ends it, none is retried.
pub open spec fn init_transition(op: InitOp, ev: Result<u32, IoError>) -> (InitOp, InitAction) {
    let fin = InitOp { phase: InitPhase::Finished, ..op };
    if ev is Err {
        (fin, InitAction::Fail(DriverError::DeviceError))
    } else {
        let v = ev->Ok_0;
        match op.phase {
            InitPhase::Pulse => init_after_reset(op.mask_interrupts),
            InitPhase::MaskRead => (
                InitOp { phase: InitPhase::MaskWrite, ..op },
                InitAction::Write(Reg::IntMask, v | RNG_INT_OFF),
            ),
            InitPhase::MaskWrite => (InitOp { phase: InitPhase::CtrlRead, ..op }, InitAction::Read(Reg::Ctrl)),
            InitPhase::CtrlRead => if v != RNG_ENABLE {
                (
                    InitOp { phase: InitPhase::Warmup, ..op },
                    InitAction::Write(Reg::Status, RNG_WARMUP_COUNT),
                )
            } else {
                (fin, InitAction::Done)
            },
            InitPhase::Warmup => (
                InitOp { phase: InitPhase::Enable, ..op },
                InitAction::Write(Reg::Ctrl, RNG_ENABLE),
            ),
            InitPhase::Enable => (fin, InitAction::Done),
            InitPhase::Finished => (op, InitAction::Fail(DriverError::DeviceError)),
        }
    }
}

/// The requests an init makes when fed the replies `evs`, up to the one
/// that ends it.
pub open spec fn run_init(op: InitOp, evs: Seq<Result<u32, IoError>>) -> Seq<InitAction>
    decreases evs.len(),
{
    if evs.len() == 0 || op.phase is Finished {
        seq![]
    } else {
        seq![init_transition(op, evs[0]).1] + run_init(init_transition(op, evs[0]).0, evs.drop_first())
    }
}

impl InitOp {
    /// Begins an init: takes the reset capability out of its guard, so that
    /// the pulse fires at the first init only, and hands it back with the
    /// first request.
    pub fn start(reset: &mut TakeOnce<Reset>, config: VariantConfig) -> (r: (InitOp, InitAction, Option<Reset>))
        ensures
            take_post(old(reset)@, final(reset)@, r.2),
            (r.0, r.1) == init_begin(r.2.is_some(), config.mask_interrupts),
    {
        let taken = reset.take_once();
        let mask_interrupts = config.mask_interrupts;
        if taken.is_some() {
            (InitOp { mask_interrupts, phase: InitPhase::Pulse }, InitAction::PulseReset, taken)
        } else if mask_interrupts {
            (InitOp { mask_interrupts, phase: InitPhase::MaskRead }, InitAction::Read(Reg::IntMask), taken)
        } else {
            (InitOp { mask_interrupts, phase: InitPhase::CtrlRead }, InitAction::Read(Reg::Ctrl), taken)
        }
    }

    /// Whether the init has ended.
    pub fn finished(&self) -> (r: bool)
        ensures
            r == (self.phase is Finished),
    {
        matches!(self.phase, InitPhase::Finished)
    }

    /// Feeds the reply to the last request. For a store or the pulse the
    /// value carried by `Ok` is not looked at.
    pub fn step(&mut self, ev: Result<u32, IoError>) -> (a: InitAction)
        requires
            !(old(self).phase is Finished),
        ensures
            (*final(self), a) == init_transition(*old(self), ev),
    {
        let v: u32 = match ev {
            Err(_) => {
                self.phase = InitPhase::Finished;
                return InitAction::Fail(DriverError::DeviceError);
            },
            Ok(v) => v,
        };
        match self.phase {
            InitPhase::Pulse => if self.mask_interrupts {
                self.phase = InitPhase::MaskRead;
                InitAction::Read(Reg::IntMask)
            } else {
                self.phase = InitPhase::CtrlRead;
                InitAction::Read(Reg::Ctrl)
            },
            InitPhase::MaskRead => {
                self.phase = InitPhase::MaskWrite;
                InitAction::Write(Reg::IntMask, v | RNG_INT_OFF)
            },
            InitPhase::MaskWrite => {
                self.phase = InitPhase::CtrlRead;
                InitAction::Read(Reg::Ctrl)
            },
            InitPhase::CtrlRead => if v != RNG_ENABLE {
                self.phase = InitPhase::Warmup;
                InitAction::Write(Reg::Status, RNG_WARMUP_COUNT)
            } else {
                self.phase = InitPhase::Finished;
                InitAction::Done
            },
            InitPhase::Warmup => {
                self.phase = InitPhase::Enable;
                InitAction::Write(Reg::Ctrl, RNG_ENABLE)
            },
            InitPhase::Enable => {
                self.phase = InitPhase::Finished;
                InitAction::Done
            },
            InitPhase::Finished => InitAction::Fail(DriverError::DeviceError),
        }
    }
}

/// Number of inits, among those that received `rs` from the reset guard,
/// that begin with a reset pulse.
pub open spec fn count_pulses(rs: Seq<Option<Reset>>, mask_interrupts: bool) -> nat
    decreases rs.len(),
{
    if rs.len() == 0 {
        0
    } else {
        (if init_begin(rs[0].is_some(), mask_interrupts).1 is PulseReset { 1nat } else { 0nat })
            + count_pulses(rs.drop_first(), mask_interrupts)
    }
}

proof fn lemma_pulses_are_takes(rs: Seq<Option<Reset>>, mask_interrupts: bool)
    ensures
        count_pulses(rs, mask_interrupts) == crate::guard::count_taken(rs),
    decreases rs.len(),
{
    if rs.len() > 0 {
        lemma_pulses_are_takes(rs.drop_first(), mask_interrupts);
    }
}

/// However many times init runs on one device, the reset pulse fires at
/// most once: at the first init, when a reset controller was found.
pub proof fn lemma_reset_fires_once(
    slots: Seq<Option<Reset>>,
    rs: Seq<Option<Reset>>,
    mask_interrupts: bool,
)
    requires
        slots.len() == rs.len() + 1,
        forall|i: int| 0 <= i < rs.len() ==> take_post(#[trigger] slots[i], slots[i + 1], rs[i]),
    ensures
        count_pulses(rs, mask_interrupts) <= 1,
        count_pulses(rs, mask_interrupts) == (if rs.len() > 0 && slots[0].is_some() { 1nat } else { 0nat }),
{
    crate::guard::lemma_take_once_exclusive(slots, rs);
    lemma_pulses_are_takes(rs, mask_interrupts);
}

/// Replies to an init where every access succeeds: `ack` answers the
/// pulse and the stores, `int_mask` and `ctrl` are the values loaded.
pub open spec fn init_replies(
    took_reset: bool,
    mask_interrupts: bool,
    int_mask: u32,
    ctrl: u32,
    ack: u32,
) -> Seq<Result<u32, IoError>> {
    (if took_reset { seq![Ok(ack)] } else { seq![] }) + (if mask_interrupts {
        seq![Ok(int_mask), Ok(ack)]
    } else {
        seq![]
    }) + seq![Ok(ctrl)] + (if ctrl != RNG_ENABLE { seq![Ok(ack), Ok(ack)] } else { seq![] })
}

/// Requests of that init, the first one included.
pub open spec fn init_requests(took_reset: bool, mask_interrupts: bool, int_mask: u32, ctrl: u32) -> Seq<
    InitAction,
> {
    (if took_reset { seq![InitAction::PulseReset] } else { seq![] }) + (if mask_interrupts {
        seq![InitAction::Read(Reg::IntMask), InitAction::Write(Reg::IntMask, int_mask | RNG_INT_OFF)]
    } else {
        seq![]
    }) + seq![InitAction::Read(Reg::Ctrl)] + ctrl_requests(ctrl)
}

/// Requests after `CTRL` was loaded: warm-up count, then enable, only when
/// the block was not enabled yet.
pub open spec fn ctrl_requests(ctrl: u32) -> Seq<InitAction> {
    if ctrl != RNG_ENABLE {
        seq![
            InitAction::Write(Reg::Status, RNG_WARMUP_COUNT),
            InitAction::Write(Reg::Ctrl, RNG_ENABLE),
            InitAction::Done,
        ]
    } else {
        seq![InitAction::Done]
    }
}

proof fn lemma_init_from_ctrl(mask_interrupts: bool, ctrl: u32, ack: u32)
    ensures
        run_init(
            InitOp { mask_interrupts, phase: InitPhase::CtrlRead },
            seq![Ok(ctrl)] + (if ctrl != RNG_ENABLE { seq![Ok(ack), Ok(ack)] } else { seq![] }),
        ) == ctrl_requests(ctrl),
{
    let op = InitOp { mask_interrupts, phase: InitPhase::CtrlRead };
    let evs: Seq<Result<u32, IoError>> = seq![Ok(ctrl)] + (if ctrl != RNG_ENABLE {
        seq![Ok(ack), Ok(ack)]
    } else {
        seq![]
    });
    let fin = InitOp { mask_interrupts, phase: InitPhase::Finished };
    assert(evs[0] == Ok::<u32, IoError>(ctrl));
    if ctrl != RNG_ENABLE {
        let e1 = evs.drop_first();
        let e2 = e1.drop_first();
        let e3 = e2.drop_first();
        assert(e1 =~= seq![Ok(ack), Ok(ack)]);
        assert(e2 =~= seq![Ok(ack)]);
        assert(e3.len() == 0);
        let op1 = InitOp { mask_interrupts, phase: InitPhase::Warmup };
        let op2 = InitOp { mask_interrupts, phase: InitPhase::Enable };
        assert(run_init(fin, e3) == Seq::<InitAction>::empty());
        assert(run_init(op2, e2) == seq![InitAction::Done] + run_init(fin, e3));
        assert(run_init(op1, e1) == seq![InitAction::Write(Reg::Ctrl, RNG_ENABLE)] + run_init(op2, e2));
        assert(run_init(op, evs) == seq![InitAction::Write(Reg::Status, RNG_WARMUP_COUNT)] + run_init(op1, e1));
        assert(run_init(op, evs) =~= ctrl_requests(ctrl));
    } else {
        assert(evs.drop_first().len() == 0);
        assert(run_init(fin, evs.drop_first()) == Seq::<InitAction>::empty());
        assert(run_init(op, evs) =~= ctrl_requests(ctrl));
    }
}

proof fn lemma_run_init_step(op: InitOp, e: Result<u32, IoError>, rest: Seq<Result<u32, IoError>>)
    requires
        !(op.phase is Finished),
    ensures
        run_init(op, seq![e] + rest) == seq![init_transition(op, e).1] + run_init(
            init_transition(op, e).0,
            rest,
        ),
{
    let evs = seq![e] + rest;
    assert(evs[0] == e);
    assert(evs.drop_first() =~= rest);
}

/// An init whose accesses all succeed makes exactly the requests of
/// `init_requests`: one pulse if it took the reset capability, the masking
/// of the interrupt for variants that need it, the load of `CTRL`, and,
/// only when `CTRL` did not read as enabled, the warm-up count to `STATUS`
/// strictly before the enable value to `CTRL`.
pub proof fn lemma_init_requests(took_reset: bool, mask_interrupts: bool, int_mask: u32, ctrl: u32, ack: u32)
    ensures
        ({
            let (op, first) = init_begin(took_reset, mask_interrupts);
            seq![first] + run_init(op, init_replies(took_reset, mask_interrupts, int_mask, ctrl, ack))
                == init_requests(took_reset, mask_interrupts, int_mask, ctrl)
        }),
{
    let tail: Seq<Result<u32, IoError>> = seq![Ok(ctrl)] + (if ctrl != RNG_ENABLE {
        seq![Ok(ack), Ok(ack)]
    } else {
        seq![]
    });
    lemma_init_from_ctrl(mask_interrupts, ctrl, ack);
    let mask_evs: Seq<Result<u32, IoError>> = if mask_interrupts {
        seq![Ok(int_mask), Ok(ack)] + tail
    } else {
        tail
    };
    let (op_a, first_a) = init_after_reset(mask_interrupts);
    if mask_interrupts {
        let mw = InitOp { mask_interrupts, phase: InitPhase::MaskWrite };
        lemma_run_init_step(mw, Ok(ack), tail);
        assert(seq![Ok(int_mask), Ok(ack)] + tail =~= seq![Ok(int_mask)] + (seq![Ok(ack)] + tail));
        lemma_run_init_step(op_a, Ok(int_mask), seq![Ok(ack)] + tail);
    }
    assert(seq![first_a] + run_init(op_a, mask_evs) =~= (if mask_interrupts {
        seq![InitAction::Read(Reg::IntMask), InitAction::Write(Reg::IntMask, int_mask | RNG_INT_OFF)]
    } else {
        seq![]
    }) + seq![InitAction::Read(Reg::Ctrl)] + ctrl_requests(ctrl));
    let evs = init_replies(took_reset, mask_interrupts, int_mask, ctrl, ack);
    if took_reset {
        assert(evs =~= seq![Ok(ack)] + mask_evs);
        lemma_run_init_step(InitOp { mask_interrupts, phase: InitPhase::Pulse }, Ok(ack), mask_evs);
        assert(seq![InitAction::PulseReset] + run_init(InitOp { mask_interrupts, phase: InitPhase::Pulse }, evs)
            =~= init_requests(took_reset, mask_interrupts, int_mask, ctrl));
    } else {
        assert(evs =~= mask_evs);
        assert(seq![first_a] + run_init(op_a, evs) =~= init_requests(took_reset, mask_interrupts, int_mask, ctrl));
    }
}

/// A store to `STATUS` or `CTRL`.
pub open spec fn touches_enable(a: InitAction) -> bool {
    a is Write && (a->Write_0 == Reg::Status || a->Write_0 == Reg::Ctrl)
}

/// An init that finds `CTRL` already enabled, as every init after a
/// successful first one does, stores nothing to `STATUS` or `CTRL`.
pub proof fn lemma_enabled_init_is_quiet(took_reset: bool, mask_interrupts: bool, int_mask: u32, ack: u32)
    ensures
        ({
            let (op, first) = init_begin(took_reset, mask_interrupts);
            let reqs = seq![first] + run_init(
                op,
                init_replies(took_reset, mask_interrupts, int_mask, RNG_ENABLE, ack),
            );
            forall|i: int| 0 <= i < reqs.len() ==> !touches_enable(#[trigger] reqs[i])
        }),
{
    lemma_init_requests(took_reset, mask_interrupts, int_mask, RNG_ENABLE, ack);
}

/// In `s`, each store of the enable value to `CTRL` directly follows the
/// store of the warm-up count to `STATUS`.
pub open spec fn warmup_precedes_enable(s: Seq<InitAction>) -> bool {
    forall|j: int|
        0 <= j < s.len() && #[trigger] s[j] == InitAction::Write(Reg::Ctrl, RNG_ENABLE) ==> j > 0
            && s[j - 1] == InitAction::Write(Reg::Status, RNG_WARMUP_COUNT)
}

/// `prev` is the request that brought an init into the state `op`.
pub open spec fn entered_by(op: InitOp, prev: InitAction) -> bool {
    &&& op.phase is Warmup ==> prev == InitAction::Write(Reg::Status, RNG_WARMUP_COUNT)
    &&& (prev == InitAction::Write(Reg::Ctrl, RNG_ENABLE)) ==> op.phase is Enable
}

proof fn lemma_ordered_after(op: InitOp, prev: InitAction, evs: Seq<Result<u32, IoError>>)
    requires
        entered_by(op, prev),
    ensures
        ({
            let s = seq![prev] + run_init(op, evs);
            forall|j: int|
                1 <= j < s.len() && #[trigger] s[j] == InitAction::Write(Reg::Ctrl, RNG_ENABLE) ==> s[j
                    - 1] == InitAction::Write(Reg::Status, RNG_WARMUP_COUNT)
        }),
    decreases evs.len(),
{
    let s = seq![prev] + run_init(op, evs);
    if evs.len() > 0 && !(op.phase is Finished) {
        let (op1, a1) = init_transition(op, evs[0]);
        lemma_ordered_after(op1, a1, evs.drop_first());
        let s1 = seq![a1] + run_init(op1, evs.drop_first());
        assert(run_init(op, evs) == s1);
        assert forall|j: int|
            1 <= j < s.len() && #[trigger] s[j] == InitAction::Write(Reg::Ctrl, RNG_ENABLE) implies s[j
                - 1] == InitAction::Write(Reg::Status, RNG_WARMUP_COUNT) by {
            assert(s[j] == s1[j - 1]);
            if j >= 2 {
                assert(s[j - 1] == s1[j - 2]);
            }
        }
    }
}

/// Whatever the replies, failures included, an init stores the enable
/// value to `CTRL` only right after storing the warm-up count to `STATUS`.
pub proof fn lemma_warmup_before_enable(
    took_reset: bool,
    mask_interrupts: bool,
    evs: Seq<Result<u32, IoError>>,
)
    ensures
        ({
            let (op, first) = init_begin(took_reset, mask_interrupts);
            warmup_precedes_enable(seq![first] + run_init(op, evs))
        }),
{
    let (op, first) = init_begin(took_reset, mask_interrupts);
    lemma_ordered_after(op, first, evs);
    let s = seq![first] + run_init(op, evs);
    assert(s[0] == first);
}

// ---------------------------------------------------------------- cleanup

/// A request of a cleanup. Its outcome changes nothing that follows.
#[derive(Clone, Copy, Debug, PartialEq, Eq, Structural)]
pub enum CleanupAction {
    /// Store the value to the register, ignoring a failure.
    Write(Reg, u32),
    /// Disable and release the clock handed out by `cleanup`.
    DisableClock,
}

/// Requests of a cleanup: turn the block off if the register window is still
/// there, then release the clock if it is still held.
pub open spec fn cleanup_requests(window_present: bool, took_clock: bool) -> Seq<CleanupAction> {
    (if window_present { seq![CleanupAction::Write(Reg::Ctrl, RNG_DISABLE)] } else { seq![] }) + (
    if took_clock {
        seq![CleanupAction::DisableClock]
    } else {
        seq![]
    })
}

/// Plans the teardown: takes the clock out of its guard, so that it is
/// disabled once whatever races with the cleanup, and lists the requests to
/// perform in order.
pub fn cleanup(window_present: bool, clock: &mut TakeOnce<EnabledClock>) -> (r: (
    Vec<CleanupAction>,
    Option<EnabledClock>,
))
    ensures
        take_post(old(clock)@, final(clock)@, r.1),
        r.0@ == cleanup_requests(window_present, r.1.is_some()),
{
    let mut plan: Vec<CleanupAction> = Vec::new();
    if window_present {
        plan.push(CleanupAction::Write(Reg::Ctrl, RNG_DISABLE));
    }
    let taken = clock.take_once();
    if taken.is_some() {
        plan.push(CleanupAction::DisableClock);
    }
    proof {
        assert(plan@ =~= cleanup_requests(window_present, taken.is_some()));
    }
    (plan, taken)
}

/// Number of times `a` occurs in `s`.
pub open spec fn occurrences(s: Seq<CleanupAction>, a: CleanupAction) -> nat
    decreases s.len(),
{
    if s.len() == 0 {
        0
    } else {
        (if s[0] == a { 1nat } else { 0nat }) + occurrences(s.drop_first(), a)
    }
}

/// A cleanup stores the disable value to `CTRL` exactly once when the window
/// is there and not at all when it is gone, and disables the clock exactly
/// once when it still held it, in either case.
pub proof fn lemma_cleanup_once(window_present: bool, took_clock: bool)
    ensures
        occurrences(cleanup_requests(window_present, took_clock), CleanupAction::Write(Reg::Ctrl, RNG_DISABLE))
            == (if window_present { 1nat } else { 0nat }),
        occurrences(cleanup_requests(window_present, took_clock), CleanupAction::DisableClock) == (
        if took_clock {
            1nat
        } else {
            0nat
        }),
{
    let w = CleanupAction::Write(Reg::Ctrl, RNG_DISABLE);
    let d = CleanupAction::DisableClock;
    let s = cleanup_requests(window_present, took_clock);
    reveal_with_fuel(occurrences, 3);
    if window_present {
        assert(s.drop_first() =~= cleanup_requests(false, took_clock));
    }
    if took_clock {
        assert(seq![d].drop_first() =~= Seq::<CleanupAction>::empty());
    }
    assert(cleanup_requests(false, took_clock) =~= (if took_clock { seq![d] } else { seq![] }));
}

} // verus!
