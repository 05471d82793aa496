use bcm2835_rng::{
    cleanup, lookup_variant, resolve_variant, CleanupAction, DriverError, EnabledClock, InitAction, InitOp,
    IoError, ProbeAction, ProbeOp, Reg, Reset, TakeOnce, VariantConfig, RNG_DISABLE, RNG_ENABLE,
    RNG_WARMUP_COUNT,
};

#[derive(Debug, PartialEq, Clone, Copy)]
enum Access {
    Load(Reg),
    Store(Reg, u32),
    Pulse,
}

/// A register block that remembers every access.
struct Block {
    ctrl: u32,
    status: u32,
    int_mask: u32,
    log: Vec<Access>,
    pulses: usize,
    fail_pulse: bool,
    fail_store_to: Option<Reg>,
}

impl Block {
    fn new() -> Block {
        Block { ctrl: 0, status: 0, int_mask: 0x80, log: vec![], pulses: 0, fail_pulse: false, fail_store_to: None }
    }

    fn init(&mut self, reset: &mut TakeOnce<Reset>, config: VariantConfig) -> Result<(), DriverError> {
        let (mut op, mut action, taken) = InitOp::start(reset, config);
        loop {
            let ev = match action {
                InitAction::Done => return Ok(()),
                InitAction::Fail(e) => return Err(e),
                InitAction::PulseReset => {
                    assert!(taken.is_some());
                    self.log.push(Access::Pulse);
                    self.pulses += 1;
                    if self.fail_pulse { Err(IoError) } else { Ok(0) }
                }
                InitAction::Read(reg) => {
                    self.log.push(Access::Load(reg));
                    Ok(match reg {
                        Reg::Ctrl => self.ctrl,
                        Reg::Status => self.status,
                        Reg::IntMask => self.int_mask,
                        Reg::Data => 0,
                    })
                }
                InitAction::Write(reg, v) => {
                    self.log.push(Access::Store(reg, v));
                    if self.fail_store_to == Some(reg) {
                        Err(IoError)
                    } else {
                        match reg {
                            Reg::Ctrl => self.ctrl = v,
                            Reg::Status => self.status = v,
                            Reg::IntMask => self.int_mask = v,
                            Reg::Data => {}
                        }
                        Ok(0)
                    }
                }
            };
            assert!(!op.finished());
            action = op.step(ev);
        }
    }
}

fn plain() -> VariantConfig {
    VariantConfig { mask_interrupts: false }
}

#[test]
fn init_pulses_reset_once_over_two_calls() {
    let mut block = Block::new();
    let mut reset = TakeOnce::new(Some(Reset::new(7)));
    assert_eq!(block.init(&mut reset, plain()), Ok(()));
    assert_eq!(block.init(&mut reset, plain()), Ok(()));
    assert_eq!(block.pulses, 1);
    assert!(!reset.is_held());
}

#[test]
fn init_without_reset_controller_never_pulses() {
    let mut block = Block::new();
    let mut reset: TakeOnce<Reset> = TakeOnce::new(None);
    assert_eq!(block.init(&mut reset, plain()), Ok(()));
    assert_eq!(block.pulses, 0);
}

#[test]
fn init_writes_warmup_before_enable() {
    let mut block = Block::new();
    let mut reset = TakeOnce::new(Some(Reset::new(1)));
    assert_eq!(block.init(&mut reset, plain()), Ok(()));
    assert_eq!(
        block.log,
        vec![
            Access::Pulse,
            Access::Load(Reg::Ctrl),
            Access::Store(Reg::Status, RNG_WARMUP_COUNT),
            Access::Store(Reg::Ctrl, RNG_ENABLE),
        ]
    );
    assert_eq!(block.status, 0x40000);
    assert_eq!(block.ctrl, 0x1);
}

#[test]
fn second_init_on_enabled_block_stores_nothing() {
    let mut block = Block::new();
    let mut reset = TakeOnce::new(Some(Reset::new(1)));
    assert_eq!(block.init(&mut reset, plain()), Ok(()));
    block.log.clear();
    assert_eq!(block.init(&mut reset, plain()), Ok(()));
    assert_eq!(block.log, vec![Access::Load(Reg::Ctrl)]);
}

#[test]
fn init_masks_interrupt_on_masking_variant() {
    let mut block = Block::new();
    block.ctrl = RNG_ENABLE;
    let mut reset: TakeOnce<Reset> = TakeOnce::new(None);
    let config = VariantConfig { mask_interrupts: true };
    assert_eq!(block.init(&mut reset, config), Ok(()));
    assert_eq!(
        block.log,
        vec![Access::Load(Reg::IntMask), Access::Store(Reg::IntMask, 0x81), Access::Load(Reg::Ctrl)]
    );
    assert_eq!(block.int_mask, 0x81);
}

#[test]
fn failed_pulse_fails_init_and_is_not_retried() {
    let mut block = Block::new();
    block.fail_pulse = true;
    let mut reset = TakeOnce::new(Some(Reset::new(2)));
    assert_eq!(block.init(&mut reset, plain()), Err(DriverError::DeviceError));
    assert_eq!(block.log, vec![Access::Pulse]);
    block.fail_pulse = false;
    assert_eq!(block.init(&mut reset, plain()), Ok(()));
    assert_eq!(block.pulses, 1);
}

#[test]
fn failed_warmup_store_stops_before_enable() {
    let mut block = Block::new();
    block.fail_store_to = Some(Reg::Status);
    let mut reset: TakeOnce<Reset> = TakeOnce::new(None);
    assert_eq!(block.init(&mut reset, plain()), Err(DriverError::DeviceError));
    assert_eq!(block.log, vec![Access::Load(Reg::Ctrl), Access::Store(Reg::Status, RNG_WARMUP_COUNT)]);
    assert_eq!(block.ctrl, 0);
}

#[test]
fn cleanup_disables_block_and_clock_once() {
    let mut clock = TakeOnce::new(Some(EnabledClock::new(4)));
    let (plan, taken) = cleanup(true, &mut clock);
    assert_eq!(plan, vec![CleanupAction::Write(Reg::Ctrl, RNG_DISABLE), CleanupAction::DisableClock]);
    assert_eq!(taken, Some(EnabledClock::new(4)));
    let (again, none) = cleanup(true, &mut clock);
    assert_eq!(again, vec![CleanupAction::Write(Reg::Ctrl, RNG_DISABLE)]);
    assert_eq!(none, None);
}

#[test]
fn cleanup_without_window_still_disables_clock() {
    let mut clock = TakeOnce::new(Some(EnabledClock::new(9)));
    let (plan, taken) = cleanup(false, &mut clock);
    assert_eq!(plan, vec![CleanupAction::DisableClock]);
    assert_eq!(taken.map(|c| c.line), Some(9));
}

#[test]
fn cleanup_without_clock_only_disables_block() {
    let mut clock: TakeOnce<EnabledClock> = TakeOnce::new(None);
    let (plan, taken) = cleanup(true, &mut clock);
    assert_eq!(plan, vec![CleanupAction::Write(Reg::Ctrl, 0)]);
    assert!(taken.is_none());
}

#[test]
fn racing_takes_give_the_capability_to_one_caller() {
    let guard = std::sync::Mutex::new(TakeOnce::new(Some(EnabledClock::new(5))));
    let results: Vec<Option<EnabledClock>> = (0..8).map(|_| guard.lock().unwrap().take_once()).collect();
    assert_eq!(results.iter().filter(|r| r.is_some()).count(), 1);
    assert_eq!(results[0], Some(EnabledClock::new(5)));
    assert!(!guard.lock().unwrap().is_held());

    let empty: std::sync::Mutex<TakeOnce<EnabledClock>> = std::sync::Mutex::new(TakeOnce::new(None));
    assert!((0..4).all(|_| empty.lock().unwrap().take_once().is_none()));
}

fn probe(outcomes: &[bool]) -> (Vec<ProbeAction>, ProbeAction) {
    let (mut op, mut action) = ProbeOp::start();
    let mut seen = vec![];
    for &ok in outcomes {
        if matches!(action, ProbeAction::Done | ProbeAction::Fail(_)) {
            break;
        }
        seen.push(action);
        action = op.step(ok);
    }
    (seen, action)
}

#[test]
fn probe_with_everything_present() {
    let (seen, last) = probe(&[true, true, true, true, true]);
    assert_eq!(
        seen,
        vec![
            ProbeAction::MapWindow,
            ProbeAction::FindClock,
            ProbeAction::EnableClock,
            ProbeAction::FindReset,
            ProbeAction::Register,
        ]
    );
    assert_eq!(last, ProbeAction::Done);
}

#[test]
fn probe_without_window_is_no_device() {
    let (seen, last) = probe(&[false]);
    assert_eq!(seen, vec![ProbeAction::MapWindow]);
    assert_eq!(last, ProbeAction::Fail(DriverError::NoDevice));
}

#[test]
fn probe_tolerates_missing_clock_and_reset() {
    let (seen, last) = probe(&[true, false, false, true]);
    assert_eq!(
        seen,
        vec![ProbeAction::MapWindow, ProbeAction::FindClock, ProbeAction::FindReset, ProbeAction::Register]
    );
    assert_eq!(last, ProbeAction::Done);
}

#[test]
fn probe_fails_when_found_clock_cannot_be_enabled() {
    let (_, last) = probe(&[true, true, false]);
    assert_eq!(last, ProbeAction::Fail(DriverError::DeviceError));
}

#[test]
fn probe_fails_when_registration_fails() {
    let (_, last) = probe(&[true, false, true, false]);
    assert_eq!(last, ProbeAction::Fail(DriverError::DeviceError));
}

#[test]
fn match_table() {
    let plain = Some(VariantConfig { mask_interrupts: false });
    let masked = Some(VariantConfig { mask_interrupts: true });
    assert_eq!(lookup_variant("brcm,bcm2835-rng"), plain);
    assert_eq!(lookup_variant("brcm,bcm6368-rng"), plain);
    assert_eq!(lookup_variant("brcm,bcm-nsp-rng"), masked);
    assert_eq!(lookup_variant("brcm,bcm5301x-rng"), masked);
    assert_eq!(lookup_variant("brcm,bcm2835-rn"), None);
    assert_eq!(lookup_variant(""), None);
    assert_eq!(lookup_variant("brcm,bcm2711-rng200"), None);
}

#[test]
fn variant_defaults_and_window_size() {
    assert_eq!(resolve_variant(None), VariantConfig { mask_interrupts: false });
    assert_eq!(resolve_variant(Some(VariantConfig { mask_interrupts: true })).mask_interrupts, true);
    assert_eq!(VariantConfig { mask_interrupts: false }.window_size(), 16);
    assert_eq!(VariantConfig { mask_interrupts: true }.window_size(), 20);
}
