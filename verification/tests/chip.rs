use std::collections::HashMap;

use reef_infer::chip::{
    check_credits, chip_info_ops, chip_init, credit_ops, read_chip_info, BusOp, BusTransfer,
    ChipAction, ChipInfo, Credits, REG_DEEP_SLEEP, REG_GCBB_CREDIT0, REG_MULTI_BO_EP, REG_OMC0_D4,
    REG_OMC0_D8, REG_RAMBIST_CTRL_1, REG_SCU_CTRL_0, REG_SCU_CTRL_2, REG_SCU_CTRL_3,
    REG_SCU_CTR_7, REG_SC_RUN_CTRL, REG_TILE_CONFIG0,
};
use reef_infer::usb::TransferError;

/// A chip whose power state follows the forced-sleep field, unless it is stuck.
struct Chip {
    registers: HashMap<u32, u64>,
    stuck: bool,
    log: Vec<BusOp>,
}

impl Chip {
    fn new() -> Chip {
        Chip { registers: HashMap::new(), stuck: false, log: Vec::new() }
    }

    fn get(&self, reg: u32) -> u64 {
        *self.registers.get(&reg).unwrap_or(&0)
    }

    fn perform(&mut self, op: BusOp) -> u64 {
        self.log.push(op);
        match op {
            BusOp::Read32 { reg } | BusOp::Read64 { reg } => self.get(reg),
            BusOp::Write32 { reg, value } => {
                let mut v = value as u64;
                if reg == REG_SCU_CTRL_3 && !self.stuck {
                    let state = if (v >> 22) & 3 == 3 { 2 } else { 0 };
                    v = (v & !0x300) | (state << 8);
                }
                self.registers.insert(reg, v);
                0
            }
            BusOp::Write64 { reg, value } => {
                self.registers.insert(reg, value);
                0
            }
        }
    }

    fn bring_up(&mut self, is_multi_endpoint: bool) -> Result<(), TransferError> {
        let mut init = chip_init(is_multi_endpoint);
        let mut reply = 0;
        loop {
            match init.next(Ok(reply)) {
                ChipAction::Bus(op) => reply = self.perform(op),
                ChipAction::Done => return Ok(()),
                ChipAction::Failed(e) => return Err(e),
            }
        }
    }
}

#[test]
fn brings_a_fresh_chip_up() {
    let mut chip = Chip::new();
    chip.registers.insert(REG_SCU_CTRL_0, 0xffff_ffff);
    chip.registers.insert(REG_SCU_CTRL_2, 0x0004_0001);
    chip.registers.insert(REG_SCU_CTRL_3, 0xf000_0000);
    chip.registers.insert(REG_RAMBIST_CTRL_1, 0xffff_ffff);
    chip.registers.insert(REG_SCU_CTR_7, 0xffff_ffff);
    assert_eq!(chip.bring_up(false), Ok(()));
    assert_eq!(chip.get(REG_SCU_CTRL_0), 0xffff_c0ff);
    assert_eq!(chip.get(REG_SCU_CTRL_2), 0x0004_0001);
    assert_eq!(chip.get(REG_SCU_CTRL_3), 0x0080_0000);
    assert_eq!(chip.get(REG_MULTI_BO_EP), 0);
    assert_eq!(chip.get(REG_DEEP_SLEEP), (30 << 8) | 2);
    assert_eq!(chip.get(REG_TILE_CONFIG0), 0x7f);
    assert_eq!(chip.get(REG_SC_RUN_CTRL), 1);
    assert_eq!(chip.get(REG_OMC0_D4), 1 << 31);
    assert_eq!(chip.get(REG_OMC0_D8), 1 << 31);
    assert_eq!(chip.get(REG_RAMBIST_CTRL_1), 0xff88_ffff);
    assert_eq!(chip.get(REG_SCU_CTR_7), 0xfff0_ffff);
    let pulse = [
        BusOp::Write32 { reg: REG_GCBB_CREDIT0, value: 0xf },
        BusOp::Write32 { reg: REG_GCBB_CREDIT0, value: 0 },
    ];
    assert!(chip.log.windows(2).any(|w| w == pulse));
    let forced_on = BusOp::Write32 { reg: REG_SCU_CTRL_2, value: 0x0008_0001 };
    assert!(chip.log.contains(&forced_on));
}

#[test]
fn skips_what_a_sleeping_chip_does_not_need() {
    let mut chip = Chip::new();
    chip.registers.insert(REG_SCU_CTRL_3, 0x00c0_0200);
    assert_eq!(chip.bring_up(true), Ok(()));
    assert_eq!(chip.get(REG_MULTI_BO_EP), 1);
    let pulsed = |op: &BusOp| matches!(op, BusOp::Write32 { reg: REG_GCBB_CREDIT0, .. });
    assert!(!chip.log.iter().any(pulsed));
    let writes =
        chip.log.iter().filter(|op| matches!(op, BusOp::Write32 { reg: REG_SCU_CTRL_2, .. }));
    assert_eq!(writes.count(), 1);
}

#[test]
fn gives_up_on_a_stuck_chip() {
    let mut chip = Chip::new();
    chip.stuck = true;
    assert_eq!(chip.bring_up(false), Err(TransferError::Unknown(0)));
    let polls = chip.log.iter().filter(|op| **op == BusOp::Read32 { reg: REG_SCU_CTRL_3 });
    assert_eq!(polls.count(), 1001);
}

#[test]
fn waits_for_the_scalar_core_at_most_a_hundred_times() {
    let mut init = chip_init(false);
    let mut chip = Chip::new();
    let mut reply = 0;
    let mut reads = 0;
    loop {
        match init.next(Ok(reply)) {
            ChipAction::Bus(BusOp::Read64 { reg: REG_SC_RUN_CTRL }) => {
                reads += 1;
                reply = 7;
            }
            ChipAction::Bus(op) => reply = chip.perform(op),
            ChipAction::Done => break,
            ChipAction::Failed(e) => panic!("{}", e.to_string()),
        }
    }
    assert_eq!(reads, 101);
}

#[test]
fn passes_bus_errors_on() {
    let mut init = chip_init(false);
    assert!(matches!(init.next(Ok(0)), ChipAction::Bus(_)));
    assert_eq!(init.next(Err(TransferError::Stall)), ChipAction::Failed(TransferError::Stall));
}

#[test]
fn bus_operations_are_register_transfers() {
    match (BusOp::Read32 { reg: 0x0001_a000 }).transfer() {
        BusTransfer::Read(r) => assert_eq!((r.request, r.value, r.index, r.length), (1, 0xa000, 1, 4)),
        BusTransfer::Write(_) => panic!("expected a read"),
    }
    match (BusOp::Read64 { reg: 0x0004_c150 }).transfer() {
        BusTransfer::Read(r) => assert_eq!((r.request, r.value, r.index, r.length), (0, 0xc150, 4, 8)),
        BusTransfer::Write(_) => panic!("expected a read"),
    }
    match (BusOp::Write32 { reg: 0x0001_a000, value: 0xffff }).transfer() {
        BusTransfer::Write(w) => assert_eq!((w.request, w.data), (1, vec![0xff, 0xff, 0, 0])),
        BusTransfer::Read(_) => panic!("expected a write"),
    }
    match (BusOp::Write64 { reg: 0x0004_a000, value: 1 }).transfer() {
        BusTransfer::Write(w) => assert_eq!((w.request, w.data), (0, vec![1, 0, 0, 0, 0, 0, 0, 0])),
        BusTransfer::Read(_) => panic!("expected a write"),
    }
    let read = BusOp::Read32 { reg: 0 };
    assert_eq!(read.value(&[1, 2, 0, 0]), Ok(0x0201));
    assert_eq!(read.value(&[1, 2, 0]), Err(TransferError::Unknown(0)));
    assert_eq!(BusOp::Read64 { reg: 0 }.value(&[1, 0, 0, 0, 0, 0, 0, 0]), Ok(1));
    assert_eq!(BusOp::Write64 { reg: 0, value: 9 }.value(&[]), Ok(0));
}

#[test]
fn reads_the_chip_info() {
    assert_eq!(
        chip_info_ops(),
        [BusOp::Read32 { reg: 0x1a000 }, BusOp::Read32 { reg: 0x1a30c }]
    );
    assert_eq!(
        read_chip_info(0xab12_3456, 7),
        ChipInfo { efuse_revision: 0xab, scu_ctrl_0: 7 }
    );
}

#[test]
fn decodes_credits() {
    assert_eq!(
        credit_ops(),
        [
            BusOp::Write32 { reg: 0x1a000, value: 0xffff },
            BusOp::Read64 { reg: 0x4c150 },
        ]
    );
    assert_eq!(
        check_credits(1 | (2 << 21) | (3 << 42) | (1 << 63)),
        Credits { instructions: 8, input_activations: 16, parameters: 24 }
    );
    assert_eq!(
        check_credits(u64::MAX),
        Credits { instructions: 0xff_fff8, input_activations: 0xff_fff8, parameters: 0xff_fff8 }
    );
}
