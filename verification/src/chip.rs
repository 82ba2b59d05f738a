//! Chip bring-up: the register script that takes the chip out of reset, and
//! the meaning of its status registers.
//!
//! A [`ChipInit`] walks through the script one bus operation at a time. The
//! caller performs the operation and hands the register value back.

use vstd::prelude::*;

use crate::bytes::le_nat;
use crate::usb::registers::{
    extract_field, field_of, is_register_write, read_register32, read_register64, register32_value,
    register64_value, register_read, write_register32, write_register64, ControlRead, ControlWrite,
};
use crate::usb::TransferError;

verus! {

// Top level and SCU.
/// E-fuse data; bits 31:24 are the programming revision.
pub const REG_OMC0_00: u32 = 0x1a000;

/// Clock and PHY; bits 8:10 PCIe inactive mode, bits 11:13 USB inactive mode.
pub const REG_SCU_CTRL_0: u32 = 0x1a30c;

/// Bits 18:19 are `rg_gated_gcb` (1 gated by hardware, 2 forced on).
pub const REG_SCU_CTRL_2: u32 = 0x1a314;

/// Bits 22:23 are `rg_force_sleep`, bits 8:9 `cur_pwr_state`.
pub const REG_SCU_CTRL_3: u32 = 0x1a318;

/// Bulk credit of the CB bridge; cleared by a pulse.
pub const REG_GCBB_CREDIT0: u32 = 0x1907c;

// Tile broadcast.
/// Broadcast mask over the tiles; `0x7F` selects all of them.
pub const REG_TILE_CONFIG0: u32 = 0x48788;

/// Sleep and wake delays of the tiles.
pub const REG_DEEP_SLEEP: u32 = 0x40020;

/// Idle control.
pub const REG_IDLE: u32 = 0x4a000;

// Interrupts at the top level.
/// Thermal warning; bit 31 enables it.
pub const REG_OMC0_D4: u32 = 0x1a0d4;

/// Thermal shutdown; bit 31 enables it.
pub const REG_OMC0_D8: u32 = 0x1a0d8;

/// Slave ABM enable.
pub const REG_SLV_ABM_EN: u32 = 0x1a500;

/// Slave error interrupt mask.
pub const REG_SLV_ERR_ISR_MASK: u32 = 0x1a558;

/// Master ABM enable.
pub const REG_MST_ABM_EN: u32 = 0x1a600;

/// Master error interrupt mask.
pub const REG_MST_ERR_ISR_MASK: u32 = 0x1a658;

/// Memory self test; bits 22:20 mask its interrupts, bits 18:16 their status.
pub const REG_RAMBIST_CTRL_1: u32 = 0x1a704;

/// Boot failure; bits 19:18 mask it.
pub const REG_SCU_CTR_7: u32 = 0x1a33c;

// USB interrupt controllers.
/// Fatal error interrupt control.
pub const REG_FATAL_ERR_INT_CTRL: u32 = 0x4c060;

/// Top-level interrupt 0 control.
pub const REG_TOP_LEVEL_INT_0_CTRL: u32 = 0x4c070;

/// Top-level interrupt 1 control.
pub const REG_TOP_LEVEL_INT_1_CTRL: u32 = 0x4c080;

/// Top-level interrupt 2 control.
pub const REG_TOP_LEVEL_INT_2_CTRL: u32 = 0x4c090;

/// Top-level interrupt 3 control.
pub const REG_TOP_LEVEL_INT_3_CTRL: u32 = 0x4c0a0;

// USB interface.
/// Outfeed chunk length; `0x80` is 1 KiB.
pub const REG_OUTFEED_CHUNK_LEN: u32 = 0x4c058;

/// Descriptor endpoint enable mask.
pub const REG_DESCR_EP: u32 = 0x4c148;

/// Transfer credits.
pub const REG_EP_STATUS_CREDIT: u32 = 0x4c150;

/// Bulk-out mode: 0 single endpoint, 1 multiple endpoints.
pub const REG_MULTI_BO_EP: u32 = 0x4c160;

// Run control of the scalar core.
/// Scalar core.
pub const REG_SC_RUN_CTRL: u32 = 0x44018;

/// Activation data pop.
pub const REG_AV_DATA_POP_RUN: u32 = 0x44158;

/// Parameter pop.
pub const REG_PARAM_POP_RUN: u32 = 0x44198;

/// Infeed.
pub const REG_INFEED_RUN: u32 = 0x441d8;

/// Outfeed.
pub const REG_OUTFEED_RUN: u32 = 0x44218;

// Run control of the tile datapaths.
/// Operation.
pub const REG_TILE_OP_RUN: u32 = 0x420c0;

/// Wide to narrow.
pub const REG_TILE_W2N_RUN: u32 = 0x42110;

/// Narrow to wide.
pub const REG_TILE_N2W_RUN: u32 = 0x42150;

/// Ring bus consumer 0.
pub const REG_TILE_RING_C0_RUN: u32 = 0x42190;

/// Ring bus consumer 1.
pub const REG_TILE_RING_C1_RUN: u32 = 0x421d0;

/// Ring bus producer.
pub const REG_TILE_RING_PROD_RUN: u32 = 0x42210;

/// Mesh bus 0.
pub const REG_TILE_MESH_BUS0_RUN: u32 = 0x42250;

/// Mesh bus 1.
pub const REG_TILE_MESH_BUS1_RUN: u32 = 0x42298;

/// Mesh bus 2.
pub const REG_TILE_MESH_BUS2_RUN: u32 = 0x422e0;

/// Mesh bus 3.
pub const REG_TILE_MESH_BUS3_RUN: u32 = 0x42328;

/// One operation on the register bus.
#[allow(inconsistent_fields)]
#[derive(Debug, Clone, Copy, PartialEq, Eq, Structural)]
pub enum BusOp {
    /// Read the 32-bit register at `reg`.
    Read32 { reg: u32 },
    /// Write the 32-bit register at `reg`.
    Write32 { reg: u32, value: u32 },
    /// Read the 64-bit register at `reg`.
    Read64 { reg: u32 },
    /// Write the 64-bit register at `reg`.
    Write64 { reg: u32, value: u64 },
}

/// The control transfer of a register operation.
#[derive(Debug)]
pub enum BusTransfer {
    Read(ControlRead),
    Write(ControlWrite),
}

/// The value in the reply to a register read of `length` bytes.
pub open spec fn reply_of(reply: Seq<u8>, length: nat) -> Result<u64, TransferError> {
    if reply.len() == length {
        Ok(le_nat(reply) as u64)
    } else {
        Err(TransferError::Unknown(0))
    }
}

impl BusOp {
    /// The control transfer that performs the operation.
    pub fn transfer(&self) -> (r: BusTransfer)
        ensures
            match *self {
                BusOp::Read32 { reg } => r == BusTransfer::Read(register_read(reg, 4)),
                BusOp::Write32 { reg, value } => r matches BusTransfer::Write(w)
                    && is_register_write(w, reg, value as nat, 4),
                BusOp::Read64 { reg } => r == BusTransfer::Read(register_read(reg, 8)),
                BusOp::Write64 { reg, value } => r matches BusTransfer::Write(w)
                    && is_register_write(w, reg, value as nat, 8),
            },
    {
        match *self {
            BusOp::Read32 { reg } => BusTransfer::Read(read_register32(reg)),
            BusOp::Write32 { reg, value } => BusTransfer::Write(write_register32(reg, value)),
            BusOp::Read64 { reg } => BusTransfer::Read(read_register64(reg)),
            BusOp::Write64 { reg, value } => BusTransfer::Write(write_register64(reg, value)),
        }
    }

    /// The value in the reply to the transfer; zero for a write.
    pub fn value(&self, reply: &[u8]) -> (r: Result<u64, TransferError>)
        ensures
            r == match *self {
                BusOp::Read32 { .. } => reply_of(reply@, 4),
                BusOp::Read64 { .. } => reply_of(reply@, 8),
                _ => Ok(0u64),
            },
    {
        match *self {
            BusOp::Read32 { .. } => match register32_value(reply) {
                Ok(v) => Ok(v as u64),
                Err(e) => Err(e),
            },
            BusOp::Read64 { .. } => register64_value(reply),
            _ => Ok(0),
        }
    }
}

/// One step of a register script.
#[allow(inconsistent_fields)]
#[derive(Debug, Clone, Copy, PartialEq, Eq, Structural)]
pub enum ScriptStep {
    /// Read a 32-bit register and write it back with the bits of `clear`
    /// cleared and then those of `set` set.
    Update32 { reg: u32, clear: u32, set: u32 },
    /// Read a 32-bit register. If the field at `shift` under `mask` is not
    /// `field`, skip the next `count` steps.
    SkipUnless { reg: u32, shift: u32, mask: u32, field: u32, count: usize },
    /// Read a 32-bit register. If the field at `shift` under `mask` is `field`
    /// already, skip the next `count` steps; otherwise write the register back
    /// as [`ScriptStep::Update32`] does.
    UpdateUnless {
        reg: u32,
        shift: u32,
        mask: u32,
        field: u32,
        clear: u32,
        set: u32,
        count: usize,
    },
    /// Read a 32-bit register until the field at `shift` under `mask` is
    /// `field`; fail after `attempts` reads.
    PollField { reg: u32, shift: u32, mask: u32, field: u32, attempts: u32 },
    /// Read a 64-bit register until it is `value`, but at most `attempts`
    /// times, and go on in any case.
    Await64 { reg: u32, value: u64, attempts: u32 },
    /// Read a 32-bit register.
    Read32 { reg: u32 },
    /// Read a 64-bit register.
    Read64 { reg: u32 },
    /// Write a 32-bit register.
    Write32 { reg: u32, value: u32 },
    /// Write a 64-bit register.
    Write64 { reg: u32, value: u64 },
}

/// The script that brings the chip up.
pub open spec fn init_script(is_multi_endpoint: bool) -> Seq<ScriptStep> {
    seq![
        // Open: leave the inactive PHY modes of PCIe and USB.
        ScriptStep::Update32 { reg: REG_SCU_CTRL_0, clear: 0x3F00, set: 0 },
        // Disable the hardware clock gate if it is on.
        ScriptStep::SkipUnless { reg: REG_SCU_CTRL_2, shift: 18, mask: 3, field: 1, count: 1 },
        ScriptStep::Update32 { reg: REG_SCU_CTRL_2, clear: 0xC_0000, set: 0x8_0000 },
        // Enable reset unless the chip is in forced sleep already.
        ScriptStep::UpdateUnless {
            reg: REG_SCU_CTRL_3,
            shift: 22,
            mask: 3,
            field: 3,
            clear: 0xC0_0000,
            set: 0xC0_0000,
            count: 4,
        },
        ScriptStep::PollField { reg: REG_SCU_CTRL_3, shift: 8, mask: 3, field: 2, attempts: 1000 },
        ScriptStep::Read32 { reg: REG_SCU_CTRL_3 },
        ScriptStep::Write32 { reg: REG_GCBB_CREDIT0, value: 0xF },
        ScriptStep::Write32 { reg: REG_GCBB_CREDIT0, value: 0 },
        // Quit reset: wake up, with the fastest clocks.
        ScriptStep::Update32 { reg: REG_SCU_CTRL_3, clear: 0xF0C0_0000, set: 0x80_0000 },
        ScriptStep::PollField { reg: REG_SCU_CTRL_3, shift: 8, mask: 3, field: 0, attempts: 1000 },
        ScriptStep::Read32 { reg: REG_SCU_CTRL_3 },
        ScriptStep::Read64 { reg: REG_SC_RUN_CTRL },
        ScriptStep::Await64 { reg: REG_SC_RUN_CTRL, value: 0, attempts: 100 },
        ScriptStep::Write64 { reg: REG_IDLE, value: 1 },
        ScriptStep::Write64 { reg: REG_TILE_CONFIG0, value: 0x7F },
        ScriptStep::Await64 { reg: REG_TILE_CONFIG0, value: 0x7F, attempts: 100 },
        ScriptStep::Write64 { reg: REG_DEEP_SLEEP, value: 0x1E02 },
        // Enable the hardware clock gate.
        ScriptStep::Update32 { reg: REG_SCU_CTRL_2, clear: 0xC_0000, set: 0x4_0000 },
        // Endpoints and outfeed.
        ScriptStep::Write64 { reg: REG_DESCR_EP, value: 0xFF },
        ScriptStep::Write64 {
            reg: REG_MULTI_BO_EP,
            value: if is_multi_endpoint {
                1
            } else {
                0
            },
        },
        ScriptStep::Write64 { reg: REG_OUTFEED_CHUNK_LEN, value: 0x80 },
        // Move the scalar core to run.
        ScriptStep::Write64 { reg: REG_SC_RUN_CTRL, value: 1 },
        ScriptStep::Write64 { reg: REG_AV_DATA_POP_RUN, value: 1 },
        ScriptStep::Write64 { reg: REG_PARAM_POP_RUN, value: 1 },
        ScriptStep::Write64 { reg: REG_INFEED_RUN, value: 1 },
        ScriptStep::Write64 { reg: REG_OUTFEED_RUN, value: 1 },
        // Move all tiles to run.
        ScriptStep::Write64 { reg: REG_TILE_CONFIG0, value: 0x7F },
        ScriptStep::Await64 { reg: REG_TILE_CONFIG0, value: 0x7F, attempts: 100 },
        ScriptStep::Write64 { reg: REG_TILE_OP_RUN, value: 1 },
        ScriptStep::Write64 { reg: REG_TILE_W2N_RUN, value: 1 },
        ScriptStep::Write64 { reg: REG_TILE_N2W_RUN, value: 1 },
        ScriptStep::Write64 { reg: REG_TILE_RING_C0_RUN, value: 1 },
        ScriptStep::Write64 { reg: REG_TILE_RING_C1_RUN, value: 1 },
        ScriptStep::Write64 { reg: REG_TILE_RING_PROD_RUN, value: 1 },
        ScriptStep::Write64 { reg: REG_TILE_MESH_BUS0_RUN, value: 1 },
        ScriptStep::Write64 { reg: REG_TILE_MESH_BUS1_RUN, value: 1 },
        ScriptStep::Write64 { reg: REG_TILE_MESH_BUS2_RUN, value: 1 },
        ScriptStep::Write64 { reg: REG_TILE_MESH_BUS3_RUN, value: 1 },
        // Interrupts: fatal errors, the four top-level groups, ...
        ScriptStep::Write64 { reg: REG_FATAL_ERR_INT_CTRL, value: 1 },
        ScriptStep::Write64 { reg: REG_TOP_LEVEL_INT_0_CTRL, value: 1 },
        ScriptStep::Write64 { reg: REG_TOP_LEVEL_INT_1_CTRL, value: 1 },
        ScriptStep::Write64 { reg: REG_TOP_LEVEL_INT_2_CTRL, value: 1 },
        ScriptStep::Write64 { reg: REG_TOP_LEVEL_INT_3_CTRL, value: 1 },
        // ... thermal warning, memory self test, boot failure, ...
        ScriptStep::Update32 { reg: REG_OMC0_D4, clear: 0, set: 0x8000_0000 },
        ScriptStep::Update32 { reg: REG_RAMBIST_CTRL_1, clear: 0x77_0000, set: 0 },
        ScriptStep::Update32 { reg: REG_SCU_CTR_7, clear: 0xF_0000, set: 0 },
        // ... bus errors and thermal shutdown.
        ScriptStep::Write32 { reg: REG_SLV_ABM_EN, value: 1 },
        ScriptStep::Write32 { reg: REG_MST_ABM_EN, value: 1 },
        ScriptStep::Write32 { reg: REG_SLV_ERR_ISR_MASK, value: 3 },
        ScriptStep::Write32 { reg: REG_MST_ERR_ISR_MASK, value: 3 },
        ScriptStep::Update32 { reg: REG_OMC0_D8, clear: 0, set: 0x8000_0000 },
    ]
}

/// Builds the script that brings the chip up.
fn build_script(is_multi_endpoint: bool) -> (r: Vec<ScriptStep>)
    ensures
        r@ == init_script(is_multi_endpoint),
{
    let multi: u64 = if is_multi_endpoint {
        1
    } else {
        0
    };
    let r: Vec<ScriptStep> = vec![
        ScriptStep::Update32 { reg: REG_SCU_CTRL_0, clear: 0x3F00, set: 0 },
        ScriptStep::SkipUnless { reg: REG_SCU_CTRL_2, shift: 18, mask: 3, field: 1, count: 1 },
        ScriptStep::Update32 { reg: REG_SCU_CTRL_2, clear: 0xC_0000, set: 0x8_0000 },
        ScriptStep::UpdateUnless {
            reg: REG_SCU_CTRL_3,
            shift: 22,
            mask: 3,
            field: 3,
            clear: 0xC0_0000,
            set: 0xC0_0000,
            count: 4,
        },
        ScriptStep::PollField { reg: REG_SCU_CTRL_3, shift: 8, mask: 3, field: 2, attempts: 1000 },
        ScriptStep::Read32 { reg: REG_SCU_CTRL_3 },
        ScriptStep::Write32 { reg: REG_GCBB_CREDIT0, value: 0xF },
        ScriptStep::Write32 { reg: REG_GCBB_CREDIT0, value: 0 },
        ScriptStep::Update32 { reg: REG_SCU_CTRL_3, clear: 0xF0C0_0000, set: 0x80_0000 },
        ScriptStep::PollField { reg: REG_SCU_CTRL_3, shift: 8, mask: 3, field: 0, attempts: 1000 },
        ScriptStep::Read32 { reg: REG_SCU_CTRL_3 },
        ScriptStep::Read64 { reg: REG_SC_RUN_CTRL },
        ScriptStep::Await64 { reg: REG_SC_RUN_CTRL, value: 0, attempts: 100 },
        ScriptStep::Write64 { reg: REG_IDLE, value: 1 },
        ScriptStep::Write64 { reg: REG_TILE_CONFIG0, value: 0x7F },
        ScriptStep::Await64 { reg: REG_TILE_CONFIG0, value: 0x7F, attempts: 100 },
        ScriptStep::Write64 { reg: REG_DEEP_SLEEP, value: 0x1E02 },
        ScriptStep::Update32 { reg: REG_SCU_CTRL_2, clear: 0xC_0000, set: 0x4_0000 },
        ScriptStep::Write64 { reg: REG_DESCR_EP, value: 0xFF },
        ScriptStep::Write64 { reg: REG_MULTI_BO_EP, value: multi },
        ScriptStep::Write64 { reg: REG_OUTFEED_CHUNK_LEN, value: 0x80 },
        ScriptStep::Write64 { reg: REG_SC_RUN_CTRL, value: 1 },
        ScriptStep::Write64 { reg: REG_AV_DATA_POP_RUN, value: 1 },
        ScriptStep::Write64 { reg: REG_PARAM_POP_RUN, value: 1 },
        ScriptStep::Write64 { reg: REG_INFEED_RUN, value: 1 },
        ScriptStep::Write64 { reg: REG_OUTFEED_RUN, value: 1 },
        ScriptStep::Write64 { reg: REG_TILE_CONFIG0, value: 0x7F },
        ScriptStep::Await64 { reg: REG_TILE_CONFIG0, value: 0x7F, attempts: 100 },
        ScriptStep::Write64 { reg: REG_TILE_OP_RUN, value: 1 },
        ScriptStep::Write64 { reg: REG_TILE_W2N_RUN, value: 1 },
        ScriptStep::Write64 { reg: REG_TILE_N2W_RUN, value: 1 },
        ScriptStep::Write64 { reg: REG_TILE_RING_C0_RUN, value: 1 },
        ScriptStep::Write64 { reg: REG_TILE_RING_C1_RUN, value: 1 },
        ScriptStep::Write64 { reg: REG_TILE_RING_PROD_RUN, value: 1 },
        ScriptStep::Write64 { reg: REG_TILE_MESH_BUS0_RUN, value: 1 },
        ScriptStep::Write64 { reg: REG_TILE_MESH_BUS1_RUN, value: 1 },
        ScriptStep::Write64 { reg: REG_TILE_MESH_BUS2_RUN, value: 1 },
        ScriptStep::Write64 { reg: REG_TILE_MESH_BUS3_RUN, value: 1 },
        ScriptStep::Write64 { reg: REG_FATAL_ERR_INT_CTRL, value: 1 },
        ScriptStep::Write64 { reg: REG_TOP_LEVEL_INT_0_CTRL, value: 1 },
        ScriptStep::Write64 { reg: REG_TOP_LEVEL_INT_1_CTRL, value: 1 },
        ScriptStep::Write64 { reg: REG_TOP_LEVEL_INT_2_CTRL, value: 1 },
        ScriptStep::Write64 { reg: REG_TOP_LEVEL_INT_3_CTRL, value: 1 },
        ScriptStep::Update32 { reg: REG_OMC0_D4, clear: 0, set: 0x8000_0000 },
        ScriptStep::Update32 { reg: REG_RAMBIST_CTRL_1, clear: 0x77_0000, set: 0 },
        ScriptStep::Update32 { reg: REG_SCU_CTR_7, clear: 0xF_0000, set: 0 },
        ScriptStep::Write32 { reg: REG_SLV_ABM_EN, value: 1 },
        ScriptStep::Write32 { reg: REG_MST_ABM_EN, value: 1 },
        ScriptStep::Write32 { reg: REG_SLV_ERR_ISR_MASK, value: 3 },
        ScriptStep::Write32 { reg: REG_MST_ERR_ISR_MASK, value: 3 },
        ScriptStep::Update32 { reg: REG_OMC0_D8, clear: 0, set: 0x8000_0000 },
    ];
    assert(r@ =~= init_script(is_multi_endpoint));
    r
}

/// Where within a script step a [`ChipInit`] is.
#[derive(Debug, Clone, Copy, PartialEq, Eq, Structural)]
pub enum Phase {
    /// Before the step.
    Idle,
    /// The step has read its register this many times.
    Reading(u32),
    /// The step has written its register.
    Writing,
    /// The script has ended.
    Ended,
}

/// What a [`ChipInit`] does next.
#[derive(Debug, Clone, Copy, PartialEq, Eq, Structural)]
pub enum ChipAction {
    /// Perform this operation.
    Bus(BusOp),
    /// The chip is up.
    Done,
    /// The chip could not be brought up.
    Failed(TransferError),
}

/// A walk through a register script.
pub struct ChipInit {
    script: Vec<ScriptStep>,
    pc: usize,
    phase: Phase,
}

/// Mathematical view of [`ChipInit`].
pub struct ChipView {
    pub script: Seq<ScriptStep>,
    pub pc: nat,
    pub phase: Phase,
}

impl View for ChipInit {
    type V = ChipView;

    closed spec fn view(&self) -> ChipView {
        ChipView { script: self.script@, pc: self.pc as nat, phase: self.phase }
    }
}

/// A step can be carried out: its shift is within the register and it reads at
/// least once.
pub open spec fn step_sound(step: ScriptStep) -> bool {
    match step {
        ScriptStep::SkipUnless { reg, shift, mask, field, count } => shift < 32 && count < 0x1000,
        ScriptStep::UpdateUnless { reg, shift, mask, field, clear, set, count } => shift < 32
            && count < 0x1000,
        ScriptStep::PollField { reg, shift, mask, field, attempts } => shift < 32 && attempts >= 1,
        ScriptStep::Await64 { reg, value, attempts } => attempts >= 1,
        _ => true,
    }
}

/// A step that begins with a write.
pub open spec fn writes_first(step: ScriptStep) -> bool {
    step is Write32 || step is Write64
}

/// The walk is in a state that it can reach.
pub open spec fn chip_sound(v: ChipView) -> bool {
    &&& v.script.len() < 0x1000
    &&& v.pc < 0x4000
    &&& forall|i: int| 0 <= i < v.script.len() ==> step_sound(#[trigger] v.script[i])
    &&& v.phase is Reading ==> v.pc < v.script.len() && !writes_first(v.script[v.pc as int])
    &&& v.phase is Writing ==> v.pc < v.script.len()
}

/// The first operation of a step.
pub open spec fn first_op(step: ScriptStep) -> BusOp {
    match step {
        ScriptStep::Update32 { reg, clear, set } => BusOp::Read32 { reg },
        ScriptStep::SkipUnless { reg, shift, mask, field, count } => BusOp::Read32 { reg },
        ScriptStep::UpdateUnless { reg, shift, mask, field, clear, set, count } => BusOp::Read32 {
            reg,
        },
        ScriptStep::PollField { reg, shift, mask, field, attempts } => BusOp::Read32 { reg },
        ScriptStep::Await64 { reg, value, attempts } => BusOp::Read64 { reg },
        ScriptStep::Read32 { reg } => BusOp::Read32 { reg },
        ScriptStep::Read64 { reg } => BusOp::Read64 { reg },
        ScriptStep::Write32 { reg, value } => BusOp::Write32 { reg, value },
        ScriptStep::Write64 { reg, value } => BusOp::Write64 { reg, value },
    }
}

/// The value of a 32-bit register in a reply.
pub open spec fn reply32(reply: u64) -> u32 {
    (reply % 0x1_0000_0000) as u32
}

/// A register value with the bits of `clear` cleared and those of `set` set.
pub open spec fn updated(v: u32, clear: u32, set: u32) -> u32 {
    (v & !clear) | set
}

/// A walk that begins the step at `pc`, or ends behind the last step.
pub open spec fn enter(script: Seq<ScriptStep>, pc: nat) -> (ChipView, ChipAction) {
    if pc >= script.len() {
        (ChipView { script, pc, phase: Phase::Ended }, ChipAction::Done)
    } else {
        (
            ChipView {
                script,
                pc,
                phase: if writes_first(script[pc as int]) {
                    Phase::Writing
                } else {
                    Phase::Reading(1)
                },
            },
            ChipAction::Bus(first_op(script[pc as int])),
        )
    }
}

/// A walk that writes the register of its current step.
pub open spec fn write_back(v: ChipView, reg: u32, value: u32) -> (ChipView, ChipAction) {
    (
        ChipView { phase: Phase::Writing, ..v },
        ChipAction::Bus(BusOp::Write32 { reg, value }),
    )
}

/// A walk that reads the register of its current step again, after `n` reads.
pub open spec fn read_again(v: ChipView, n: u32) -> (ChipView, ChipAction) {
    (
        ChipView { phase: Phase::Reading((n + 1) as u32), ..v },
        ChipAction::Bus(first_op(v.script[v.pc as int])),
    )
}

/// What a walk does when its last operation came back with `reply`.
pub open spec fn chip_next(v: ChipView, reply: u64) -> (ChipView, ChipAction) {
    match v.phase {
        Phase::Idle => enter(v.script, v.pc),
        Phase::Writing => enter(v.script, v.pc + 1),
        Phase::Ended => (v, ChipAction::Done),
        Phase::Reading(n) => match v.script[v.pc as int] {
            ScriptStep::Update32 { reg, clear, set } => write_back(
                v,
                reg,
                updated(reply32(reply), clear, set),
            ),
            ScriptStep::SkipUnless { reg, shift, mask, field, count } => if field_of(
                reply32(reply),
                shift,
                mask,
            ) == field {
                enter(v.script, v.pc + 1)
            } else {
                enter(v.script, v.pc + 1 + count as nat)
            },
            ScriptStep::UpdateUnless { reg, shift, mask, field, clear, set, count } => if field_of(
                reply32(reply),
                shift,
                mask,
            ) == field {
                enter(v.script, v.pc + 1 + count as nat)
            } else {
                write_back(v, reg, updated(reply32(reply), clear, set))
            },
            ScriptStep::PollField { reg, shift, mask, field, attempts } => if field_of(
                reply32(reply),
                shift,
                mask,
            ) == field {
                enter(v.script, v.pc + 1)
            } else if n < attempts {
                read_again(v, n)
            } else {
                (
                    ChipView { phase: Phase::Ended, ..v },
                    ChipAction::Failed(TransferError::Unknown(0)),
                )
            },
            ScriptStep::Await64 { reg, value, attempts } => if reply != value && n < attempts {
                read_again(v, n)
            } else {
                enter(v.script, v.pc + 1)
            },
            _ => enter(v.script, v.pc + 1),
        },
    }
}

/// Starts bringing the chip up.
pub fn chip_init(is_multi_endpoint: bool) -> (r: ChipInit)
    ensures
        r@ == (ChipView { script: init_script(is_multi_endpoint), pc: 0, phase: Phase::Idle }),
        chip_sound(r@),
{
    let r = ChipInit { script: build_script(is_multi_endpoint), pc: 0, phase: Phase::Idle };
    r
}

impl ChipInit {
    /// Begins the step at `pc`, or ends behind the last step.
    fn enter(&mut self, pc: usize) -> (r: ChipAction)
        requires
            chip_sound(old(self)@),
            pc < 0x4000,
        ensures
            (final(self)@, r) == enter(old(self)@.script, pc as nat),
            chip_sound(final(self)@),
    {
        self.pc = pc;
        if pc >= self.script.len() {
            self.phase = Phase::Ended;
            return ChipAction::Done;
        }
        match self.script[pc] {
            ScriptStep::Write32 { reg, value } => {
                self.phase = Phase::Writing;
                ChipAction::Bus(BusOp::Write32 { reg, value })
            },
            ScriptStep::Write64 { reg, value } => {
                self.phase = Phase::Writing;
                ChipAction::Bus(BusOp::Write64 { reg, value })
            },
            ScriptStep::Update32 { reg, .. }
            | ScriptStep::SkipUnless { reg, .. }
            | ScriptStep::UpdateUnless { reg, .. }
            | ScriptStep::PollField { reg, .. }
            | ScriptStep::Read32 { reg } => {
                self.phase = Phase::Reading(1);
                ChipAction::Bus(BusOp::Read32 { reg })
            },
            ScriptStep::Await64 { reg, .. } | ScriptStep::Read64 { reg } => {
                self.phase = Phase::Reading(1);
                ChipAction::Bus(BusOp::Read64 { reg })
            },
        }
    }

    /// Takes the outcome of the last operation and tells what to do next. A read
    /// hands back the register value; the value after a write, and at the start,
    /// does not matter. A failed operation ends the walk with its error.
    pub fn next(&mut self, reply: Result<u64, TransferError>) -> (r: ChipAction)
        requires
            chip_sound(old(self)@),
        ensures
            match reply {
                Ok(value) => (final(self)@, r) == chip_next(old(self)@, value),
                Err(e) => {
                    &&& final(self)@ == ChipView { phase: Phase::Ended, ..old(self)@ }
                    &&& r == ChipAction::Failed(e)
                },
            },
            chip_sound(final(self)@),
    {
        let value: u64 = match reply {
            Ok(value) => value,
            Err(e) => {
                self.phase = Phase::Ended;
                return ChipAction::Failed(e);
            },
        };
        let v32: u32 = (value % 0x1_0000_0000) as u32;
        let pc: usize = self.pc;
        match self.phase {
            Phase::Idle => self.enter(pc),
            Phase::Writing => self.enter(pc + 1),
            Phase::Ended => ChipAction::Done,
            Phase::Reading(n) => {
                assert(step_sound(self.script@[pc as int]));
                match self.script[pc] {
                    ScriptStep::Update32 { reg, clear, set } => {
                        self.phase = Phase::Writing;
                        ChipAction::Bus(BusOp::Write32 { reg, value: (v32 & !clear) | set })
                    },
                    ScriptStep::SkipUnless { reg: _, shift, mask, field, count } => {
                        if extract_field(v32, shift, mask) == field {
                            self.enter(pc + 1)
                        } else {
                            self.enter(pc + 1 + count)
                        }
                    },
                    ScriptStep::UpdateUnless { reg, shift, mask, field, clear, set, count } => {
                        if extract_field(v32, shift, mask) == field {
                            self.enter(pc + 1 + count)
                        } else {
                            self.phase = Phase::Writing;
                            ChipAction::Bus(BusOp::Write32 { reg, value: (v32 & !clear) | set })
                        }
                    },
                    ScriptStep::PollField { reg, shift, mask, field, attempts } => {
                        if extract_field(v32, shift, mask) == field {
                            self.enter(pc + 1)
                        } else if n < attempts {
                            self.phase = Phase::Reading(n + 1);
                            ChipAction::Bus(BusOp::Read32 { reg })
                        } else {
                            self.phase = Phase::Ended;
                            ChipAction::Failed(TransferError::Unknown(0))
                        }
                    },
                    ScriptStep::Await64 { reg, value: wanted, attempts } => {
                        if value != wanted && n < attempts {
                            self.phase = Phase::Reading(n + 1);
                            ChipAction::Bus(BusOp::Read64 { reg })
                        } else {
                            self.enter(pc + 1)
                        }
                    },
                    _ => self.enter(pc + 1),
                }
            },
        }
    }
}

// What a script does as a whole, for a bus whose `n`-th operation, counted from
// zero, comes back with `replies(n)`.

/// Whether a reply ends the reading of a polling step.
pub open spec fn hits(step: ScriptStep, reply: u64) -> bool {
    match step {
        ScriptStep::PollField { reg, shift, mask, field, attempts } => field_of(
            reply32(reply),
            shift,
            mask,
        ) == field,
        ScriptStep::Await64 { reg, value, attempts } => reply == value,
        _ => true,
    }
}

/// How often a step that may read `attempts` times does read, when its first
/// read is operation `m`.
pub open spec fn poll_reads(
    step: ScriptStep,
    replies: spec_fn(nat) -> u64,
    m: nat,
    attempts: nat,
) -> nat
    decreases attempts,
{
    if attempts <= 1 || hits(step, replies(m)) {
        1
    } else {
        1 + poll_reads(step, replies, m + 1, (attempts - 1) as nat)
    }
}

/// Whether one of those reads ends the polling.
pub open spec fn poll_found(
    step: ScriptStep,
    replies: spec_fn(nat) -> u64,
    m: nat,
    attempts: nat,
) -> bool
    decreases attempts,
{
    hits(step, replies(m)) || (attempts > 1 && poll_found(
        step,
        replies,
        m + 1,
        (attempts - 1) as nat,
    ))
}

/// The operations of one step that begins with operation `m`.
pub open spec fn step_ops(step: ScriptStep, replies: spec_fn(nat) -> u64, m: nat) -> Seq<BusOp> {
    let v = reply32(replies(m));
    match step {
        ScriptStep::Update32 { reg, clear, set } => seq![
            BusOp::Read32 { reg },
            BusOp::Write32 { reg, value: updated(v, clear, set) },
        ],
        ScriptStep::UpdateUnless { reg, shift, mask, field, clear, set, count } => if field_of(
            v,
            shift,
            mask,
        ) == field {
            seq![BusOp::Read32 { reg }]
        } else {
            seq![BusOp::Read32 { reg }, BusOp::Write32 { reg, value: updated(v, clear, set) }]
        },
        ScriptStep::PollField { reg, shift, mask, field, attempts } => Seq::new(
            poll_reads(step, replies, m, attempts as nat),
            |i: int| BusOp::Read32 { reg },
        ),
        ScriptStep::Await64 { reg, value, attempts } => Seq::new(
            poll_reads(step, replies, m, attempts as nat),
            |i: int| BusOp::Read64 { reg },
        ),
        _ => seq![first_op(step)],
    }
}

/// How many steps are skipped behind a step that begins with operation `m`.
pub open spec fn step_skips(step: ScriptStep, replies: spec_fn(nat) -> u64, m: nat) -> nat {
    let v = reply32(replies(m));
    match step {
        ScriptStep::SkipUnless { reg, shift, mask, field, count } => if field_of(v, shift, mask)
            == field {
            0
        } else {
            count as nat
        },
        ScriptStep::UpdateUnless { reg, shift, mask, field, clear, set, count } => if field_of(
            v,
            shift,
            mask,
        ) == field {
            count as nat
        } else {
            0
        },
        _ => 0,
    }
}

/// Whether a step that begins with operation `m` fails: only a field that never
/// shows its value fails.
pub open spec fn step_fails(step: ScriptStep, replies: spec_fn(nat) -> u64, m: nat) -> bool {
    match step {
        ScriptStep::PollField { reg, shift, mask, field, attempts } => !poll_found(
            step,
            replies,
            m,
            attempts as nat,
        ),
        _ => false,
    }
}

/// All operations of a script from step `pc` on, the first of them being
/// operation `m`.
pub open spec fn script_ops(
    script: Seq<ScriptStep>,
    pc: nat,
    replies: spec_fn(nat) -> u64,
    m: nat,
) -> Seq<BusOp>
    decreases
            if pc < script.len() {
                script.len() - pc
            } else {
                0
            },
{
    if pc >= script.len() {
        Seq::empty()
    } else {
        let step = script[pc as int];
        let ops = step_ops(step, replies, m);
        if step_fails(step, replies, m) {
            ops
        } else {
            ops + script_ops(
                script,
                pc + 1 + step_skips(step, replies, m),
                replies,
                m + ops.len(),
            )
        }
    }
}

/// Whether a script succeeds from step `pc` on.
pub open spec fn script_succeeds(
    script: Seq<ScriptStep>,
    pc: nat,
    replies: spec_fn(nat) -> u64,
    m: nat,
) -> bool
    decreases
            if pc < script.len() {
                script.len() - pc
            } else {
                0
            },
{
    if pc >= script.len() {
        true
    } else {
        let step = script[pc as int];
        !step_fails(step, replies, m) && script_succeeds(
            script,
            pc + 1 + step_skips(step, replies, m),
            replies,
            m + step_ops(step, replies, m).len(),
        )
    }
}

/// The number of operations that the current step has performed.
pub open spec fn ops_in_step(v: ChipView) -> nat {
    match v.phase {
        Phase::Reading(k) => k as nat,
        Phase::Writing => if writes_first(v.script[v.pc as int]) {
            1
        } else {
            2
        },
        _ => 0,
    }
}

/// `v` is the state of a walk after `n` operations with the given replies, as
/// far as its current step is concerned.
spec fn consistent(v: ChipView, replies: spec_fn(nat) -> u64, n: nat) -> bool {
    &&& chip_sound(v)
    &&& n >= ops_in_step(v)
    &&& match v.phase {
        Phase::Reading(k) => {
            let step = v.script[v.pc as int];
            let m = (n - k) as nat;
            &&& k >= 1
            &&& forall|i: nat| #![trigger replies(i)] m <= i < n - 1 ==> !hits(step, replies(i))
            &&& match step {
                ScriptStep::PollField { reg, shift, mask, field, attempts } => k <= attempts,
                ScriptStep::Await64 { reg, value, attempts } => k <= attempts,
                _ => k == 1,
            }
        },
        Phase::Writing => {
            let step = v.script[v.pc as int];
            let m = (n - ops_in_step(v)) as nat;
            &&& step_ops(step, replies, m).len() == ops_in_step(v)
            &&& step_skips(step, replies, m) == 0
            &&& !step_fails(step, replies, m)
        },
        _ => true,
    }
}

/// The operations that a walk has still to perform after `n` of them.
spec fn rest_ops(v: ChipView, replies: spec_fn(nat) -> u64, n: nat) -> Seq<BusOp> {
    let m = (n - ops_in_step(v)) as nat;
    if v.phase == Phase::Ended {
        Seq::empty()
    } else {
        script_ops(v.script, v.pc, replies, m).skip(ops_in_step(v) as int)
    }
}

/// Whether a walk will succeed.
spec fn rest_succeeds(v: ChipView, replies: spec_fn(nat) -> u64, n: nat) -> bool {
    script_succeeds(v.script, v.pc, replies, (n - ops_in_step(v)) as nat)
}

/// Polling that has missed `j` times goes on as polling with fewer attempts.
proof fn lemma_poll_split(
    step: ScriptStep,
    replies: spec_fn(nat) -> u64,
    m: nat,
    attempts: nat,
    j: nat,
)
    requires
        j < attempts,
        forall|i: nat| #![trigger replies(i)] m <= i < m + j ==> !hits(step, replies(i)),
    ensures
        poll_reads(step, replies, m, attempts) == j + poll_reads(
            step,
            replies,
            m + j,
            (attempts - j) as nat,
        ),
        poll_found(step, replies, m, attempts) == poll_found(
            step,
            replies,
            m + j,
            (attempts - j) as nat,
        ),
    decreases j,
{
    if j > 0 {
        assert(!hits(step, replies(m)));
        lemma_poll_split(step, replies, m + 1, (attempts - 1) as nat, (j - 1) as nat);
    }
}

/// Polling reads at least once and not more often than it may.
proof fn lemma_poll_reads_bound(
    step: ScriptStep,
    replies: spec_fn(nat) -> u64,
    m: nat,
    attempts: nat,
)
    requires
        attempts >= 1,
    ensures
        1 <= poll_reads(step, replies, m, attempts) <= attempts,
    decreases attempts,
{
    if attempts > 1 && !hits(step, replies(m)) {
        lemma_poll_reads_bound(step, replies, m + 1, (attempts - 1) as nat);
    }
}

/// Beginning a step at operation `n` issues the first of its operations.
proof fn lemma_enter(script: Seq<ScriptStep>, pc: nat, replies: spec_fn(nat) -> u64, n: nat)
    requires
        chip_sound(ChipView { script, pc, phase: Phase::Idle }),
    ensures
        ({
            let ops = script_ops(script, pc, replies, n);
            let (v, action) = enter(script, pc);
            if ops.len() == 0 {
                &&& action == ChipAction::Done
                &&& script_succeeds(script, pc, replies, n)
            } else {
                &&& action == ChipAction::Bus(ops[0])
                &&& consistent(v, replies, n + 1)
                &&& rest_ops(v, replies, n + 1) == ops.drop_first()
                &&& rest_succeeds(v, replies, n + 1) == script_succeeds(script, pc, replies, n)
                &&& v.phase != Phase::Ended
            }
        }),
{
    if pc < script.len() {
        let step = script[pc as int];
        assert(step_sound(step));
        match step {
            ScriptStep::PollField { reg, shift, mask, field, attempts } => {
                lemma_poll_reads_bound(step, replies, n, attempts as nat);
            },
            ScriptStep::Await64 { reg, value, attempts } => {
                lemma_poll_reads_bound(step, replies, n, attempts as nat);
            },
            _ => {},
        }
        let ops = script_ops(script, pc, replies, n);
        let (v, action) = enter(script, pc);
        assert(step_ops(step, replies, n).len() >= 1);
        assert(step_ops(step, replies, n)[0] == first_op(step));
        assert(ops[0] == first_op(step));
        assert(rest_ops(v, replies, n + 1) =~= ops.drop_first());
    }
}

/// One move of a walk performs the next of its remaining operations, or ends it
/// when there is none.
proof fn lemma_chip_move(v: ChipView, replies: spec_fn(nat) -> u64, n: nat)
    requires
        consistent(v, replies, n),
        v.phase != Phase::Ended,
        v.phase != Phase::Idle ==> n >= 1,
    ensures
        ({
            let ops = rest_ops(v, replies, n);
            let (w, action) = chip_next(v, replies((n - 1) as nat));
            if ops.len() == 0 {
                action == if rest_succeeds(v, replies, n) {
                    ChipAction::Done
                } else {
                    ChipAction::Failed(TransferError::Unknown(0))
                }
            } else {
                &&& action == ChipAction::Bus(ops[0])
                &&& consistent(w, replies, n + 1)
                &&& rest_ops(w, replies, n + 1) == ops.drop_first()
                &&& rest_succeeds(w, replies, n + 1) == rest_succeeds(v, replies, n)
                &&& w.phase != Phase::Ended
            }
        }),
{
    let script = v.script;
    let pc = v.pc;
    match v.phase {
        Phase::Idle => {
            lemma_enter(script, pc, replies, n);
            assert(rest_ops(v, replies, n) =~= script_ops(script, pc, replies, n));
        },
        Phase::Writing => {
            let m = (n - ops_in_step(v)) as nat;
            let step = script[pc as int];
            assert(chip_sound(ChipView { script, pc: pc + 1, phase: Phase::Idle }));
            lemma_enter(script, pc + 1, replies, n);
            assert(script_ops(script, pc, replies, m) == step_ops(step, replies, m) + script_ops(
                script,
                pc + 1,
                replies,
                n,
            ));
            assert(rest_ops(v, replies, n) =~= script_ops(script, pc + 1, replies, n));
        },
        Phase::Reading(k) => {
            lemma_chip_move_reading(v, replies, n, k);
        },
        Phase::Ended => {},
    }
}

/// The move of a walk that has just read a register.
proof fn lemma_chip_move_reading(v: ChipView, replies: spec_fn(nat) -> u64, n: nat, k: u32)
    requires
        consistent(v, replies, n),
        v.phase == Phase::Reading(k),
        n >= 1,
    ensures
        ({
            let ops = rest_ops(v, replies, n);
            let (w, action) = chip_next(v, replies((n - 1) as nat));
            if ops.len() == 0 {
                action == if rest_succeeds(v, replies, n) {
                    ChipAction::Done
                } else {
                    ChipAction::Failed(TransferError::Unknown(0))
                }
            } else {
                &&& action == ChipAction::Bus(ops[0])
                &&& consistent(w, replies, n + 1)
                &&& rest_ops(w, replies, n + 1) == ops.drop_first()
                &&& rest_succeeds(w, replies, n + 1) == rest_succeeds(v, replies, n)
                &&& w.phase != Phase::Ended
            }
        }),
{
    let script = v.script;
    let pc = v.pc;
    let step = script[pc as int];
    let m = (n - k) as nat;
    let reply = replies((n - 1) as nat);
    let ops = rest_ops(v, replies, n);
    let (w, action) = chip_next(v, reply);
    assert(step_sound(step));
    let own = step_ops(step, replies, m);
    let next_pc = pc + 1 + step_skips(step, replies, m);
    let tail = script_ops(script, next_pc, replies, m + own.len());
    assert(chip_sound(ChipView { script, pc: next_pc, phase: Phase::Idle }));
    match step {
        ScriptStep::PollField { reg, shift, mask, field, attempts } => {
            lemma_poll_split(step, replies, m, attempts as nat, (k - 1) as nat);
            lemma_poll_reads_bound(step, replies, m, attempts as nat);
            if hits(step, reply) {
                lemma_enter(script, next_pc, replies, n);
                assert(own.len() == k);
                assert(ops =~= tail);
            } else if k < attempts {
                lemma_poll_reads_bound(step, replies, n, (attempts - k) as nat);
                assert(own.len() > k);
                assert(ops[0] == own[k as int]);
                assert(rest_ops(w, replies, n + 1) =~= ops.drop_first());
            } else {
                assert(own.len() == k);
                assert(ops =~= Seq::empty());
            }
        },
        ScriptStep::Await64 { reg, value, attempts } => {
            lemma_poll_split(step, replies, m, attempts as nat, (k - 1) as nat);
            lemma_poll_reads_bound(step, replies, m, attempts as nat);
            if !hits(step, reply) && k < attempts {
                lemma_poll_reads_bound(step, replies, n, (attempts - k) as nat);
                assert(own.len() > k);
                assert(ops[0] == own[k as int]);
                assert(rest_ops(w, replies, n + 1) =~= ops.drop_first());
            } else {
                lemma_enter(script, next_pc, replies, n);
                assert(own.len() == k);
                assert(ops =~= tail);
            }
        },
        _ => {
            assert(k == 1);
            if own.len() == 1 {
                lemma_enter(script, next_pc, replies, n);
                assert(ops =~= tail);
            } else {
                assert(own.len() == 2);
                assert(ops[0] == own[1]);
                assert(rest_ops(w, replies, n + 1) =~= ops.drop_first());
            }
        },
    }
}

/// The state of a walk after `n` operations with the given replies.
pub open spec fn walk_state(v: ChipView, replies: spec_fn(nat) -> u64, n: nat) -> ChipView
    decreases n,
{
    if n == 0 {
        v
    } else {
        chip_next(
            walk_state(v, replies, (n - 1) as nat),
            replies((n - 2) as nat),
        ).0
    }
}

/// What a walk asks for after `n` operations with the given replies.
pub open spec fn walk_action(v: ChipView, replies: spec_fn(nat) -> u64, n: nat) -> ChipAction {
    chip_next(walk_state(v, replies, n), replies((n - 1) as nat)).1
}

/// The state of a walk from the start agrees with the operations of its script.
proof fn lemma_walk(script: Seq<ScriptStep>, replies: spec_fn(nat) -> u64, n: nat)
    requires
        chip_sound(ChipView { script, pc: 0, phase: Phase::Idle }),
        n <= script_ops(script, 0, replies, 0).len(),
    ensures
        ({
            let start = ChipView { script, pc: 0, phase: Phase::Idle };
            let v = walk_state(start, replies, n);
            &&& consistent(v, replies, n)
            &&& rest_ops(v, replies, n) == script_ops(script, 0, replies, 0).skip(n as int)
            &&& rest_succeeds(v, replies, n) == script_succeeds(script, 0, replies, 0)
            &&& v.phase != Phase::Ended
            &&& v.phase != Phase::Idle ==> n >= 1
        }),
    decreases n,
{
    let start = ChipView { script, pc: 0, phase: Phase::Idle };
    let all = script_ops(script, 0, replies, 0);
    if n == 0 {
        assert(rest_ops(start, replies, 0) =~= all.skip(0));
    } else {
        let m = (n - 1) as nat;
        lemma_walk(script, replies, m);
        let before = walk_state(start, replies, m);
        lemma_chip_move(before, replies, m);
        assert(all.skip(m as int).drop_first() =~= all.skip(n as int));
    }
}

/// A walk through a sound script performs exactly the operations of the script,
/// in order, and then ends: well if no polled field missed, and otherwise with
/// an error.
pub proof fn law_walk_performs_script(
    script: Seq<ScriptStep>,
    replies: spec_fn(nat) -> u64,
    n: nat,
)
    requires
        chip_sound(ChipView { script, pc: 0, phase: Phase::Idle }),
        n <= script_ops(script, 0, replies, 0).len(),
    ensures
        walk_action(ChipView { script, pc: 0, phase: Phase::Idle }, replies, n) == if n
            < script_ops(script, 0, replies, 0).len() {
            ChipAction::Bus(script_ops(script, 0, replies, 0)[n as int])
        } else if script_succeeds(script, 0, replies, 0) {
            ChipAction::Done
        } else {
            ChipAction::Failed(TransferError::Unknown(0))
        },
{
    let start = ChipView { script, pc: 0, phase: Phase::Idle };
    lemma_walk(script, replies, n);
    lemma_chip_move(walk_state(start, replies, n), replies, n);
}

/// No step of the script reads more than `limit` times.
pub open spec fn attempts_within(script: Seq<ScriptStep>, limit: nat) -> bool {
    forall|i: int|
        0 <= i < script.len() ==> match #[trigger] script[i] {
            ScriptStep::PollField { reg, shift, mask, field, attempts } => attempts <= limit,
            ScriptStep::Await64 { reg, value, attempts } => attempts <= limit,
            _ => true,
        }
}

/// A script from step `pc` on takes at most `limit` operations per step.
proof fn lemma_script_bounded(
    script: Seq<ScriptStep>,
    pc: nat,
    replies: spec_fn(nat) -> u64,
    m: nat,
    limit: nat,
)
    requires
        forall|i: int| 0 <= i < script.len() ==> step_sound(#[trigger] script[i]),
        attempts_within(script, limit),
        limit >= 2,
    ensures
        pc <= script.len() ==> script_ops(script, pc, replies, m).len() <= limit * (script.len()
            - pc),
        pc > script.len() ==> script_ops(script, pc, replies, m).len() == 0,
    decreases
            if pc < script.len() {
                script.len() - pc
            } else {
                0
            },
{
    if pc < script.len() {
        let step = script[pc as int];
        assert(step_sound(step));
        match step {
            ScriptStep::PollField { reg, shift, mask, field, attempts } => {
                lemma_poll_reads_bound(step, replies, m, attempts as nat);
            },
            ScriptStep::Await64 { reg, value, attempts } => {
                lemma_poll_reads_bound(step, replies, m, attempts as nat);
            },
            _ => {},
        }
        let own = step_ops(step, replies, m);
        assert(own.len() <= limit);
        let next_pc = pc + 1 + step_skips(step, replies, m);
        lemma_script_bounded(script, next_pc, replies, m + own.len(), limit);
        let left = script.len() - pc;
        assert(limit * left >= limit + limit * (left - 1)) by (nonlinear_arith);
        if next_pc <= script.len() {
            assert(limit * (script.len() - next_pc) <= limit * (left - 1)) by (nonlinear_arith)
                requires
                    0 <= script.len() - next_pc <= left - 1,
            ;
        } else {
            assert(limit * (left - 1) >= 0) by (nonlinear_arith)
                requires
                    left >= 1,
            ;
        }
    }
}

/// Bringing the chip up ends, well or with an error, after at most 51000
/// operations, whatever the chip replies.
pub proof fn law_init_is_bounded(is_multi_endpoint: bool, replies: spec_fn(nat) -> u64)
    ensures
        script_ops(init_script(is_multi_endpoint), 0, replies, 0).len() <= 51000,
{
    lemma_script_bounded(init_script(is_multi_endpoint), 0, replies, 0, 1000);
}

/// The script for bringing the chip up can be carried out.
pub proof fn law_init_script_is_sound(is_multi_endpoint: bool)
    ensures
        chip_sound(
            ChipView { script: init_script(is_multi_endpoint), pc: 0, phase: Phase::Idle },
        ),
{
}

/// The endpoint mode only changes what is written to the bulk-out mode
/// register.
pub proof fn law_endpoint_mode(i: int)
    requires
        0 <= i < init_script(false).len(),
    ensures
        init_script(true).len() == init_script(false).len(),
        init_script(true)[i] == init_script(false)[i] || (init_script(true)[i]
            == ScriptStep::Write64 { reg: REG_MULTI_BO_EP, value: 1 } && init_script(false)[i]
            == ScriptStep::Write64 { reg: REG_MULTI_BO_EP, value: 0 }),
{
}

/// An update changes no bit outside `clear` and `set`, and leaves all bits of
/// `set` set and those of `clear` alone cleared.
pub proof fn law_update_is_local(v: u32, clear: u32, set: u32)
    ensures
        updated(v, clear, set) & !(clear | set) == v & !(clear | set),
        updated(v, clear, set) & set == set,
        updated(v, clear, set) & (clear & !set) == 0,
{
    assert((((v & !clear) | set) & !(clear | set)) == (v & !(clear | set))) by (bit_vector);
    assert((((v & !clear) | set) & set) == set) by (bit_vector);
    assert((((v & !clear) | set) & (clear & !set)) == 0) by (bit_vector);
}

/// The updates of the script put the fields where they belong: the clock gate
/// off and on, forced sleep, and waking up.
pub proof fn law_update_fields(v: u32)
    ensures
        field_of(updated(v, 0xC_0000, 0x8_0000), 18, 3) == 2,
        field_of(updated(v, 0xC_0000, 0x4_0000), 18, 3) == 1,
        field_of(updated(v, 0xC0_0000, 0xC0_0000), 22, 3) == 3,
        field_of(updated(v, 0xF0C0_0000, 0x80_0000), 22, 3) == 2,
        field_of(updated(v, 0xF0C0_0000, 0x80_0000), 28, 0xF) == 0,
        field_of(updated(v, 0x3F00, 0), 8, 0x3F) == 0,
{
    assert(((((v & !0xC_0000u32) | 0x8_0000) >> 18u32) & 3) == 2) by (bit_vector);
    assert(((((v & !0xC_0000u32) | 0x4_0000) >> 18u32) & 3) == 1) by (bit_vector);
    assert(((((v & !0xC0_0000u32) | 0xC0_0000) >> 22u32) & 3) == 3) by (bit_vector);
    assert(((((v & !0xF0C0_0000u32) | 0x80_0000) >> 22u32) & 3) == 2) by (bit_vector);
    assert(((((v & !0xF0C0_0000u32) | 0x80_0000) >> 28u32) & 0xF) == 0) by (bit_vector);
    assert(((((v & !0x3F00u32) | 0) >> 8u32) & 0x3F) == 0) by (bit_vector);
}

/// Identification of a chip.
#[derive(Debug, Clone, Copy, PartialEq, Eq, Structural)]
pub struct ChipInfo {
    /// E-fuse programming revision, bits 31:24 of `omc0_00`.
    pub efuse_revision: u8,
    /// Raw `scu_ctrl_0` value (clock and PHY configuration).
    pub scu_ctrl_0: u32,
}

/// The reads that identify a chip: `omc0_00`, then `scu_ctrl_0`.
pub fn chip_info_ops() -> (r: [BusOp; 2])
    ensures
        r@ == seq![
            BusOp::Read32 { reg: REG_OMC0_00 },
            BusOp::Read32 { reg: REG_SCU_CTRL_0 },
        ],
{
    let r: [BusOp; 2] = [
        BusOp::Read32 { reg: REG_OMC0_00 },
        BusOp::Read32 { reg: REG_SCU_CTRL_0 },
    ];
    assert(r@ =~= seq![
        BusOp::Read32 { reg: REG_OMC0_00 },
        BusOp::Read32 { reg: REG_SCU_CTRL_0 },
    ]);
    r
}

/// The identification of the chip with these register values.
pub fn read_chip_info(omc0_00: u32, scu_ctrl_0: u32) -> (r: ChipInfo)
    ensures
        r == (ChipInfo { efuse_revision: (omc0_00 / 0x100_0000) as u8, scu_ctrl_0 }),
{
    ChipInfo { efuse_revision: (omc0_00 / 0x100_0000) as u8, scu_ctrl_0 }
}

/// Transfer credits in bytes.
#[derive(Debug, Clone, Copy, PartialEq, Eq, Structural)]
pub struct Credits {
    pub instructions: u32,
    pub input_activations: u32,
    pub parameters: u32,
}

/// The operations that read the credits: a write to `omc0_00`, then a read of
/// the credit register.
pub fn credit_ops() -> (r: [BusOp; 2])
    ensures
        r@ == seq![
            BusOp::Write32 { reg: REG_OMC0_00, value: 0xffff },
            BusOp::Read64 { reg: REG_EP_STATUS_CREDIT },
        ],
{
    let r: [BusOp; 2] = [
        BusOp::Write32 { reg: REG_OMC0_00, value: 0xffff },
        BusOp::Read64 { reg: REG_EP_STATUS_CREDIT },
    ];
    assert(r@ =~= seq![
        BusOp::Write32 { reg: REG_OMC0_00, value: 0xffff },
        BusOp::Read64 { reg: REG_EP_STATUS_CREDIT },
    ]);
    r
}

/// The credits in a value of the credit register: three counters of 21 bits
/// each, in units of eight bytes.
pub open spec fn credits_of(credits: u64) -> Credits {
    Credits {
        instructions: (8 * (credits % 0x20_0000)) as u32,
        input_activations: (8 * ((credits / 0x20_0000) % 0x20_0000)) as u32,
        parameters: (8 * ((credits / 0x400_0000_0000) % 0x20_0000)) as u32,
    }
}

/// Decodes a value of the credit register.
pub fn check_credits(credits: u64) -> (r: Credits)
    ensures
        r == credits_of(credits),
{
    Credits {
        instructions: ((credits % 0x20_0000) * 8) as u32,
        input_activations: (((credits / 0x20_0000) % 0x20_0000) * 8) as u32,
        parameters: (((credits / 0x400_0000_0000) % 0x20_0000) * 8) as u32,
    }
}

/// An operation several times in a row.
pub open spec fn repeated(op: BusOp, times: nat) -> Seq<BusOp> {
    Seq::new(times, |i: int| op)
}

/// A step with a single plain operation.
proof fn lemma_plain_step(
    s: Seq<ScriptStep>,
    pc: nat,
    replies: spec_fn(nat) -> u64,
    m: nat,
    op: BusOp,
)
    requires
        pc < s.len(),
        s[pc as int] is Read32 || s[pc as int] is Read64 || s[pc as int] is Write32
            || s[pc as int] is Write64,
        first_op(s[pc as int]) == op,
    ensures
        script_ops(s, pc, replies, m) == seq![op] + script_ops(s, pc + 1, replies, m + 1),
        script_succeeds(s, pc, replies, m) == script_succeeds(s, pc + 1, replies, m + 1),
{
}

/// A step that updates a register.
proof fn lemma_update_step(
    s: Seq<ScriptStep>,
    pc: nat,
    replies: spec_fn(nat) -> u64,
    m: nat,
    reg: u32,
    clear: u32,
    set: u32,
)
    requires
        pc < s.len(),
        s[pc as int] == (ScriptStep::Update32 { reg, clear, set }),
    ensures
        script_ops(s, pc, replies, m) == seq![
            BusOp::Read32 { reg },
            BusOp::Write32 { reg, value: ((replies(m) % 0x1_0000_0000) as u32 & !clear) | set },
        ] + script_ops(s, pc + 1, replies, m + 2),
        script_succeeds(s, pc, replies, m) == script_succeeds(s, pc + 1, replies, m + 2),
{
}

/// How polling ends: with a hit, or with its last attempt.
proof fn lemma_polling(step: ScriptStep, replies: spec_fn(nat) -> u64, m: nat, attempts: nat)
    requires
        attempts >= 1,
    ensures
        ({
            let n = poll_reads(step, replies, m, attempts);
            &&& 1 <= n <= attempts
            &&& forall|i: nat| m <= i < m + n - 1 ==> !hits(step, #[trigger] replies(i))
            &&& n < attempts ==> hits(step, replies((m + n - 1) as nat))
            &&& poll_found(step, replies, m, attempts) == hits(step, replies((m + n - 1) as nat))
        }),
    decreases attempts,
{
    if attempts > 1 && !hits(step, replies(m)) {
        lemma_polling(step, replies, m + 1, (attempts - 1) as nat);
    }
}

/// A step that awaits a value of a 64-bit register.
proof fn lemma_await_step(
    s: Seq<ScriptStep>,
    pc: nat,
    replies: spec_fn(nat) -> u64,
    m: nat,
    reg: u32,
    value: u64,
    attempts: u32,
) -> (n: nat)
    requires
        pc < s.len(),
        s[pc as int] == (ScriptStep::Await64 { reg, value, attempts }),
        attempts >= 1,
    ensures
        1 <= n <= attempts,
        forall|i: nat| m <= i < m + n - 1 ==> #[trigger] replies(i) != value,
        n < attempts ==> replies((m + n - 1) as nat) == value,
        script_ops(s, pc, replies, m) == repeated(BusOp::Read64 { reg }, n) + script_ops(
            s,
            pc + 1,
            replies,
            m + n,
        ),
        script_succeeds(s, pc, replies, m) == script_succeeds(s, pc + 1, replies, m + n),
{
    let step = s[pc as int];
    lemma_polling(step, replies, m, attempts as nat);
    assert(step_ops(step, replies, m) =~= repeated(
        first_op(step),
        poll_reads(step, replies, m, attempts as nat),
    ));
    poll_reads(step, replies, m, attempts as nat)
}

/// A step that polls a field of a 32-bit register.
proof fn lemma_poll_step(
    s: Seq<ScriptStep>,
    pc: nat,
    replies: spec_fn(nat) -> u64,
    m: nat,
    reg: u32,
    shift: u32,
    mask: u32,
    field: u32,
    attempts: u32,
) -> (n: nat)
    requires
        pc < s.len(),
        s[pc as int] == (ScriptStep::PollField { reg, shift, mask, field, attempts }),
        attempts >= 1,
    ensures
        1 <= n <= attempts,
        forall|i: nat|
            m <= i < m + n - 1 ==> (((#[trigger] replies(i) % 0x1_0000_0000) as u32) >> shift)
                & mask != field,
        ({
            let hit = (((replies((m + n - 1) as nat) % 0x1_0000_0000) as u32) >> shift) & mask
                == field;
            let reads = repeated(BusOp::Read32 { reg }, n);
            &&& n < attempts ==> hit
            &&& hit ==> {
                &&& script_ops(s, pc, replies, m) == reads + script_ops(s, pc + 1, replies, m + n)
                &&& script_succeeds(s, pc, replies, m) == script_succeeds(
                    s,
                    pc + 1,
                    replies,
                    m + n,
                )
            }
            &&& !hit ==> script_ops(s, pc, replies, m) == reads && !script_succeeds(
                s,
                pc,
                replies,
                m,
            )
        }),
{
    let step = s[pc as int];
    lemma_polling(step, replies, m, attempts as nat);
    assert(step_ops(step, replies, m) =~= repeated(
        first_op(step),
        poll_reads(step, replies, m, attempts as nat),
    ));
    poll_reads(step, replies, m, attempts as nat)
}

/// The steps that set up the endpoints and start the scalar core.
proof fn lemma_core_steps(s: Seq<ScriptStep>, replies: spec_fn(nat) -> u64, m: nat)
    requires
        s.len() == 51,
        s[20] == (ScriptStep::Write64 { reg: 0x4c058, value: 0x80 }),
        s[21] == (ScriptStep::Write64 { reg: 0x44018, value: 1 }),
        s[22] == (ScriptStep::Write64 { reg: 0x44158, value: 1 }),
        s[23] == (ScriptStep::Write64 { reg: 0x44198, value: 1 }),
        s[24] == (ScriptStep::Write64 { reg: 0x441d8, value: 1 }),
        s[25] == (ScriptStep::Write64 { reg: 0x44218, value: 1 }),
        s[26] == (ScriptStep::Write64 { reg: 0x48788, value: 0x7F }),
    ensures
        script_ops(s, 20, replies, m) == seq![
            BusOp::Write64 { reg: 0x4c058, value: 0x80 },
            BusOp::Write64 { reg: 0x44018, value: 1 },
            BusOp::Write64 { reg: 0x44158, value: 1 },
            BusOp::Write64 { reg: 0x44198, value: 1 },
            BusOp::Write64 { reg: 0x441d8, value: 1 },
            BusOp::Write64 { reg: 0x44218, value: 1 },
            BusOp::Write64 { reg: 0x48788, value: 0x7F },
        ] + script_ops(s, 27, replies, m + 7),
        script_succeeds(s, 20, replies, m) == script_succeeds(s, 27, replies, m + 7),
{
    lemma_plain_step(s, 20, replies, m + 0, BusOp::Write64 { reg: 0x4c058, value: 0x80 });
    lemma_plain_step(s, 21, replies, m + 1, BusOp::Write64 { reg: 0x44018, value: 1 });
    lemma_plain_step(s, 22, replies, m + 2, BusOp::Write64 { reg: 0x44158, value: 1 });
    lemma_plain_step(s, 23, replies, m + 3, BusOp::Write64 { reg: 0x44198, value: 1 });
    lemma_plain_step(s, 24, replies, m + 4, BusOp::Write64 { reg: 0x441d8, value: 1 });
    lemma_plain_step(s, 25, replies, m + 5, BusOp::Write64 { reg: 0x44218, value: 1 });
    lemma_plain_step(s, 26, replies, m + 6, BusOp::Write64 { reg: 0x48788, value: 0x7F });
}

/// The steps that start the tiles.
proof fn lemma_tile_steps(s: Seq<ScriptStep>, replies: spec_fn(nat) -> u64, m: nat)
    requires
        s.len() == 51,
        s[28] == (ScriptStep::Write64 { reg: 0x420c0, value: 1 }),
        s[29] == (ScriptStep::Write64 { reg: 0x42110, value: 1 }),
        s[30] == (ScriptStep::Write64 { reg: 0x42150, value: 1 }),
        s[31] == (ScriptStep::Write64 { reg: 0x42190, value: 1 }),
        s[32] == (ScriptStep::Write64 { reg: 0x421d0, value: 1 }),
        s[33] == (ScriptStep::Write64 { reg: 0x42210, value: 1 }),
        s[34] == (ScriptStep::Write64 { reg: 0x42250, value: 1 }),
        s[35] == (ScriptStep::Write64 { reg: 0x42298, value: 1 }),
        s[36] == (ScriptStep::Write64 { reg: 0x422e0, value: 1 }),
        s[37] == (ScriptStep::Write64 { reg: 0x42328, value: 1 }),
    ensures
        script_ops(s, 28, replies, m) == seq![
            BusOp::Write64 { reg: 0x420c0, value: 1 },
            BusOp::Write64 { reg: 0x42110, value: 1 },
            BusOp::Write64 { reg: 0x42150, value: 1 },
            BusOp::Write64 { reg: 0x42190, value: 1 },
            BusOp::Write64 { reg: 0x421d0, value: 1 },
            BusOp::Write64 { reg: 0x42210, value: 1 },
            BusOp::Write64 { reg: 0x42250, value: 1 },
            BusOp::Write64 { reg: 0x42298, value: 1 },
            BusOp::Write64 { reg: 0x422e0, value: 1 },
            BusOp::Write64 { reg: 0x42328, value: 1 },
        ] + script_ops(s, 38, replies, m + 10),
        script_succeeds(s, 28, replies, m) == script_succeeds(s, 38, replies, m + 10),
{
    lemma_plain_step(s, 28, replies, m + 0, BusOp::Write64 { reg: 0x420c0, value: 1 });
    lemma_plain_step(s, 29, replies, m + 1, BusOp::Write64 { reg: 0x42110, value: 1 });
    lemma_plain_step(s, 30, replies, m + 2, BusOp::Write64 { reg: 0x42150, value: 1 });
    lemma_plain_step(s, 31, replies, m + 3, BusOp::Write64 { reg: 0x42190, value: 1 });
    lemma_plain_step(s, 32, replies, m + 4, BusOp::Write64 { reg: 0x421d0, value: 1 });
    lemma_plain_step(s, 33, replies, m + 5, BusOp::Write64 { reg: 0x42210, value: 1 });
    lemma_plain_step(s, 34, replies, m + 6, BusOp::Write64 { reg: 0x42250, value: 1 });
    lemma_plain_step(s, 35, replies, m + 7, BusOp::Write64 { reg: 0x42298, value: 1 });
    lemma_plain_step(s, 36, replies, m + 8, BusOp::Write64 { reg: 0x422e0, value: 1 });
    lemma_plain_step(s, 37, replies, m + 9, BusOp::Write64 { reg: 0x42328, value: 1 });
}

/// The steps that turn the interrupts on.
proof fn lemma_interrupt_steps(s: Seq<ScriptStep>, replies: spec_fn(nat) -> u64, m: nat)
    requires
        s.len() == 51,
        s[38] == (ScriptStep::Write64 { reg: 0x4c060, value: 1 }),
        s[39] == (ScriptStep::Write64 { reg: 0x4c070, value: 1 }),
        s[40] == (ScriptStep::Write64 { reg: 0x4c080, value: 1 }),
        s[41] == (ScriptStep::Write64 { reg: 0x4c090, value: 1 }),
        s[42] == (ScriptStep::Write64 { reg: 0x4c0a0, value: 1 }),
        s[43] == (ScriptStep::Update32 { reg: 0x1a0d4, clear: 0, set: 0x8000_0000 }),
        s[44] == (ScriptStep::Update32 { reg: 0x1a704, clear: 0x77_0000, set: 0 }),
        s[45] == (ScriptStep::Update32 { reg: 0x1a33c, clear: 0xF_0000, set: 0 }),
    ensures
        script_ops(s, 38, replies, m) == seq![
            BusOp::Write64 { reg: 0x4c060, value: 1 },
            BusOp::Write64 { reg: 0x4c070, value: 1 },
            BusOp::Write64 { reg: 0x4c080, value: 1 },
            BusOp::Write64 { reg: 0x4c090, value: 1 },
            BusOp::Write64 { reg: 0x4c0a0, value: 1 },
            BusOp::Read32 { reg: 0x1a0d4 },
            BusOp::Write32 {
                reg: 0x1a0d4,
                value: (((replies(m + 5) % 0x1_0000_0000) as u32) & !0u32) | 0x8000_0000,
            },
            BusOp::Read32 { reg: 0x1a704 },
            BusOp::Write32 {
                reg: 0x1a704,
                value: (((replies(m + 7) % 0x1_0000_0000) as u32) & !0x77_0000u32) | 0,
            },
            BusOp::Read32 { reg: 0x1a33c },
            BusOp::Write32 {
                reg: 0x1a33c,
                value: (((replies(m + 9) % 0x1_0000_0000) as u32) & !0xF_0000u32) | 0,
            },
        ] + script_ops(s, 46, replies, m + 11),
        script_succeeds(s, 38, replies, m) == script_succeeds(s, 46, replies, m + 11),
{
    lemma_plain_step(s, 38, replies, m + 0, BusOp::Write64 { reg: 0x4c060, value: 1 });
    lemma_plain_step(s, 39, replies, m + 1, BusOp::Write64 { reg: 0x4c070, value: 1 });
    lemma_plain_step(s, 40, replies, m + 2, BusOp::Write64 { reg: 0x4c080, value: 1 });
    lemma_plain_step(s, 41, replies, m + 3, BusOp::Write64 { reg: 0x4c090, value: 1 });
    lemma_plain_step(s, 42, replies, m + 4, BusOp::Write64 { reg: 0x4c0a0, value: 1 });
    lemma_update_step(s, 43, replies, m + 5, 0x1a0d4, 0, 0x8000_0000);
    lemma_update_step(s, 44, replies, m + 7, 0x1a704, 0x77_0000, 0);
    lemma_update_step(s, 45, replies, m + 9, 0x1a33c, 0xF_0000, 0);
}

/// The steps that turn bus errors and thermal shutdown on.
proof fn lemma_bus_error_steps(s: Seq<ScriptStep>, replies: spec_fn(nat) -> u64, m: nat)
    requires
        s.len() == 51,
        s[46] == (ScriptStep::Write32 { reg: 0x1a500, value: 1 }),
        s[47] == (ScriptStep::Write32 { reg: 0x1a600, value: 1 }),
        s[48] == (ScriptStep::Write32 { reg: 0x1a558, value: 3 }),
        s[49] == (ScriptStep::Write32 { reg: 0x1a658, value: 3 }),
        s[50] == (ScriptStep::Update32 { reg: 0x1a0d8, clear: 0, set: 0x8000_0000 }),
    ensures
        script_ops(s, 46, replies, m) == seq![
            BusOp::Write32 { reg: 0x1a500, value: 1 },
            BusOp::Write32 { reg: 0x1a600, value: 1 },
            BusOp::Write32 { reg: 0x1a558, value: 3 },
            BusOp::Write32 { reg: 0x1a658, value: 3 },
            BusOp::Read32 { reg: 0x1a0d8 },
            BusOp::Write32 {
                reg: 0x1a0d8,
                value: (((replies(m + 4) % 0x1_0000_0000) as u32) & !0u32) | 0x8000_0000,
            },
        ] + script_ops(s, 51, replies, m + 6),
        script_succeeds(s, 46, replies, m) == script_succeeds(s, 51, replies, m + 6),
{
    lemma_plain_step(s, 46, replies, m + 0, BusOp::Write32 { reg: 0x1a500, value: 1 });
    lemma_plain_step(s, 47, replies, m + 1, BusOp::Write32 { reg: 0x1a600, value: 1 });
    lemma_plain_step(s, 48, replies, m + 2, BusOp::Write32 { reg: 0x1a558, value: 3 });
    lemma_plain_step(s, 49, replies, m + 3, BusOp::Write32 { reg: 0x1a658, value: 3 });
    lemma_update_step(s, 50, replies, m + 4, 0x1a0d8, 0, 0x8000_0000);
}

/// What follows the reset: waking up and all that comes after.
#[verifier::rlimit(100)]
#[verifier::spinoff_prover]
proof fn lemma_after_reset(
    is_multi_endpoint: bool,
    s: Seq<ScriptStep>,
    replies: spec_fn(nat) -> u64,
    m2: nat,
) -> (r: (nat, nat, nat, nat))
    requires
        s == init_script(is_multi_endpoint),
    ensures
        ({
            let (p2, a1, a2, a3) = r;
            let t = script_ops(s, 8, replies, m2);
            let woken = (((replies((m2 + 1 + p2) as nat) % 0x1_0000_0000) as u32) >> 8) & 3 == 0;
            let wake = seq![
                BusOp::Read32 { reg: 0x1a318 },
                BusOp::Write32 {
                    reg: 0x1a318,
                    value: (((replies(m2) % 0x1_0000_0000) as u32) & !0xF0C0_0000u32) | 0x80_0000,
                },
            ] + repeated(BusOp::Read32 { reg: 0x1a318 }, p2);
            let m3: nat = m2 + p2 + 4 + a1;
            let m5: nat = m3 + 2 + a2;
            let m6: nat = m5 + 12 + a3;
            &&& 1 <= p2 <= 1000
            &&& p2 < 1000 ==> woken
            &&& forall|i: nat|
                m2 + 2 <= i < m2 + 1 + p2 ==> (((#[trigger] replies(i) % 0x1_0000_0000) as u32)
                    >> 8) & 3 != 0
            &&& !woken ==> t == wake && !script_succeeds(s, 8, replies, m2)
            &&& woken ==> {
                &&& script_succeeds(s, 8, replies, m2)
                &&& 1 <= a1 <= 100
                &&& forall|i: nat| m3 - a1 <= i < m3 - 1 ==> #[trigger] replies(i) != 0
                &&& a1 < 100 ==> replies((m3 - 1) as nat) == 0
                &&& 1 <= a2 <= 100
                &&& forall|i: nat| m5 - a2 <= i < m5 - 1 ==> #[trigger] replies(i) != 0x7F
                &&& a2 < 100 ==> replies((m5 - 1) as nat) == 0x7F
                &&& 1 <= a3 <= 100
                &&& forall|i: nat| m6 - a3 <= i < m6 - 1 ==> #[trigger] replies(i) != 0x7F
                &&& a3 < 100 ==> replies((m6 - 1) as nat) == 0x7F
                &&& t == wake + seq![
                    BusOp::Read32 { reg: 0x1a318 },
                    BusOp::Read64 { reg: 0x44018 },
                ] + repeated(BusOp::Read64 { reg: 0x44018 }, a1) + seq![
                    BusOp::Write64 { reg: 0x4a000, value: 1 },
                    BusOp::Write64 { reg: 0x48788, value: 0x7F },
                ] + repeated(BusOp::Read64 { reg: 0x48788 }, a2) + seq![
                    BusOp::Write64 { reg: 0x40020, value: 0x1E02 },
                    BusOp::Read32 { reg: 0x1a314 },
                    BusOp::Write32 {
                        reg: 0x1a314,
                        value: (((replies(m5 + 1) % 0x1_0000_0000) as u32) & !0xC_0000u32) | 0x4_0000,
                    },
                    BusOp::Write64 { reg: 0x4c148, value: 0xFF },
                    BusOp::Write64 { reg: 0x4c160, value: if is_multi_endpoint {
                        1
                    } else {
                        0
                    } },
                    BusOp::Write64 { reg: 0x4c058, value: 0x80 },
                    BusOp::Write64 { reg: 0x44018, value: 1 },
                    BusOp::Write64 { reg: 0x44158, value: 1 },
                    BusOp::Write64 { reg: 0x44198, value: 1 },
                    BusOp::Write64 { reg: 0x441d8, value: 1 },
                    BusOp::Write64 { reg: 0x44218, value: 1 },
                    BusOp::Write64 { reg: 0x48788, value: 0x7F },
                ] + repeated(BusOp::Read64 { reg: 0x48788 }, a3) + (seq![
                    BusOp::Write64 { reg: 0x420c0, value: 1 },
                    BusOp::Write64 { reg: 0x42110, value: 1 },
                    BusOp::Write64 { reg: 0x42150, value: 1 },
                    BusOp::Write64 { reg: 0x42190, value: 1 },
                    BusOp::Write64 { reg: 0x421d0, value: 1 },
                    BusOp::Write64 { reg: 0x42210, value: 1 },
                    BusOp::Write64 { reg: 0x42250, value: 1 },
                    BusOp::Write64 { reg: 0x42298, value: 1 },
                    BusOp::Write64 { reg: 0x422e0, value: 1 },
                    BusOp::Write64 { reg: 0x42328, value: 1 },
                ] + seq![
                    BusOp::Write64 { reg: 0x4c060, value: 1 },
                    BusOp::Write64 { reg: 0x4c070, value: 1 },
                    BusOp::Write64 { reg: 0x4c080, value: 1 },
                    BusOp::Write64 { reg: 0x4c090, value: 1 },
                    BusOp::Write64 { reg: 0x4c0a0, value: 1 },
                    BusOp::Read32 { reg: 0x1a0d4 },
                    BusOp::Write32 {
                        reg: 0x1a0d4,
                        value: (((replies(m6 + 15) % 0x1_0000_0000) as u32) & !0u32) | 0x8000_0000,
                    },
                    BusOp::Read32 { reg: 0x1a704 },
                    BusOp::Write32 {
                        reg: 0x1a704,
                        value: (((replies(m6 + 17) % 0x1_0000_0000) as u32) & !0x77_0000u32) | 0,
                    },
                    BusOp::Read32 { reg: 0x1a33c },
                    BusOp::Write32 {
                        reg: 0x1a33c,
                        value: (((replies(m6 + 19) % 0x1_0000_0000) as u32) & !0xF_0000u32) | 0,
                    },
                ] + seq![
                    BusOp::Write32 { reg: 0x1a500, value: 1 },
                    BusOp::Write32 { reg: 0x1a600, value: 1 },
                    BusOp::Write32 { reg: 0x1a558, value: 3 },
                    BusOp::Write32 { reg: 0x1a658, value: 3 },
                    BusOp::Read32 { reg: 0x1a0d8 },
                    BusOp::Write32 {
                        reg: 0x1a0d8,
                        value: (((replies(m6 + 25) % 0x1_0000_0000) as u32) & !0u32) | 0x8000_0000,
                    },
                ])
            }
        }),
{
    let p2 = lemma_poll_step(s, 9, replies, m2 + 2, 0x1a318, 8, 3, 0, 1000);
    lemma_update_step(s, 8, replies, m2, 0x1a318, 0xF0C0_0000, 0x80_0000);
    let woken = (((replies((m2 + 1 + p2) as nat) % 0x1_0000_0000) as u32) >> 8) & 3 == 0;
    let wake = seq![
        BusOp::Read32 { reg: 0x1a318 },
        BusOp::Write32 {
            reg: 0x1a318,
            value: (((replies(m2) % 0x1_0000_0000) as u32) & !0xF0C0_0000u32) | 0x80_0000,
        },
    ] + repeated(BusOp::Read32 { reg: 0x1a318 }, p2);
    assert(m2 + 2 + p2 - 1 == m2 + 1 + p2);
    if woken {
        let k = m2 + 2 + p2;
        assert(script_ops(s, 8, replies, m2) =~= wake + script_ops(s, 10, replies, k));
        lemma_plain_step(s, 10, replies, k, BusOp::Read32 { reg: 0x1a318 });
        lemma_plain_step(s, 11, replies, k + 1, BusOp::Read64 { reg: 0x44018 });
        let a1 = lemma_await_step(s, 12, replies, k + 2, 0x44018, 0, 100);
        let m3 = m2 + p2 + 4 + a1;
        let reads1 = repeated(BusOp::Read64 { reg: 0x44018 }, a1);
        assert(script_ops(s, 10, replies, k) =~= seq![
            BusOp::Read32 { reg: 0x1a318 },
            BusOp::Read64 { reg: 0x44018 },
        ] + reads1 + script_ops(s, 13, replies, m3));
        lemma_plain_step(s, 13, replies, m3, BusOp::Write64 { reg: 0x4a000, value: 1 });
        lemma_plain_step(s, 14, replies, m3 + 1, BusOp::Write64 { reg: 0x48788, value: 0x7F });
        let a2 = lemma_await_step(s, 15, replies, m3 + 2, 0x48788, 0x7F, 100);
        let m5 = m3 + 2 + a2;
        let reads2 = repeated(BusOp::Read64 { reg: 0x48788 }, a2);
        assert(script_ops(s, 13, replies, m3) =~= seq![
            BusOp::Write64 { reg: 0x4a000, value: 1 },
            BusOp::Write64 { reg: 0x48788, value: 0x7F },
        ] + reads2 + script_ops(s, 16, replies, m5));
        lemma_plain_step(s, 16, replies, m5, BusOp::Write64 { reg: 0x40020, value: 0x1E02 });
        lemma_update_step(s, 17, replies, m5 + 1, 0x1a314, 0xC_0000, 0x4_0000);
        lemma_plain_step(s, 18, replies, m5 + 3, BusOp::Write64 { reg: 0x4c148, value: 0xFF });
        lemma_plain_step(s, 19, replies, m5 + 4, BusOp::Write64 { reg: 0x4c160, value: if is_multi_endpoint {
            1
        } else {
            0
        } });
        lemma_core_steps(s, replies, m5 + 5);
        let a3 = lemma_await_step(s, 27, replies, m5 + 12, 0x48788, 0x7F, 100);
        let m6 = m5 + 12 + a3;
        let reads3 = repeated(BusOp::Read64 { reg: 0x48788 }, a3);
        assert(script_ops(s, 16, replies, m5) =~= seq![
            BusOp::Write64 { reg: 0x40020, value: 0x1E02 },
            BusOp::Read32 { reg: 0x1a314 },
            BusOp::Write32 {
                reg: 0x1a314,
                value: (((replies(m5 + 1) % 0x1_0000_0000) as u32) & !0xC_0000u32) | 0x4_0000,
            },
            BusOp::Write64 { reg: 0x4c148, value: 0xFF },
            BusOp::Write64 { reg: 0x4c160, value: if is_multi_endpoint {
                1
            } else {
                0
            } },
            BusOp::Write64 { reg: 0x4c058, value: 0x80 },
            BusOp::Write64 { reg: 0x44018, value: 1 },
            BusOp::Write64 { reg: 0x44158, value: 1 },
            BusOp::Write64 { reg: 0x44198, value: 1 },
            BusOp::Write64 { reg: 0x441d8, value: 1 },
            BusOp::Write64 { reg: 0x44218, value: 1 },
            BusOp::Write64 { reg: 0x48788, value: 0x7F },
        ] + reads3 + script_ops(s, 28, replies, m6));
        lemma_tile_steps(s, replies, m6);
        lemma_interrupt_steps(s, replies, m6 + 10);
        lemma_bus_error_steps(s, replies, m6 + 21);
        let last = m6 + 21;
        let end = last + 6;
        assert(script_ops(s, 51, replies, end) =~= Seq::empty());
        assert(script_ops(s, 46, replies, last) =~= seq![
            BusOp::Write32 { reg: 0x1a500, value: 1 },
            BusOp::Write32 { reg: 0x1a600, value: 1 },
            BusOp::Write32 { reg: 0x1a558, value: 3 },
            BusOp::Write32 { reg: 0x1a658, value: 3 },
            BusOp::Read32 { reg: 0x1a0d8 },
            BusOp::Write32 {
                reg: 0x1a0d8,
                value: (((replies(m6 + 25) % 0x1_0000_0000) as u32) & !0u32) | 0x8000_0000,
            },
        ]);
        assert(script_ops(s, 38, replies, m6 + 10) =~= seq![
            BusOp::Write64 { reg: 0x4c060, value: 1 },
            BusOp::Write64 { reg: 0x4c070, value: 1 },
            BusOp::Write64 { reg: 0x4c080, value: 1 },
            BusOp::Write64 { reg: 0x4c090, value: 1 },
            BusOp::Write64 { reg: 0x4c0a0, value: 1 },
            BusOp::Read32 { reg: 0x1a0d4 },
            BusOp::Write32 {
                reg: 0x1a0d4,
                value: (((replies(m6 + 15) % 0x1_0000_0000) as u32) & !0u32) | 0x8000_0000,
            },
            BusOp::Read32 { reg: 0x1a704 },
            BusOp::Write32 {
                reg: 0x1a704,
                value: (((replies(m6 + 17) % 0x1_0000_0000) as u32) & !0x77_0000u32) | 0,
            },
            BusOp::Read32 { reg: 0x1a33c },
            BusOp::Write32 {
                reg: 0x1a33c,
                value: (((replies(m6 + 19) % 0x1_0000_0000) as u32) & !0xF_0000u32) | 0,
            },
        ] + seq![
            BusOp::Write32 { reg: 0x1a500, value: 1 },
            BusOp::Write32 { reg: 0x1a600, value: 1 },
            BusOp::Write32 { reg: 0x1a558, value: 3 },
            BusOp::Write32 { reg: 0x1a658, value: 3 },
            BusOp::Read32 { reg: 0x1a0d8 },
            BusOp::Write32 {
                reg: 0x1a0d8,
                value: (((replies(m6 + 25) % 0x1_0000_0000) as u32) & !0u32) | 0x8000_0000,
            },
        ]);
        assert(script_ops(s, 28, replies, m6) =~= seq![
            BusOp::Write64 { reg: 0x420c0, value: 1 },
            BusOp::Write64 { reg: 0x42110, value: 1 },
            BusOp::Write64 { reg: 0x42150, value: 1 },
            BusOp::Write64 { reg: 0x42190, value: 1 },
            BusOp::Write64 { reg: 0x421d0, value: 1 },
            BusOp::Write64 { reg: 0x42210, value: 1 },
            BusOp::Write64 { reg: 0x42250, value: 1 },
            BusOp::Write64 { reg: 0x42298, value: 1 },
            BusOp::Write64 { reg: 0x422e0, value: 1 },
            BusOp::Write64 { reg: 0x42328, value: 1 },
        ] + seq![
            BusOp::Write64 { reg: 0x4c060, value: 1 },
            BusOp::Write64 { reg: 0x4c070, value: 1 },
            BusOp::Write64 { reg: 0x4c080, value: 1 },
            BusOp::Write64 { reg: 0x4c090, value: 1 },
            BusOp::Write64 { reg: 0x4c0a0, value: 1 },
            BusOp::Read32 { reg: 0x1a0d4 },
            BusOp::Write32 {
                reg: 0x1a0d4,
                value: (((replies(m6 + 15) % 0x1_0000_0000) as u32) & !0u32) | 0x8000_0000,
            },
            BusOp::Read32 { reg: 0x1a704 },
            BusOp::Write32 {
                reg: 0x1a704,
                value: (((replies(m6 + 17) % 0x1_0000_0000) as u32) & !0x77_0000u32) | 0,
            },
            BusOp::Read32 { reg: 0x1a33c },
            BusOp::Write32 {
                reg: 0x1a33c,
                value: (((replies(m6 + 19) % 0x1_0000_0000) as u32) & !0xF_0000u32) | 0,
            },
        ] + seq![
            BusOp::Write32 { reg: 0x1a500, value: 1 },
            BusOp::Write32 { reg: 0x1a600, value: 1 },
            BusOp::Write32 { reg: 0x1a558, value: 3 },
            BusOp::Write32 { reg: 0x1a658, value: 3 },
            BusOp::Read32 { reg: 0x1a0d8 },
            BusOp::Write32 {
                reg: 0x1a0d8,
                value: (((replies(m6 + 25) % 0x1_0000_0000) as u32) & !0u32) | 0x8000_0000,
            },
        ]);
        assert(script_ops(s, 8, replies, m2) =~= wake + seq![
            BusOp::Read32 { reg: 0x1a318 },
            BusOp::Read64 { reg: 0x44018 },
        ] + repeated(BusOp::Read64 { reg: 0x44018 }, a1) + seq![
            BusOp::Write64 { reg: 0x4a000, value: 1 },
            BusOp::Write64 { reg: 0x48788, value: 0x7F },
        ] + repeated(BusOp::Read64 { reg: 0x48788 }, a2) + seq![
            BusOp::Write64 { reg: 0x40020, value: 0x1E02 },
            BusOp::Read32 { reg: 0x1a314 },
            BusOp::Write32 {
                reg: 0x1a314,
                value: (((replies(m5 + 1) % 0x1_0000_0000) as u32) & !0xC_0000u32) | 0x4_0000,
            },
            BusOp::Write64 { reg: 0x4c148, value: 0xFF },
            BusOp::Write64 { reg: 0x4c160, value: if is_multi_endpoint {
                1
            } else {
                0
            } },
            BusOp::Write64 { reg: 0x4c058, value: 0x80 },
            BusOp::Write64 { reg: 0x44018, value: 1 },
            BusOp::Write64 { reg: 0x44158, value: 1 },
            BusOp::Write64 { reg: 0x44198, value: 1 },
            BusOp::Write64 { reg: 0x441d8, value: 1 },
            BusOp::Write64 { reg: 0x44218, value: 1 },
            BusOp::Write64 { reg: 0x48788, value: 0x7F },
        ] + repeated(BusOp::Read64 { reg: 0x48788 }, a3) + (seq![
            BusOp::Write64 { reg: 0x420c0, value: 1 },
            BusOp::Write64 { reg: 0x42110, value: 1 },
            BusOp::Write64 { reg: 0x42150, value: 1 },
            BusOp::Write64 { reg: 0x42190, value: 1 },
            BusOp::Write64 { reg: 0x421d0, value: 1 },
            BusOp::Write64 { reg: 0x42210, value: 1 },
            BusOp::Write64 { reg: 0x42250, value: 1 },
            BusOp::Write64 { reg: 0x42298, value: 1 },
            BusOp::Write64 { reg: 0x422e0, value: 1 },
            BusOp::Write64 { reg: 0x42328, value: 1 },
        ] + seq![
            BusOp::Write64 { reg: 0x4c060, value: 1 },
            BusOp::Write64 { reg: 0x4c070, value: 1 },
            BusOp::Write64 { reg: 0x4c080, value: 1 },
            BusOp::Write64 { reg: 0x4c090, value: 1 },
            BusOp::Write64 { reg: 0x4c0a0, value: 1 },
            BusOp::Read32 { reg: 0x1a0d4 },
            BusOp::Write32 {
                reg: 0x1a0d4,
                value: (((replies(m6 + 15) % 0x1_0000_0000) as u32) & !0u32) | 0x8000_0000,
            },
            BusOp::Read32 { reg: 0x1a704 },
            BusOp::Write32 {
                reg: 0x1a704,
                value: (((replies(m6 + 17) % 0x1_0000_0000) as u32) & !0x77_0000u32) | 0,
            },
            BusOp::Read32 { reg: 0x1a33c },
            BusOp::Write32 {
                reg: 0x1a33c,
                value: (((replies(m6 + 19) % 0x1_0000_0000) as u32) & !0xF_0000u32) | 0,
            },
        ] + seq![
            BusOp::Write32 { reg: 0x1a500, value: 1 },
            BusOp::Write32 { reg: 0x1a600, value: 1 },
            BusOp::Write32 { reg: 0x1a558, value: 3 },
            BusOp::Write32 { reg: 0x1a658, value: 3 },
            BusOp::Read32 { reg: 0x1a0d8 },
            BusOp::Write32 {
                reg: 0x1a0d8,
                value: (((replies(m6 + 25) % 0x1_0000_0000) as u32) & !0u32) | 0x8000_0000,
            },
        ]));
        (p2, a1, a2, a3)
    } else {
        (p2, 1, 1, 1)
    }
}

/// The operations of bringing the chip up, for every way in which the chip can
/// answer. The two polled fields are read up to a thousand times, until the
/// chip shows that it sleeps and that it is awake; it fails without. The three
/// awaited registers are read up to a hundred times.
#[verifier::rlimit(100)]
#[verifier::spinoff_prover]
pub proof fn law_bring_up_operations(
    is_multi_endpoint: bool,
    replies: spec_fn(nat) -> u64,
) -> (r: (nat, nat, nat, nat, nat))
    ensures
        ({
            let s = init_script(is_multi_endpoint);
            let t = script_ops(s, 0, replies, 0);
            let (p1, p2, a1, a2, a3) = r;
            // The clock gate.
            let gated = (((replies(2) % 0x1_0000_0000) as u32) >> 18) & 3 == 1;
            let m1: nat = if gated {
                5
            } else {
                3
            };
            let opening = seq![
                BusOp::Read32 { reg: 0x1a30c },
                BusOp::Write32 {
                    reg: 0x1a30c,
                    value: (((replies(0) % 0x1_0000_0000) as u32) & !0x3F00u32) | 0,
                },
                BusOp::Read32 { reg: 0x1a314 },
            ] + (if gated {
                seq![
                    BusOp::Read32 { reg: 0x1a314 },
                    BusOp::Write32 {
                        reg: 0x1a314,
                        value: (((replies(3) % 0x1_0000_0000) as u32) & !0xC_0000u32) | 0x8_0000,
                    },
                ]
            } else {
                Seq::empty()
            }) + seq![BusOp::Read32 { reg: 0x1a318 }];
            // Reset, unless in forced sleep already.
            let asleep = (((replies(m1) % 0x1_0000_0000) as u32) >> 22) & 3 == 3;
            let slept = (((replies((m1 + 1 + p1) as nat) % 0x1_0000_0000) as u32) >> 8) & 3 == 2;
            let reset = if asleep {
                Seq::empty()
            } else {
                seq![
                    BusOp::Write32 {
                        reg: 0x1a318,
                        value: (((replies(m1) % 0x1_0000_0000) as u32) & !0xC0_0000u32) | 0xC0_0000,
                    },
                ] + repeated(BusOp::Read32 { reg: 0x1a318 }, p1) + seq![
                    BusOp::Read32 { reg: 0x1a318 },
                    BusOp::Write32 { reg: 0x1907c, value: 0xF },
                    BusOp::Write32 { reg: 0x1907c, value: 0 },
                ]
            };
            let m2: nat = if asleep {
                m1 + 1
            } else {
                m1 + p1 + 5
            };
            // Waking up.
            let woken = (((replies((m2 + 1 + p2) as nat) % 0x1_0000_0000) as u32) >> 8) & 3 == 0;
            let wake = seq![
                BusOp::Read32 { reg: 0x1a318 },
                BusOp::Write32 {
                    reg: 0x1a318,
                    value: (((replies(m2) % 0x1_0000_0000) as u32) & !0xF0C0_0000u32) | 0x80_0000,
                },
            ] + repeated(BusOp::Read32 { reg: 0x1a318 }, p2);
            let m3: nat = m2 + p2 + 4 + a1;
            let m5: nat = m3 + 2 + a2;
            let m6: nat = m5 + 12 + a3;

            &&& !asleep ==> {
                &&& 1 <= p1 <= 1000
                &&& p1 < 1000 ==> slept
                &&& forall|i: nat|
                    m1 + 2 <= i < m1 + 1 + p1 ==> (((#[trigger] replies(i) % 0x1_0000_0000) as u32)
                        >> 8) & 3 != 2
            }
            &&& !asleep && !slept ==> {
                &&& t == opening + seq![
                    BusOp::Write32 {
                        reg: 0x1a318,
                        value: (((replies(m1) % 0x1_0000_0000) as u32) & !0xC0_0000u32) | 0xC0_0000,
                    },
                ] + repeated(BusOp::Read32 { reg: 0x1a318 }, 1000)
                &&& !script_succeeds(s, 0, replies, 0)
            }
            &&& asleep || slept ==> {
                &&& 1 <= p2 <= 1000
                &&& p2 < 1000 ==> woken
                &&& forall|i: nat|
                    m2 + 2 <= i < m2 + 1 + p2 ==> (((#[trigger] replies(i) % 0x1_0000_0000) as u32)
                        >> 8) & 3 != 0
                &&& !woken ==> t == opening + reset + wake && !script_succeeds(s, 0, replies, 0)
                &&& woken ==> {
                    &&& script_succeeds(s, 0, replies, 0)
                    &&& 1 <= a1 <= 100
                    &&& forall|i: nat|
                        m3 - a1 <= i < m3 - 1 ==> #[trigger] replies(i) != 0
                    &&& a1 < 100 ==> replies((m3 - 1) as nat) == 0
                    &&& 1 <= a2 <= 100
                    &&& forall|i: nat|
                        m5 - a2 <= i < m5 - 1 ==> #[trigger] replies(i) != 0x7F
                    &&& a2 < 100 ==> replies((m5 - 1) as nat) == 0x7F
                    &&& 1 <= a3 <= 100
                    &&& forall|i: nat|
                        m6 - a3 <= i < m6 - 1 ==> #[trigger] replies(i) != 0x7F
                    &&& a3 < 100 ==> replies((m6 - 1) as nat) == 0x7F
                    &&& t == opening + reset + (wake + seq![
                        BusOp::Read32 { reg: 0x1a318 },
                        BusOp::Read64 { reg: 0x44018 },
                    ] + repeated(BusOp::Read64 { reg: 0x44018 }, a1) + seq![
                        BusOp::Write64 { reg: 0x4a000, value: 1 },
                        BusOp::Write64 { reg: 0x48788, value: 0x7F },
                    ] + repeated(BusOp::Read64 { reg: 0x48788 }, a2) + seq![
                        BusOp::Write64 { reg: 0x40020, value: 0x1E02 },
                        BusOp::Read32 { reg: 0x1a314 },
                        BusOp::Write32 {
                            reg: 0x1a314,
                            value: (((replies(m5 + 1) % 0x1_0000_0000) as u32) & !0xC_0000u32) | 0x4_0000,
                        },
                        BusOp::Write64 { reg: 0x4c148, value: 0xFF },
                        BusOp::Write64 { reg: 0x4c160, value: if is_multi_endpoint {
                            1
                        } else {
                            0
                        } },
                        BusOp::Write64 { reg: 0x4c058, value: 0x80 },
                        BusOp::Write64 { reg: 0x44018, value: 1 },
                        BusOp::Write64 { reg: 0x44158, value: 1 },
                        BusOp::Write64 { reg: 0x44198, value: 1 },
                        BusOp::Write64 { reg: 0x441d8, value: 1 },
                        BusOp::Write64 { reg: 0x44218, value: 1 },
                        BusOp::Write64 { reg: 0x48788, value: 0x7F },
                    ] + repeated(BusOp::Read64 { reg: 0x48788 }, a3) + (seq![
                        BusOp::Write64 { reg: 0x420c0, value: 1 },
                        BusOp::Write64 { reg: 0x42110, value: 1 },
                        BusOp::Write64 { reg: 0x42150, value: 1 },
                        BusOp::Write64 { reg: 0x42190, value: 1 },
                        BusOp::Write64 { reg: 0x421d0, value: 1 },
                        BusOp::Write64 { reg: 0x42210, value: 1 },
                        BusOp::Write64 { reg: 0x42250, value: 1 },
                        BusOp::Write64 { reg: 0x42298, value: 1 },
                        BusOp::Write64 { reg: 0x422e0, value: 1 },
                        BusOp::Write64 { reg: 0x42328, value: 1 },
                    ] + seq![
                        BusOp::Write64 { reg: 0x4c060, value: 1 },
                        BusOp::Write64 { reg: 0x4c070, value: 1 },
                        BusOp::Write64 { reg: 0x4c080, value: 1 },
                        BusOp::Write64 { reg: 0x4c090, value: 1 },
                        BusOp::Write64 { reg: 0x4c0a0, value: 1 },
                        BusOp::Read32 { reg: 0x1a0d4 },
                        BusOp::Write32 {
                            reg: 0x1a0d4,
                            value: (((replies(m6 + 15) % 0x1_0000_0000) as u32) & !0u32) | 0x8000_0000,
                        },
                        BusOp::Read32 { reg: 0x1a704 },
                        BusOp::Write32 {
                            reg: 0x1a704,
                            value: (((replies(m6 + 17) % 0x1_0000_0000) as u32) & !0x77_0000u32) | 0,
                        },
                        BusOp::Read32 { reg: 0x1a33c },
                        BusOp::Write32 {
                            reg: 0x1a33c,
                            value: (((replies(m6 + 19) % 0x1_0000_0000) as u32) & !0xF_0000u32) | 0,
                        },
                    ] + seq![
                        BusOp::Write32 { reg: 0x1a500, value: 1 },
                        BusOp::Write32 { reg: 0x1a600, value: 1 },
                        BusOp::Write32 { reg: 0x1a558, value: 3 },
                        BusOp::Write32 { reg: 0x1a658, value: 3 },
                        BusOp::Read32 { reg: 0x1a0d8 },
                        BusOp::Write32 {
                            reg: 0x1a0d8,
                            value: (((replies(m6 + 25) % 0x1_0000_0000) as u32) & !0u32) | 0x8000_0000,
                        },
                    ]))
                }
            }
        }),
{
    let s = init_script(is_multi_endpoint);
    lemma_update_step(s, 0, replies, 0, 0x1a30c, 0x3F00, 0);
    let gated = (((replies(2) % 0x1_0000_0000) as u32) >> 18) & 3 == 1;
    let m1: nat = if gated {
        5
    } else {
        3
    };
    let one = BusOp::Read32 { reg: 0x1a314 };
    let gate: Seq<BusOp> = if gated {
        seq![
            BusOp::Read32 { reg: 0x1a314 },
            BusOp::Write32 {
                reg: 0x1a314,
                value: (((replies(3) % 0x1_0000_0000) as u32) & !0xC_0000u32) | 0x8_0000,
            },
        ]
    } else {
        Seq::empty()
    };
    assert(s[1]
        == (ScriptStep::SkipUnless { reg: 0x1a314, shift: 18, mask: 3, field: 1, count: 1 }));
    assert(script_ops(s, 1, replies, 2) == seq![one] + gate + script_ops(s, 3, replies, m1)) by {
        if gated {
            lemma_update_step(s, 2, replies, 3, 0x1a314, 0xC_0000, 0x8_0000);
        }
    }
    assert(script_succeeds(s, 1, replies, 2) == script_succeeds(s, 3, replies, m1)) by {
        if gated {
            lemma_update_step(s, 2, replies, 3, 0x1a314, 0xC_0000, 0x8_0000);
        }
    }
    let start: Seq<BusOp> = seq![
        BusOp::Read32 { reg: 0x1a30c },
        BusOp::Write32 {
            reg: 0x1a30c,
            value: (((replies(0) % 0x1_0000_0000) as u32) & !0x3F00u32) | 0,
        },
        BusOp::Read32 { reg: 0x1a314 },
    ] + gate;
    assert(script_ops(s, 0, replies, 0) =~= start + script_ops(s, 3, replies, m1));
    assert(script_succeeds(s, 0, replies, 0) == script_succeeds(s, 3, replies, m1));
    assert(s[3] == (ScriptStep::UpdateUnless {
        reg: 0x1a318,
        shift: 22,
        mask: 3,
        field: 3,
        clear: 0xC0_0000,
        set: 0xC0_0000,
        count: 4,
    }));
    let asleep = (((replies(m1) % 0x1_0000_0000) as u32) >> 22) & 3 == 3;
    let opening = start + seq![BusOp::Read32 { reg: 0x1a318 }];
    if asleep {
        assert(script_ops(s, 3, replies, m1) == seq![
            BusOp::Read32 { reg: 0x1a318 },
        ] + script_ops(s, 8, replies, m1 + 1));
        assert(script_ops(s, 0, replies, 0) =~= opening + Seq::empty() + script_ops(
            s,
            8,
            replies,
            m1 + 1,
        ));
        let rest = lemma_after_reset(is_multi_endpoint, s, replies, m1 + 1);
        (1, rest.0, rest.1, rest.2, rest.3)
    } else {
        let p1 = lemma_poll_step(s, 4, replies, m1 + 2, 0x1a318, 8, 3, 2, 1000);
        let slept = (((replies((m1 + 1 + p1) as nat) % 0x1_0000_0000) as u32) >> 8) & 3 == 2;
        assert(m1 + 2 + p1 - 1 == m1 + 1 + p1);
        assert(script_ops(s, 3, replies, m1) == seq![
            BusOp::Read32 { reg: 0x1a318 },
            BusOp::Write32 {
                reg: 0x1a318,
                value: (((replies(m1) % 0x1_0000_0000) as u32) & !0xC0_0000u32) | 0xC0_0000,
            },
        ] + script_ops(s, 4, replies, m1 + 2));
        if slept {
            let reset = seq![
                BusOp::Write32 {
                    reg: 0x1a318,
                    value: (((replies(m1) % 0x1_0000_0000) as u32) & !0xC0_0000u32) | 0xC0_0000,
                },
            ] + repeated(BusOp::Read32 { reg: 0x1a318 }, p1) + seq![
                BusOp::Read32 { reg: 0x1a318 },
                BusOp::Write32 { reg: 0x1907c, value: 0xF },
                BusOp::Write32 { reg: 0x1907c, value: 0 },
            ];
            let m2 = m1 + p1 + 5;
            lemma_plain_step(s, 5, replies, m1 + 2 + p1, BusOp::Read32 { reg: 0x1a318 });
            lemma_plain_step(
                s,
                6,
                replies,
                m1 + 3 + p1,
                BusOp::Write32 { reg: 0x1907c, value: 0xF },
            );
            lemma_plain_step(s, 7, replies, m1 + 4 + p1, BusOp::Write32 { reg: 0x1907c, value: 0 });
            assert(script_ops(s, 0, replies, 0)
                =~= opening + reset + script_ops(s, 8, replies, m2));
            let rest = lemma_after_reset(is_multi_endpoint, s, replies, m2);
            (p1, rest.0, rest.1, rest.2, rest.3)
        } else {
            assert(script_ops(s, 0, replies, 0) =~= opening + seq![
                BusOp::Write32 {
                    reg: 0x1a318,
                    value: (((replies(m1) % 0x1_0000_0000) as u32) & !0xC0_0000u32) | 0xC0_0000,
                },
            ] + repeated(BusOp::Read32 { reg: 0x1a318 }, 1000));
            (p1, 1, 1, 1, 1)
        }
    }
}

/// The register of an operation.
pub open spec fn register_of(op: BusOp) -> u32 {
    match op {
        BusOp::Read32 { reg } => reg,
        BusOp::Write32 { reg, value } => reg,
        BusOp::Read64 { reg } => reg,
        BusOp::Write64 { reg, value } => reg,
    }
}

/// `op` is the last of some operations on its register.
pub open spec fn is_last(ops: Seq<BusOp>, op: BusOp) -> bool {
    exists|n: int|
        0 <= n < ops.len() && #[trigger] ops[n] == op && forall|i: int|
            n < i < ops.len() ==> register_of(#[trigger] ops[i]) != register_of(op)
}

/// The last operation on a register writes it back, with the bits of `clear`
/// cleared and those of `set` set, right after it was read.
pub open spec fn is_last_update(
    ops: Seq<BusOp>,
    replies: spec_fn(nat) -> u64,
    reg: u32,
    clear: u32,
    set: u32,
) -> bool {
    exists|n: nat|
        n + 1 < ops.len() && ops[n as int] == (BusOp::Read32 { reg }) && ops[n as int + 1] == (
        BusOp::Write32 { reg, value: ((#[trigger] replies(n) % 0x1_0000_0000) as u32 & !clear) | set })
            && forall|i: int| n + 1 < i < ops.len() ==> register_of(#[trigger] ops[i]) != reg
}

/// An operation among the last ones, with none on its register behind it.
proof fn lemma_is_last(ops: Seq<BusOp>, m: nat, f: Seq<BusOp>, j: int)
    requires
        ops.len() == m + f.len(),
        ops.skip(m as int) == f,
        0 <= j < f.len(),
        forall|i: int| j < i < f.len() ==> register_of(#[trigger] f[i]) != register_of(f[j]),
    ensures
        is_last(ops, f[j]),
{
    assert(ops[m + j] == f[j]);
    assert forall|i: int| m + j < i < ops.len() implies register_of(#[trigger] ops[i])
        != register_of(f[j]) by {
        assert(ops[i] == f[i - m]);
    }
}

/// An update among the last operations, with none on its register behind it.
proof fn lemma_is_last_update(
    ops: Seq<BusOp>,
    replies: spec_fn(nat) -> u64,
    m: nat,
    f: Seq<BusOp>,
    j: nat,
    reg: u32,
    clear: u32,
    set: u32,
)
    requires
        ops.len() == m + f.len(),
        ops.skip(m as int) == f,
        j + 1 < f.len(),
        f[j as int] == (BusOp::Read32 { reg }),
        f[j as int + 1] == (BusOp::Write32 {
            reg,
            value: ((replies(m + j) % 0x1_0000_0000) as u32 & !clear) | set,
        }),
        forall|i: int| j + 1 < i < f.len() ==> register_of(#[trigger] f[i]) != reg,
    ensures
        is_last_update(ops, replies, reg, clear, set),
{
    let n = m + j;
    assert(ops[n as int] == f[j as int]);
    assert(ops[n as int + 1] == f[j as int + 1]);
    assert forall|i: int| n + 1 < i < ops.len() implies register_of(#[trigger] ops[i]) != reg by {
        assert(ops[i] == f[i - m]);
    }
    assert(replies(n) == replies(m + j));
}

/// The registers of the last operations of a successful bring-up.
proof fn lemma_end_registers(f4: Seq<BusOp>)
    requires
        f4.len() == 27,
        register_of(f4[0]) == 0x420c0,
        register_of(f4[1]) == 0x42110,
        register_of(f4[2]) == 0x42150,
        register_of(f4[3]) == 0x42190,
        register_of(f4[4]) == 0x421d0,
        register_of(f4[5]) == 0x42210,
        register_of(f4[6]) == 0x42250,
        register_of(f4[7]) == 0x42298,
        register_of(f4[8]) == 0x422e0,
        register_of(f4[9]) == 0x42328,
        register_of(f4[10]) == 0x4c060,
        register_of(f4[11]) == 0x4c070,
        register_of(f4[12]) == 0x4c080,
        register_of(f4[13]) == 0x4c090,
        register_of(f4[14]) == 0x4c0a0,
        register_of(f4[15]) == 0x1a0d4,
        register_of(f4[16]) == 0x1a0d4,
        register_of(f4[17]) == 0x1a704,
        register_of(f4[18]) == 0x1a704,
        register_of(f4[19]) == 0x1a33c,
        register_of(f4[20]) == 0x1a33c,
        register_of(f4[21]) == 0x1a500,
        register_of(f4[22]) == 0x1a600,
        register_of(f4[23]) == 0x1a558,
        register_of(f4[24]) == 0x1a658,
        register_of(f4[25]) == 0x1a0d8,
        register_of(f4[26]) == 0x1a0d8,
    ensures
        forall|i: int|
            0 <= i < 27 ==> {
                let reg = register_of(#[trigger] f4[i]);
                &&& i < 10 ==> 0x42000 <= reg < 0x43000
                &&& 10 <= i < 15 ==> 0x4c060 <= reg <= 0x4c0a0
                &&& 15 <= i ==> 0x1a0d4 <= reg <= 0x1a0d8 || 0x1a33c <= reg <= 0x1a704
                &&& 0 < i ==> reg != 0x420c0
                &&& 1 < i ==> reg != 0x42110
                &&& 2 < i ==> reg != 0x42150
                &&& 3 < i ==> reg != 0x42190
                &&& 4 < i ==> reg != 0x421d0
                &&& 5 < i ==> reg != 0x42210
                &&& 6 < i ==> reg != 0x42250
                &&& 7 < i ==> reg != 0x42298
                &&& 8 < i ==> reg != 0x422e0
                &&& 9 < i ==> reg != 0x42328
                &&& 10 < i ==> reg != 0x4c060
                &&& 11 < i ==> reg != 0x4c070
                &&& 12 < i ==> reg != 0x4c080
                &&& 13 < i ==> reg != 0x4c090
                &&& 14 < i ==> reg != 0x4c0a0
                &&& 16 < i ==> reg != 0x1a0d4
                &&& 18 < i ==> reg != 0x1a704
                &&& 20 < i ==> reg != 0x1a33c
                &&& 21 < i ==> reg != 0x1a500
                &&& 22 < i ==> reg != 0x1a600
                &&& 23 < i ==> reg != 0x1a558
                &&& 24 < i ==> reg != 0x1a658
            },
{
    assert forall|i: int| 0 <= i < 27 implies {
        let reg = register_of(#[trigger] f4[i]);
        &&& i < 10 ==> 0x42000 <= reg < 0x43000
        &&& 10 <= i < 15 ==> 0x4c060 <= reg <= 0x4c0a0
        &&& 15 <= i ==> 0x1a0d4 <= reg <= 0x1a0d8 || 0x1a33c <= reg <= 0x1a704
        &&& 0 < i ==> reg != 0x420c0
        &&& 1 < i ==> reg != 0x42110
        &&& 2 < i ==> reg != 0x42150
        &&& 3 < i ==> reg != 0x42190
        &&& 4 < i ==> reg != 0x421d0
        &&& 5 < i ==> reg != 0x42210
        &&& 6 < i ==> reg != 0x42250
        &&& 7 < i ==> reg != 0x42298
        &&& 8 < i ==> reg != 0x422e0
        &&& 9 < i ==> reg != 0x42328
        &&& 10 < i ==> reg != 0x4c060
        &&& 11 < i ==> reg != 0x4c070
        &&& 12 < i ==> reg != 0x4c080
        &&& 13 < i ==> reg != 0x4c090
        &&& 14 < i ==> reg != 0x4c0a0
        &&& 16 < i ==> reg != 0x1a0d4
        &&& 18 < i ==> reg != 0x1a704
        &&& 20 < i ==> reg != 0x1a33c
        &&& 21 < i ==> reg != 0x1a500
        &&& 22 < i ==> reg != 0x1a600
        &&& 23 < i ==> reg != 0x1a558
        &&& 24 < i ==> reg != 0x1a658
    } by {
        assert(i == 0 || i == 1 || i == 2 || i == 3 || i == 4 || i == 5 || i == 6 || i == 7
            || i == 8
            || i == 9 || i == 10 || i == 11 || i == 12 || i == 13 || i == 14 || i == 15
                || i == 16 || i == 17
            || i == 18 || i == 19 || i == 20 || i == 21 || i == 22 || i == 23 || i == 24
                || i == 25 || i == 26);
    }
}

/// Where a trace of a successful bring-up ends.
#[verifier::spinoff_prover]
#[verifier::rlimit(60)]
proof fn lemma_trace_end(is_multi_endpoint: bool, replies: spec_fn(nat) -> u64) -> (r: (
    nat,
    nat,
    nat,
))
    requires
        script_succeeds(init_script(is_multi_endpoint), 0, replies, 0),
    ensures
        ({
            let t = script_ops(init_script(is_multi_endpoint), 0, replies, 0);
            let (m2, m5, a3) = r;
            let m6: nat = m5 + 12 + a3;
            &&& t.len() == m6 + 27
            &&& t.skip(m6 as int) == seq![
                BusOp::Write64 { reg: 0x420c0, value: 1 },
                BusOp::Write64 { reg: 0x42110, value: 1 },
                BusOp::Write64 { reg: 0x42150, value: 1 },
                BusOp::Write64 { reg: 0x42190, value: 1 },
                BusOp::Write64 { reg: 0x421d0, value: 1 },
                BusOp::Write64 { reg: 0x42210, value: 1 },
                BusOp::Write64 { reg: 0x42250, value: 1 },
                BusOp::Write64 { reg: 0x42298, value: 1 },
                BusOp::Write64 { reg: 0x422e0, value: 1 },
                BusOp::Write64 { reg: 0x42328, value: 1 },
            ] + seq![
                BusOp::Write64 { reg: 0x4c060, value: 1 },
                BusOp::Write64 { reg: 0x4c070, value: 1 },
                BusOp::Write64 { reg: 0x4c080, value: 1 },
                BusOp::Write64 { reg: 0x4c090, value: 1 },
                BusOp::Write64 { reg: 0x4c0a0, value: 1 },
                BusOp::Read32 { reg: 0x1a0d4 },
                BusOp::Write32 {
                    reg: 0x1a0d4,
                    value: (((replies(m6 + 15) % 0x1_0000_0000) as u32) & !0u32) | 0x8000_0000,
                },
                BusOp::Read32 { reg: 0x1a704 },
                BusOp::Write32 {
                    reg: 0x1a704,
                    value: (((replies(m6 + 17) % 0x1_0000_0000) as u32) & !0x77_0000u32) | 0,
                },
                BusOp::Read32 { reg: 0x1a33c },
                BusOp::Write32 {
                    reg: 0x1a33c,
                    value: (((replies(m6 + 19) % 0x1_0000_0000) as u32) & !0xF_0000u32) | 0,
                },
            ] + seq![
                BusOp::Write32 { reg: 0x1a500, value: 1 },
                BusOp::Write32 { reg: 0x1a600, value: 1 },
                BusOp::Write32 { reg: 0x1a558, value: 3 },
                BusOp::Write32 { reg: 0x1a658, value: 3 },
                BusOp::Read32 { reg: 0x1a0d8 },
                BusOp::Write32 {
                    reg: 0x1a0d8,
                    value: (((replies(m6 + 25) % 0x1_0000_0000) as u32) & !0u32) | 0x8000_0000,
                },
            ]
            &&& t.skip(m5 as int) == seq![
                BusOp::Write64 { reg: 0x40020, value: 0x1E02 },
                BusOp::Read32 { reg: 0x1a314 },
                BusOp::Write32 {
                    reg: 0x1a314,
                    value: (((replies(m5 + 1) % 0x1_0000_0000) as u32) & !0xC_0000u32) | 0x4_0000,
                },
                BusOp::Write64 { reg: 0x4c148, value: 0xFF },
                BusOp::Write64 { reg: 0x4c160, value: if is_multi_endpoint {
                    1
                } else {
                    0
                } },
                BusOp::Write64 { reg: 0x4c058, value: 0x80 },
                BusOp::Write64 { reg: 0x44018, value: 1 },
                BusOp::Write64 { reg: 0x44158, value: 1 },
                BusOp::Write64 { reg: 0x44198, value: 1 },
                BusOp::Write64 { reg: 0x441d8, value: 1 },
                BusOp::Write64 { reg: 0x44218, value: 1 },
                BusOp::Write64 { reg: 0x48788, value: 0x7F },
            ] + repeated(BusOp::Read64 { reg: 0x48788 }, a3) + t.skip(m6 as int)
            &&& 3 <= m2 < m5 - 6
            // Before waking up.
            &&& t[0] == BusOp::Read32 { reg: 0x1a30c }
            &&& t[1] == BusOp::Write32 {
                reg: 0x1a30c,
                value: (((replies(0) % 0x1_0000_0000) as u32) & !0x3F00u32) | 0,
            }
            &&& forall|i: int|
                2 <= i < m2 ==> {
                    ||| register_of(#[trigger] t[i]) == 0x1a314
                    ||| register_of(t[i]) == 0x1a318
                    ||| register_of(t[i]) == 0x1907c
                }
            &&& (forall|i: int| 0 <= i < m2
                ==> register_of(#[trigger] t[i]) != 0x1907c) || t[m2 - 1]
                == (BusOp::Write32 { reg: 0x1907c, value: 0 })
            // Waking up.
            &&& t[m2 as int] == BusOp::Read32 { reg: 0x1a318 }
            &&& t[m2 as int + 1] == BusOp::Write32 {
                reg: 0x1a318,
                value: (((replies(m2) % 0x1_0000_0000) as u32) & !0xF0C0_0000u32) | 0x80_0000,
            }
            &&& forall|i: int|
                m2 + 2 <= i < m5 ==> {
                    ||| #[trigger] t[i] == (BusOp::Read32 { reg: 0x1a318 })
                    ||| t[i] == (BusOp::Read64 { reg: 0x44018 })
                    ||| t[i] == (BusOp::Write64 { reg: 0x4a000, value: 1 })
                    ||| t[i] == (BusOp::Write64 { reg: 0x48788, value: 0x7F })
                    ||| t[i] == (BusOp::Read64 { reg: 0x48788 })
                }
            &&& exists|n: int|
                m2 + 2 <= n < m5
                    && #[trigger] t[n] == (BusOp::Write64 { reg: 0x4a000, value: 1 })
                        && forall|i: int|
                    n < i < m5 ==> register_of(#[trigger] t[i]) == 0x48788
        }),
{
    let (p1, p2, a1, a2, a3) = law_bring_up_operations(is_multi_endpoint, replies);
    let t = script_ops(init_script(is_multi_endpoint), 0, replies, 0);
            // The clock gate.
    let gated = (((replies(2) % 0x1_0000_0000) as u32) >> 18) & 3 == 1;
    let m1: nat = if gated {
                5
            } else {
                3
            };
    let opening = seq![
        BusOp::Read32 { reg: 0x1a30c },
        BusOp::Write32 {
            reg: 0x1a30c,
            value: (((replies(0) % 0x1_0000_0000) as u32) & !0x3F00u32) | 0,
        },
        BusOp::Read32 { reg: 0x1a314 },
    ] + (if gated {
                seq![
                    BusOp::Read32 { reg: 0x1a314 },
                    BusOp::Write32 {
                        reg: 0x1a314,
                        value: (((replies(3) % 0x1_0000_0000) as u32) & !0xC_0000u32) | 0x8_0000,
                    },
                ]
            } else {
                Seq::empty()
            }) + seq![BusOp::Read32 { reg: 0x1a318 }];
            // Reset, unless in forced sleep already.
    let asleep = (((replies(m1) % 0x1_0000_0000) as u32) >> 22) & 3 == 3;
    let slept = (((replies((m1 + 1 + p1) as nat) % 0x1_0000_0000) as u32) >> 8) & 3 == 2;
    let reset = if asleep {
                Seq::empty()
            } else {
                seq![
                    BusOp::Write32 {
                        reg: 0x1a318,
                        value: (((replies(m1) % 0x1_0000_0000) as u32) & !0xC0_0000u32) | 0xC0_0000,
                    },
                ] + repeated(BusOp::Read32 { reg: 0x1a318 }, p1) + seq![
                    BusOp::Read32 { reg: 0x1a318 },
                    BusOp::Write32 { reg: 0x1907c, value: 0xF },
                    BusOp::Write32 { reg: 0x1907c, value: 0 },
                ]
            };
    let m2: nat = if asleep {
                m1 + 1
            } else {
                m1 + p1 + 5
            };
            // Waking up.
    let woken = (((replies((m2 + 1 + p2) as nat) % 0x1_0000_0000) as u32) >> 8) & 3 == 0;
    let wake = seq![
        BusOp::Read32 { reg: 0x1a318 },
        BusOp::Write32 {
            reg: 0x1a318,
            value: (((replies(m2) % 0x1_0000_0000) as u32) & !0xF0C0_0000u32) | 0x80_0000,
        },
    ] + repeated(BusOp::Read32 { reg: 0x1a318 }, p2);
    let m3: nat = m2 + p2 + 4 + a1;
    let m5: nat = m3 + 2 + a2;
    let m6: nat = m5 + 12 + a3;

    assert(opening.len() == m1 + 1);
    assert((opening + reset).len() == m2);
    assert(wake.len() == 2 + p2);
    assert(t.len() == m6 + 27);
    let f4 = seq![
        BusOp::Write64 { reg: 0x420c0, value: 1 },
        BusOp::Write64 { reg: 0x42110, value: 1 },
        BusOp::Write64 { reg: 0x42150, value: 1 },
        BusOp::Write64 { reg: 0x42190, value: 1 },
        BusOp::Write64 { reg: 0x421d0, value: 1 },
        BusOp::Write64 { reg: 0x42210, value: 1 },
        BusOp::Write64 { reg: 0x42250, value: 1 },
        BusOp::Write64 { reg: 0x42298, value: 1 },
        BusOp::Write64 { reg: 0x422e0, value: 1 },
        BusOp::Write64 { reg: 0x42328, value: 1 },
    ] + seq![
        BusOp::Write64 { reg: 0x4c060, value: 1 },
        BusOp::Write64 { reg: 0x4c070, value: 1 },
        BusOp::Write64 { reg: 0x4c080, value: 1 },
        BusOp::Write64 { reg: 0x4c090, value: 1 },
        BusOp::Write64 { reg: 0x4c0a0, value: 1 },
        BusOp::Read32 { reg: 0x1a0d4 },
        BusOp::Write32 {
            reg: 0x1a0d4,
            value: (((replies(m6 + 15) % 0x1_0000_0000) as u32) & !0u32) | 0x8000_0000,
        },
        BusOp::Read32 { reg: 0x1a704 },
        BusOp::Write32 {
            reg: 0x1a704,
            value: (((replies(m6 + 17) % 0x1_0000_0000) as u32) & !0x77_0000u32) | 0,
        },
        BusOp::Read32 { reg: 0x1a33c },
        BusOp::Write32 {
            reg: 0x1a33c,
            value: (((replies(m6 + 19) % 0x1_0000_0000) as u32) & !0xF_0000u32) | 0,
        },
    ] + seq![
        BusOp::Write32 { reg: 0x1a500, value: 1 },
        BusOp::Write32 { reg: 0x1a600, value: 1 },
        BusOp::Write32 { reg: 0x1a558, value: 3 },
        BusOp::Write32 { reg: 0x1a658, value: 3 },
        BusOp::Read32 { reg: 0x1a0d8 },
        BusOp::Write32 {
            reg: 0x1a0d8,
            value: (((replies(m6 + 25) % 0x1_0000_0000) as u32) & !0u32) | 0x8000_0000,
        },
    ];
    let f3 = seq![
        BusOp::Write64 { reg: 0x40020, value: 0x1E02 },
        BusOp::Read32 { reg: 0x1a314 },
        BusOp::Write32 {
            reg: 0x1a314,
            value: (((replies(m5 + 1) % 0x1_0000_0000) as u32) & !0xC_0000u32) | 0x4_0000,
        },
        BusOp::Write64 { reg: 0x4c148, value: 0xFF },
        BusOp::Write64 { reg: 0x4c160, value: if is_multi_endpoint {
            1
        } else {
            0
        } },
        BusOp::Write64 { reg: 0x4c058, value: 0x80 },
        BusOp::Write64 { reg: 0x44018, value: 1 },
        BusOp::Write64 { reg: 0x44158, value: 1 },
        BusOp::Write64 { reg: 0x44198, value: 1 },
        BusOp::Write64 { reg: 0x441d8, value: 1 },
        BusOp::Write64 { reg: 0x44218, value: 1 },
        BusOp::Write64 { reg: 0x48788, value: 0x7F },
    ];
    let reads = repeated(BusOp::Read64 { reg: 0x48788 }, a3);
    assert(t.skip(m6 as int) =~= f4);
    assert(t.skip(m5 as int) =~= f3 + reads + f4);
    assert(t[m3 as int] == (BusOp::Write64 { reg: 0x4a000, value: 1 }));
    assert forall|i: int| m3 < i < m5 implies register_of(#[trigger] t[i]) == 0x48788 by {}
    (m2, m5, a3)
}

/// Whenever bringing the chip up succeeds, the scalar core, the four queues
/// around it and the ten tile datapaths are running: the last operation on each
/// of their run-control registers writes 1. The tiles are started after the
/// last write to their broadcast mask, which selects all of them.
#[verifier::spinoff_prover]
#[verifier::rlimit(100)]
pub proof fn law_datapaths_run(is_multi_endpoint: bool, replies: spec_fn(nat) -> u64)
    requires
        script_succeeds(init_script(is_multi_endpoint), 0, replies, 0),
    ensures
        ({
            let t = script_ops(init_script(is_multi_endpoint), 0, replies, 0);
            &&& is_last(t, BusOp::Write64 { reg: 0x44018, value: 1 })
            &&& is_last(t, BusOp::Write64 { reg: 0x44158, value: 1 })
            &&& is_last(t, BusOp::Write64 { reg: 0x44198, value: 1 })
            &&& is_last(t, BusOp::Write64 { reg: 0x441d8, value: 1 })
            &&& is_last(t, BusOp::Write64 { reg: 0x44218, value: 1 })
            &&& is_last(t, BusOp::Write64 { reg: 0x420c0, value: 1 })
            &&& is_last(t, BusOp::Write64 { reg: 0x42110, value: 1 })
            &&& is_last(t, BusOp::Write64 { reg: 0x42150, value: 1 })
            &&& is_last(t, BusOp::Write64 { reg: 0x42190, value: 1 })
            &&& is_last(t, BusOp::Write64 { reg: 0x421d0, value: 1 })
            &&& is_last(t, BusOp::Write64 { reg: 0x42210, value: 1 })
            &&& is_last(t, BusOp::Write64 { reg: 0x42250, value: 1 })
            &&& is_last(t, BusOp::Write64 { reg: 0x42298, value: 1 })
            &&& is_last(t, BusOp::Write64 { reg: 0x422e0, value: 1 })
            &&& is_last(t, BusOp::Write64 { reg: 0x42328, value: 1 })
            &&& exists|k: int|
                0 <= k < t.len()
                    && #[trigger] t[k] == (BusOp::Write64 { reg: 0x48788, value: 0x7F })
                        && (forall|i: int|
                    k < i < t.len() ==> !(#[trigger] t[i] is Write64 && register_of(t[i])
                        == 0x48788)) && forall|i: int|
                    0 <= i <= k ==> !(0x42000 <= register_of(#[trigger] t[i]) < 0x43000)
        }),
{
    let t = script_ops(init_script(is_multi_endpoint), 0, replies, 0);
    let (m2, m5, a3) = lemma_trace_end(is_multi_endpoint, replies);
    let m6: nat = m5 + 12 + a3;
    let f4 = t.skip(m6 as int);
    let f = t.skip(m5 as int);
    assert(f4.len() == 27);
    assert(f.len() == 12 + a3 + 27);
    assert forall|i: int| 12 <= i < 12 + a3
        implies #[trigger] f[i] == (BusOp::Read64 { reg: 0x48788 }) by {}
    assert forall|i: int| 12 + a3 <= i < f.len() implies #[trigger] f[i] == f4[i - 12 - a3] by {}
    lemma_end_registers(f4);
    let k = m5 + 11;
    assert(t[k as int] == f[11]);
    assert forall|i: int| k < i < t.len() implies !(#[trigger] t[i] is Write64 && register_of(t[i])
        == 0x48788) by {
        assert(t[i] == f[i - m5]);
        if i >= m6 {
            assert(t[i] == f4[i - m6]);
        }
    }
    assert forall|i: int| 0 <= i <= k implies !(0x42000 <= register_of(#[trigger] t[i])
        < 0x43000) by {
        if i >= m5 {
            assert(t[i] == f[i - m5]);
        }
    }
    lemma_is_last(t, m5, f, 6);
    lemma_is_last(t, m5, f, 7);
    lemma_is_last(t, m5, f, 8);
    lemma_is_last(t, m5, f, 9);
    lemma_is_last(t, m5, f, 10);
    lemma_is_last(t, m6, f4, 0);
    lemma_is_last(t, m6, f4, 1);
    lemma_is_last(t, m6, f4, 2);
    lemma_is_last(t, m6, f4, 3);
    lemma_is_last(t, m6, f4, 4);
    lemma_is_last(t, m6, f4, 5);
    lemma_is_last(t, m6, f4, 6);
    lemma_is_last(t, m6, f4, 7);
    lemma_is_last(t, m6, f4, 8);
    lemma_is_last(t, m6, f4, 9);
}

/// Whenever bringing the chip up succeeds, the interrupts are on: the last
/// operation on each of their registers writes the value that enables it, or
/// writes the value just read back with only its own bits changed.
#[verifier::spinoff_prover]
#[verifier::rlimit(100)]
pub proof fn law_interrupts_are_on(is_multi_endpoint: bool, replies: spec_fn(nat) -> u64)
    requires
        script_succeeds(init_script(is_multi_endpoint), 0, replies, 0),
    ensures
        ({
            let t = script_ops(init_script(is_multi_endpoint), 0, replies, 0);
            &&& is_last(t, BusOp::Write64 { reg: 0x4c060, value: 1 })
            &&& is_last(t, BusOp::Write64 { reg: 0x4c070, value: 1 })
            &&& is_last(t, BusOp::Write64 { reg: 0x4c080, value: 1 })
            &&& is_last(t, BusOp::Write64 { reg: 0x4c090, value: 1 })
            &&& is_last(t, BusOp::Write64 { reg: 0x4c0a0, value: 1 })
            &&& is_last(t, BusOp::Write32 { reg: 0x1a500, value: 1 })
            &&& is_last(t, BusOp::Write32 { reg: 0x1a600, value: 1 })
            &&& is_last(t, BusOp::Write32 { reg: 0x1a558, value: 3 })
            &&& is_last(t, BusOp::Write32 { reg: 0x1a658, value: 3 })
            &&& is_last_update(t, replies, 0x1a0d4, 0, 0x8000_0000)
            &&& is_last_update(t, replies, 0x1a704, 0x77_0000, 0)
            &&& is_last_update(t, replies, 0x1a33c, 0xF_0000, 0)
            &&& is_last_update(t, replies, 0x1a0d8, 0, 0x8000_0000)
        }),
{
    let t = script_ops(init_script(is_multi_endpoint), 0, replies, 0);
    let (m2, m5, a3) = lemma_trace_end(is_multi_endpoint, replies);
    let m6: nat = m5 + 12 + a3;
    let f4 = t.skip(m6 as int);
    assert(f4.len() == 27);
    lemma_end_registers(f4);
    lemma_is_last(t, m6, f4, 10);
    lemma_is_last(t, m6, f4, 11);
    lemma_is_last(t, m6, f4, 12);
    lemma_is_last(t, m6, f4, 13);
    lemma_is_last(t, m6, f4, 14);
    lemma_is_last(t, m6, f4, 21);
    lemma_is_last(t, m6, f4, 22);
    lemma_is_last(t, m6, f4, 23);
    lemma_is_last(t, m6, f4, 24);
    lemma_is_last_update(t, replies, m6, f4, 15, 0x1a0d4, 0, 0x8000_0000);
    lemma_is_last_update(t, replies, m6, f4, 17, 0x1a704, 0x77_0000, 0);
    lemma_is_last_update(t, replies, m6, f4, 19, 0x1a33c, 0xF_0000, 0);
    lemma_is_last_update(t, replies, m6, f4, 25, 0x1a0d8, 0, 0x8000_0000);
}

/// Whenever bringing the chip up succeeds, its last operations on the tile
/// delays, the descriptor endpoints, the bulk-out mode, the outfeed chunk
/// length and the clock gate leave these values in them.
#[verifier::spinoff_prover]
#[verifier::rlimit(100)]
pub proof fn law_interface_is_set_up(is_multi_endpoint: bool, replies: spec_fn(nat) -> u64)
    requires
        script_succeeds(init_script(is_multi_endpoint), 0, replies, 0),
    ensures
        ({
            let t = script_ops(init_script(is_multi_endpoint), 0, replies, 0);
            &&& is_last(t, BusOp::Write64 { reg: 0x40020, value: 0x1E02 })
            &&& is_last(t, BusOp::Write64 { reg: 0x4c148, value: 0xFF })
            &&& is_last(t, BusOp::Write64 { reg: 0x4c160, value: if is_multi_endpoint {
                1
            } else {
                0
            } })
            &&& is_last(t, BusOp::Write64 { reg: 0x4c058, value: 0x80 })
            &&& is_last_update(t, replies, 0x1a314, 0xC_0000, 0x4_0000)
        }),
{
    let t = script_ops(init_script(is_multi_endpoint), 0, replies, 0);
    let (m2, m5, a3) = lemma_trace_end(is_multi_endpoint, replies);
    let m6: nat = m5 + 12 + a3;
    let f4 = t.skip(m6 as int);
    assert(f4.len() == 27);
    lemma_end_registers(f4);
    let f = t.skip(m5 as int);
    assert(f.len() == 12 + a3 + 27);
    assert forall|i: int| 12 <= i < 12 + a3
        implies #[trigger] f[i] == (BusOp::Read64 { reg: 0x48788 }) by {}
    assert forall|i: int| 12 + a3 <= i < f.len() implies #[trigger] f[i] == f4[i - 12 - a3] by {}
    lemma_is_last(t, m5, f, 0);
    lemma_is_last(t, m5, f, 3);
    lemma_is_last(t, m5, f, 4);
    lemma_is_last(t, m5, f, 5);
    lemma_is_last_update(t, replies, m5, f, 1, 0x1a314, 0xC_0000, 0x4_0000);
}

/// Whenever bringing the chip up succeeds, idle control and the PHY modes are
/// left as written, the power state register is only read after its last
/// write, which wakes the chip, and the credit of the bridge is left alone or
/// cleared.
#[verifier::spinoff_prover]
#[verifier::rlimit(100)]
pub proof fn law_chip_is_awake(is_multi_endpoint: bool, replies: spec_fn(nat) -> u64)
    requires
        script_succeeds(init_script(is_multi_endpoint), 0, replies, 0),
    ensures
        ({
            let t = script_ops(init_script(is_multi_endpoint), 0, replies, 0);
            &&& is_last(t, BusOp::Write64 { reg: 0x4a000, value: 1 })
            &&& is_last_update(t, replies, 0x1a30c, 0x3F00, 0)
            &&& exists|n: nat|
                n + 1 < t.len() && t[n as int] == (BusOp::Read32 { reg: 0x1a318 }) && t[n as int + 1] == (BusOp::Write32 {
                    reg: 0x1a318,
                    value: (((#[trigger] replies(n) % 0x1_0000_0000) as u32) & !0xF0C0_0000u32) | 0x80_0000,
                })
                    && forall|i: int|
                    n + 1 < i < t.len() && register_of(#[trigger] t[i]) == 0x1a318
                        ==> t[i] is Read32
            &&& (forall|i: int| 0 <= i < t.len() ==> register_of(#[trigger] t[i]) != 0x1907c)
                || is_last(t, BusOp::Write32 { reg: 0x1907c, value: 0 })
        }),
{
    let t = script_ops(init_script(is_multi_endpoint), 0, replies, 0);
    let (m2, m5, a3) = lemma_trace_end(is_multi_endpoint, replies);
    let m6: nat = m5 + 12 + a3;
    let f4 = t.skip(m6 as int);
    assert(f4.len() == 27);
    lemma_end_registers(f4);
    let f = t.skip(m5 as int);
    assert(f.len() == 12 + a3 + 27);
    assert forall|i: int| 12 <= i < 12 + a3
        implies #[trigger] f[i] == (BusOp::Read64 { reg: 0x48788 }) by {}
    assert forall|i: int| 12 + a3 <= i < f.len() implies #[trigger] f[i] == f4[i - 12 - a3] by {}
    let n = choose|n: int|
        m2 + 2 <= n < m5 && #[trigger] t[n] == (BusOp::Write64 { reg: 0x4a000, value: 1 })
            && forall|i: int|
            n < i < m5 ==> register_of(#[trigger] t[i]) == 0x48788;
    assert forall|i: int| m5 <= i < t.len() implies ({
        let reg = register_of(#[trigger] t[i]);
        &&& reg != 0x4a000
        &&& reg != 0x1a30c
        &&& reg != 0x1a318
        &&& reg != 0x1907c
    }) by {
        assert(t[i] == f[i - m5]);
        if i >= m6 {
            assert(t[i] == f4[i - m6]);
        }
    }
    assert(is_last(t, t[n]));
    assert(is_last_update(t, replies, 0x1a30c, 0x3F00, 0)) by {
        let first: nat = 0;
        assert(replies(first) == replies(0));
        assert(t[first as int] == t[0] && t[first as int + 1] == t[1]);
    }
    let woken = replies(m2);
    if t[m2 - 1] == (BusOp::Write32 { reg: 0x1907c, value: 0 }) {
        assert(is_last(t, t[m2 - 1]));
    }
}

/// A register value has as many bytes as were asked for, least significant byte
/// first; a reply of any other length is an error.
pub proof fn law_reply_values(reply: Seq<u8>)
    ensures
        reply_of(reply, 4) is Ok <==> reply.len() == 4,
        reply_of(reply, 8) is Ok <==> reply.len() == 8,
        reply_of(reply, 4) matches Ok(v) ==> v == reply[0] + 0x100 * reply[1] + 0x1_0000 * reply[2]
            + 0x100_0000 * reply[3],
        reply_of(reply, 8) matches Ok(v) ==> v == reply[0] + 0x100 * reply[1] + 0x1_0000 * reply[2]
            + 0x100_0000 * reply[3] + 0x1_0000_0000 * reply[4] + 0x100_0000_0000 * reply[5]
            + 0x1_0000_0000_0000 * reply[6] + 0x100_0000_0000_0000 * reply[7],
        reply_of(reply, 4) matches Err(e) ==> e == TransferError::Unknown(0),
        reply_of(reply, 8) matches Err(e) ==> e == TransferError::Unknown(0),
{
    if reply.len() == 4 {
        crate::bytes::lemma_le_nat_4(reply);
    }
    if reply.len() == 8 {
        crate::bytes::lemma_le_nat_8(reply);
    }
}

/// The credit register holds three counters of units of eight bytes: the lowest
/// 21 bits for instructions, the next 21 for input and the next 21 for
/// parameters.
pub proof fn law_credit_counters(instructions: u64, input: u64, parameters: u64, rest: u64)
    requires
        instructions < 0x20_0000,
        input < 0x20_0000,
        parameters < 0x20_0000,
        rest < 2,
    ensures
        ({
            let c = credits_of(
                (instructions + 0x20_0000 * input + 0x400_0000_0000 * parameters
                    + 0x8000_0000_0000_0000 * rest) as u64,
            );
            &&& c.instructions == 8 * instructions
            &&& c.input_activations == 8 * input
            &&& c.parameters == 8 * parameters
        }),
{
    let upper: int = parameters + 0x20_0000 * rest;
    let middle: int = input + 0x20_0000 * upper;
    let whole: int = instructions + 0x20_0000 * middle;
    assert(whole == instructions + 0x20_0000 * input + 0x400_0000_0000 * parameters
        + 0x8000_0000_0000_0000 * rest);
    vstd::arithmetic::div_mod::lemma_fundamental_div_mod_converse(
        whole,
        0x20_0000,
        middle,
        instructions as int,
    );
    vstd::arithmetic::div_mod::lemma_fundamental_div_mod_converse(
        middle,
        0x20_0000,
        upper,
        input as int,
    );
    vstd::arithmetic::div_mod::lemma_fundamental_div_mod_converse(
        upper,
        0x20_0000,
        rest as int,
        parameters as int,
    );
    vstd::arithmetic::div_mod::lemma_fundamental_div_mod_converse(
        whole,
        0x400_0000_0000,
        upper,
        instructions + 0x20_0000 * input,
    );
}

/// The registers that identify the chip and hold the credits.
pub proof fn law_status_registers()
    ensures
        REG_OMC0_00 == 0x1a000,
        REG_SCU_CTRL_0 == 0x1a30c,
        REG_EP_STATUS_CREDIT == 0x4c150,
{
}

} // verus!
