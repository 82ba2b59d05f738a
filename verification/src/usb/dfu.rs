//! Firmware download with the USB DFU protocol (DFU 1.1).
//!
//! For each chunk the host sends a download request and asks for the status,
//! which must be `dfuDNLOAD-IDLE`. A final download request without data makes
//! the device manifest the firmware; the status after it must be `dfuIDLE`.

use vstd::prelude::*;

use crate::bytes::{le_nat, read_le16};
use crate::text::{decimal, numeral, push_decimal};
use crate::usb::registers::{ControlKind, ControlRead, ControlTarget, ControlWrite};

verus! {

/// `bRequest` of a download.
pub const DFU_DNLOAD: u8 = 1;

/// `bRequest` of a status query.
pub const DFU_GETSTATUS: u8 = 3;

/// `dfuIDLE`.
pub const DFU_STATE_IDLE: u8 = 2;

/// `dfuDNLOAD-IDLE`.
pub const DFU_STATE_DNLOAD_IDLE: u8 = 5;

/// Type of an interface descriptor.
pub const INTERFACE_DESC_TYPE: u8 = 0x04;

/// Type of a DFU functional descriptor.
pub const DFU_FUNCTIONAL_DESC_TYPE: u8 = 0x21;

/// Interface class of DFU.
pub const DFU_CLASS: u8 = 0xFE;

/// Interface subclass of DFU.
pub const DFU_SUBCLASS: u8 = 0x01;

/// Chunk size when the device does not tell one.
pub const DEFAULT_TRANSFER_SIZE: u16 = 4096;

/// Timeout of all DFU control transfers.
pub const DFU_TIMEOUT_MS: u64 = 5000;

/// Where and in which portions to download firmware.
#[derive(Debug, Clone, Copy, PartialEq, Eq, Structural)]
pub struct DfuInfo {
    pub interface_number: u8,
    pub transfer_size: u16,
}

/// The positions at which descriptors start in a configuration, from byte `i`
/// on. Every descriptor begins with its own length; one that is shorter than
/// two bytes ends the list.
pub open spec fn descriptors_from(b: Seq<u8>, i: int) -> Seq<int>
    decreases
            if i < b.len() {
                b.len() - i
            } else {
                0
            },
{
    if 0 <= i && i + 1 < b.len() && b[i] >= 2 {
        seq![i] + descriptors_from(b, i + b[i])
    } else {
        Seq::empty()
    }
}

/// A DFU interface descriptor starts at `p`.
pub open spec fn is_dfu_interface(b: Seq<u8>, p: int) -> bool {
    &&& b[p + 1] == INTERFACE_DESC_TYPE
    &&& p + 8 < b.len()
    &&& b[p + 5] == DFU_CLASS
    &&& b[p + 6] == DFU_SUBCLASS
}

/// A DFU functional descriptor starts at `p`.
pub open spec fn is_functional(b: Seq<u8>, p: int) -> bool {
    &&& b[p + 1] == DFU_FUNCTIONAL_DESC_TYPE
    &&& p + 6 < b.len()
}

/// The number of the last DFU interface among the descriptors at `starts`.
pub open spec fn interface_in(b: Seq<u8>, starts: Seq<int>) -> Option<u8>
    decreases starts.len(),
{
    if starts.len() == 0 {
        None
    } else if is_dfu_interface(b, starts.last()) {
        Some(b[starts.last() + 2])
    } else {
        interface_in(b, starts.drop_last())
    }
}

/// The transfer size in the last functional descriptor among those at `starts`.
pub open spec fn transfer_size_in(b: Seq<u8>, starts: Seq<int>) -> u16
    decreases starts.len(),
{
    if starts.len() == 0 {
        DEFAULT_TRANSFER_SIZE
    } else if is_functional(b, starts.last()) {
        le_nat(b.subrange(starts.last() + 5, starts.last() + 7)) as u16
    } else {
        transfer_size_in(b, starts.drop_last())
    }
}

/// What a configuration tells about firmware download.
pub open spec fn dfu_info_of(b: Seq<u8>) -> Option<DfuInfo> {
    match interface_in(b, descriptors_from(b, 0)) {
        Some(interface_number) => Some(
            DfuInfo {
                interface_number,
                transfer_size: transfer_size_in(b, descriptors_from(b, 0)),
            },
        ),
        None => None,
    }
}

/// Finds the DFU interface and its transfer size in the bytes of a
/// configuration descriptor.
pub fn parse_dfu_info(config_bytes: &[u8]) -> (r: Option<DfuInfo>)
    ensures
        r == dfu_info_of(config_bytes@),
{
    let ghost b = config_bytes@;
    let ghost all = descriptors_from(b, 0);
    let ghost mut seen: Seq<int> = Seq::empty();
    let n: usize = config_bytes.len();
    let mut i: usize = 0;
    let mut dfu_iface: Option<u8> = None;
    let mut transfer_size: u16 = DEFAULT_TRANSFER_SIZE;
    let mut more = n > 1;
    assert(all =~= seen + descriptors_from(b, 0));
    while more
        invariant
            b == config_bytes@,
            n == b.len(),
            all == descriptors_from(b, 0),
            more ==> i + 1 < n,
            more ==> all == seen + descriptors_from(b, i as int),
            !more ==> all == seen,
            dfu_iface == interface_in(b, seen),
            transfer_size == transfer_size_in(b, seen),
        decreases
                if more {
                    n - i
                } else {
                    0
                },
    {
        let len: usize = config_bytes[i] as usize;
        let typ: u8 = config_bytes[i + 1];
        if len < 2 {
            more = false;
            assert(all =~= seen);
        } else {
            let ghost here = seen.push(i as int);
            assert(here.drop_last() =~= seen);
            assert(all =~= here + descriptors_from(b, i + len));
            if typ == INTERFACE_DESC_TYPE && n - i > 8 {
                if config_bytes[i + 5] == DFU_CLASS && config_bytes[i + 6] == DFU_SUBCLASS {
                    dfu_iface = Some(config_bytes[i + 2]);
                }
            } else if typ == DFU_FUNCTIONAL_DESC_TYPE && n - i > 6 {
                transfer_size = read_le16(config_bytes, i + 5);
            }
            proof {
                seen = here;
            }
            if n - i > len && n - i - len > 1 {
                i = i + len;
            } else {
                more = false;
                assert(all =~= seen);
            }
        }
    }
    match dfu_iface {
        Some(interface_number) => Some(DfuInfo { interface_number, transfer_size }),
        None => None,
    }
}

/// Why a firmware download failed.
#[derive(Debug, Clone, Copy, PartialEq, Eq, Structural)]
pub enum DfuError {
    /// The device has no DFU interface.
    NoInterface,
    /// The device takes no bytes per block.
    NoTransferSize,
    /// The status reply is too short; holds its length.
    ShortStatus(usize),
    /// The device reports an error.
    Status { status: u8, state: u8 },
    /// The device is in the wrong state after the last, empty block.
    ManifestState(u8),
    /// The device is in the wrong state after a block.
    BlockState { state: u8, block: u16 },
}

/// The message of a download error.
pub open spec fn dfu_error_text(e: DfuError) -> Seq<char> {
    match e {
        DfuError::NoInterface => "DFU interface / functional descriptor not found"@,
        DfuError::NoTransferSize => "DFU transfer size is zero"@,
        DfuError::ShortStatus(len) => "DFU_GETSTATUS: short response ("@ + decimal(len as nat)
            + " bytes)"@,
        DfuError::Status { status, state } => "DFU error status "@ + decimal(status as nat)
            + " in state "@ + decimal(state as nat),
        DfuError::ManifestState(state) => "DFU unexpected state after manifest: "@ + decimal(
            state as nat,
        ),
        DfuError::BlockState { state, block } => "DFU unexpected state "@ + decimal(state as nat)
            + " after block "@ + decimal(block as nat),
    }
}

impl DfuError {
    /// The error message.
    pub fn to_string(&self) -> (r: String)
        ensures
            r@ == dfu_error_text(*self),
    {
        match *self {
            DfuError::NoInterface => "DFU interface / functional descriptor not found".to_string(),
            DfuError::NoTransferSize => "DFU transfer size is zero".to_string(),
            DfuError::ShortStatus(len) => {
                let mut r = "DFU_GETSTATUS: short response (".to_string();
                push_decimal(&mut r, len as u64);
                r.append(" bytes)");
                r
            },
            DfuError::Status { status, state } => {
                let mut r = "DFU error status ".to_string();
                push_decimal(&mut r, status as u64);
                r.append(" in state ");
                push_decimal(&mut r, state as u64);
                r
            },
            DfuError::ManifestState(state) => {
                let mut r = "DFU unexpected state after manifest: ".to_string();
                push_decimal(&mut r, state as u64);
                r
            },
            DfuError::BlockState { state, block } => {
                let mut r = "DFU unexpected state ".to_string();
                push_decimal(&mut r, state as u64);
                r.append(" after block ");
                push_decimal(&mut r, block as u64);
                r
            },
        }
    }
}

/// What to do after a status reply.
#[derive(Debug, Clone, Copy, PartialEq, Eq, Structural)]
pub enum DfuStep {
    /// Wait this long and send the next block.
    Continue { wait_ms: u32 },
    /// The firmware is complete and manifested.
    Done,
    /// The download has failed.
    Failed(DfuError),
}

/// A firmware download under way.
#[derive(Debug, Clone, Copy, PartialEq, Eq, Structural)]
pub struct DfuDownload {
    pub info: DfuInfo,
    /// Number of bytes that the device has taken.
    pub offset: usize,
    /// Number of the current block.
    pub block: u16,
}

/// The lesser of two numbers.
pub open spec fn min(a: int, b: int) -> int {
    if a < b {
        a
    } else {
        b
    }
}

/// The number of firmware bytes in the current block.
pub open spec fn chunk_len(d: DfuDownload, firmware: Seq<u8>) -> int {
    min(firmware.len() - d.offset, d.info.transfer_size as int)
}

/// The firmware bytes in the current block.
pub open spec fn chunk_of(d: DfuDownload, firmware: Seq<u8>) -> Seq<u8> {
    firmware.subrange(d.offset as int, d.offset + chunk_len(d, firmware))
}

/// The download after the current block.
pub open spec fn after_block(d: DfuDownload, firmware: Seq<u8>) -> DfuDownload {
    DfuDownload {
        info: d.info,
        offset: (d.offset + chunk_len(d, firmware)) as usize,
        block: ((d.block + 1) % 0x1_0000) as u16,
    }
}

/// What a download does upon the status reply to its current block.
pub open spec fn dfu_next(d: DfuDownload, firmware: Seq<u8>, reply: Seq<u8>) -> (
    DfuDownload,
    DfuStep,
) {
    if reply.len() < 6 {
        (d, DfuStep::Failed(DfuError::ShortStatus(reply.len() as usize)))
    } else if reply[0] != 0 {
        (d, DfuStep::Failed(DfuError::Status { status: reply[0], state: reply[4] }))
    } else if chunk_len(d, firmware) == 0 {
        if reply[4] == DFU_STATE_IDLE {
            (d, DfuStep::Done)
        } else {
            (d, DfuStep::Failed(DfuError::ManifestState(reply[4])))
        }
    } else if reply[4] == DFU_STATE_DNLOAD_IDLE {
        (
            after_block(d, firmware),
            DfuStep::Continue {
                wait_ms: (reply[1] + 0x100 * reply[2] + 0x1_0000 * reply[3]) as u32,
            },
        )
    } else {
        (d, DfuStep::Failed(DfuError::BlockState { state: reply[4], block: d.block }))
    }
}

/// How the download to a device with some configuration descriptor starts. A
/// device that takes no bytes per block cannot be served.
pub open spec fn download_start(config: Seq<u8>) -> Result<DfuDownload, DfuError> {
    match dfu_info_of(config) {
        Some(info) => if info.transfer_size == 0 {
            Err(DfuError::NoTransferSize)
        } else {
            Ok(DfuDownload { info, offset: 0, block: 0 })
        },
        None => Err(DfuError::NoInterface),
    }
}

/// The download can go on: it takes some bytes per block, and no more firmware
/// was taken than there is.
pub open spec fn download_sound(d: DfuDownload, firmware: Seq<u8>) -> bool {
    d.info.transfer_size > 0 && d.offset <= firmware.len()
}

/// Starts a firmware download to the device with the given configuration
/// descriptor.
pub fn dfu_download(config_bytes: &[u8]) -> (r: Result<DfuDownload, DfuError>)
    ensures
        r == download_start(config_bytes@),
        r matches Ok(d) ==> forall|firmware: Seq<u8>| #[trigger] download_sound(d, firmware),
{
    match parse_dfu_info(config_bytes) {
        Some(info) => {
            if info.transfer_size == 0 {
                Err(DfuError::NoTransferSize)
            } else {
                Ok(DfuDownload { info, offset: 0, block: 0 })
            }
        },
        None => Err(DfuError::NoInterface),
    }
}

impl DfuDownload {
    /// The number of firmware bytes in the current block.
    pub fn chunk_size(&self, firmware: &[u8]) -> (r: usize)
        requires
            self.offset <= firmware@.len(),
        ensures
            r == chunk_len(*self, firmware@),
    {
        let left: usize = firmware.len() - self.offset;
        let limit: usize = self.info.transfer_size as usize;
        if left < limit {
            left
        } else {
            limit
        }
    }

    /// The transfer that sends the current block.
    pub fn block_request(&self, firmware: &[u8]) -> (r: ControlWrite)
        requires
            download_sound(*self, firmware@),
        ensures
            r.kind == ControlKind::Class,
            r.target == ControlTarget::Interface,
            r.request == DFU_DNLOAD,
            r.value == self.block,
            r.index == self.info.interface_number,
            r.data@ == chunk_of(*self, firmware@),
            r.timeout_ms == DFU_TIMEOUT_MS,
    {
        let size: usize = self.chunk_size(firmware);
        let mut data: Vec<u8> = Vec::new();
        let mut i: usize = 0;
        while i < size
            invariant
                i <= size,
                self.offset + size <= firmware@.len(),
                data@ == firmware@.subrange(self.offset as int, self.offset + i),
            decreases size - i,
        {
            assert(firmware.len() == firmware@.len());
            data.push(firmware[self.offset + i]);
            i = i + 1;
            assert(data@ =~= firmware@.subrange(self.offset as int, self.offset + i));
        }
        ControlWrite {
            kind: ControlKind::Class,
            target: ControlTarget::Interface,
            request: DFU_DNLOAD,
            value: self.block,
            index: self.info.interface_number as u16,
            data,
            timeout_ms: DFU_TIMEOUT_MS,
        }
    }

    /// The transfer that asks for the status.
    pub fn status_request(&self) -> (r: ControlRead)
        ensures
            r == (ControlRead {
                kind: ControlKind::Class,
                target: ControlTarget::Interface,
                request: DFU_GETSTATUS,
                value: 0,
                index: self.info.interface_number as u16,
                length: 6,
                timeout_ms: DFU_TIMEOUT_MS,
            }),
    {
        ControlRead {
            kind: ControlKind::Class,
            target: ControlTarget::Interface,
            request: DFU_GETSTATUS,
            value: 0,
            index: self.info.interface_number as u16,
            length: 6,
            timeout_ms: DFU_TIMEOUT_MS,
        }
    }

    /// Takes the status reply to the current block and tells what to do next.
    pub fn next(&mut self, firmware: &[u8], reply: &[u8]) -> (r: DfuStep)
        requires
            download_sound(*old(self), firmware@),
        ensures
            (*final(self), r) == dfu_next(*old(self), firmware@, reply@),
            download_sound(*final(self), firmware@),
    {
        if reply.len() < 6 {
            return DfuStep::Failed(DfuError::ShortStatus(reply.len()));
        }
        let status: u8 = reply[0];
        let wait_ms: u32 = reply[1] as u32 + 0x100 * (reply[2] as u32) + 0x1_0000 * (
        reply[3] as u32);
        let state: u8 = reply[4];
        if status != 0 {
            return DfuStep::Failed(DfuError::Status { status, state });
        }
        let size: usize = self.chunk_size(firmware);
        if size == 0 {
            if state != DFU_STATE_IDLE {
                return DfuStep::Failed(DfuError::ManifestState(state));
            }
            return DfuStep::Done;
        }
        if state != DFU_STATE_DNLOAD_IDLE {
            return DfuStep::Failed(DfuError::BlockState { state, block: self.block });
        }
        assert(firmware.len() == firmware@.len());
        self.offset = self.offset + size;
        self.block = if self.block == 0xFFFF {
            0
        } else {
            self.block + 1
        };
        DfuStep::Continue { wait_ms }
    }
}

/// The download after `n` blocks that the device took.
pub open spec fn after_blocks(d: DfuDownload, firmware: Seq<u8>, n: nat) -> DfuDownload
    decreases n,
{
    if n == 0 {
        d
    } else {
        after_block(after_blocks(d, firmware, (n - 1) as nat), firmware)
    }
}

/// All bytes sent in the first `n` blocks.
pub open spec fn sent_in_blocks(d: DfuDownload, firmware: Seq<u8>, n: nat) -> Seq<u8>
    decreases n,
{
    if n == 0 {
        Seq::empty()
    } else {
        sent_in_blocks(d, firmware, (n - 1) as nat) + chunk_of(
            after_blocks(d, firmware, (n - 1) as nat),
            firmware,
        )
    }
}

/// After `n` blocks a download that started at the beginning has sent the first
/// `n` times the transfer size bytes of the firmware, or all of it, in order,
/// and the blocks were numbered from zero, modulo 2^16.
pub proof fn law_blocks_carry_firmware(info: DfuInfo, firmware: Seq<u8>, n: nat)
    requires
        firmware.len() <= usize::MAX,
    ensures
        ({
            let start = DfuDownload { info, offset: 0, block: 0 };
            let now = after_blocks(start, firmware, n);
            &&& now.info == info
            &&& now.offset == min(n * info.transfer_size, firmware.len() as int)
            &&& now.block == n % 0x1_0000
            &&& sent_in_blocks(start, firmware, n) == firmware.take(now.offset as int)
        }),
    decreases n,
{
    let start = DfuDownload { info, offset: 0, block: 0 };
    if n == 0 {
        assert(sent_in_blocks(start, firmware, n) =~= firmware.take(0));
    } else {
        let m = (n - 1) as nat;
        law_blocks_carry_firmware(info, firmware, m);
        let before = after_blocks(start, firmware, m);
        let size = info.transfer_size as int;
        assert(n * size == m * size + size) by (nonlinear_arith)
            requires
                n == m + 1,
        ;
        assert(0 <= m * size) by (nonlinear_arith)
            requires
                0 <= size,
        ;
        let now = after_blocks(start, firmware, n);
        assert(now == after_block(before, firmware));
        assert(0 <= before.offset + chunk_len(before, firmware) <= firmware.len());
        assert(now.offset == before.offset + chunk_len(before, firmware));
        assert(now.offset == min(n * size, firmware.len() as int));
        assert(now.block == (before.block + 1) % 0x1_0000);
        assert((m % 0x1_0000 + 1) % 0x1_0000 == n % 0x1_0000);
        assert(sent_in_blocks(start, firmware, n) == sent_in_blocks(start, firmware, m) + chunk_of(
            before,
            firmware,
        ));
        assert(firmware.take(before.offset as int) + chunk_of(before, firmware) =~= firmware.take(
            before.offset + chunk_len(before, firmware),
        ));
    }
}

/// The empty block comes exactly when all firmware has been sent, and not later
/// than after as many blocks as the firmware has bytes. So a download is done
/// only when the device has taken all of the firmware.
pub proof fn law_download_ends(config: Seq<u8>, firmware: Seq<u8>, n: nat, reply: Seq<u8>)
    requires
        firmware.len() <= usize::MAX,
        download_start(config) is Ok,
    ensures
        ({
            let start = download_start(config).unwrap();
            let now = after_blocks(start, firmware, n);
            &&& chunk_len(now, firmware) == 0 <==> sent_in_blocks(start, firmware, n) == firmware
            &&& n >= firmware.len() ==> chunk_len(now, firmware) == 0
            &&& dfu_next(now, firmware, reply).1 == DfuStep::Done ==> sent_in_blocks(
                start,
                firmware,
                n,
            ) == firmware
        }),
{
    let start = download_start(config).unwrap();
    let info = start.info;
    law_blocks_carry_firmware(info, firmware, n);
    let now = after_blocks(start, firmware, n);
    let size = info.transfer_size as int;
    assert(n * size >= n) by (nonlinear_arith)
        requires
            size >= 1,
    ;
    assert(firmware.take(firmware.len() as int) =~= firmware);
    if now.offset < firmware.len() {
        assert(firmware.take(now.offset as int).len() != firmware.len());
    }
}

/// A download is done only after a status without error in `dfuIDLE`, and goes
/// on only after one in `dfuDNLOAD-IDLE`.
pub proof fn law_only_good_status_goes_on(d: DfuDownload, firmware: Seq<u8>, reply: Seq<u8>)
    ensures
        dfu_next(d, firmware, reply).1 is Failed || (reply.len() >= 6 && reply[0] == 0),
        dfu_next(d, firmware, reply).1 == DfuStep::Done ==> reply[4] == DFU_STATE_IDLE
            && chunk_len(d, firmware) == 0,
        dfu_next(d, firmware, reply).1 is Continue ==> reply[4] == DFU_STATE_DNLOAD_IDLE
            && dfu_next(d, firmware, reply).0 == after_block(d, firmware),
{
}

/// The descriptors of a configuration lie end to end from its start, each as
/// long as its first byte says, up to the first one that is shorter than two
/// bytes or not there.
pub proof fn law_descriptors_lie_end_to_end(b: Seq<u8>, i: int)
    requires
        0 <= i,
    ensures
        ({
            let s = descriptors_from(b, i);
            &&& s.len() == 0 <==> !(i + 1 < b.len() && b[i] >= 2)
            &&& s.len() > 0 ==> s[0] == i
            &&& forall|k: int| 0 <= k < s.len() ==> i <= #[trigger] s[k] < b.len() - 1 && b[s[k]] >= 2
            &&& forall|k: int| 0 < k < s.len() ==> #[trigger] s[k] == s[k - 1] + b[s[k - 1]]
            &&& s.len() > 0 ==> {
                let end = s.last() + b[s.last()];
                end + 1 >= b.len() || b[end] < 2
            }
        }),
    decreases
            if i < b.len() {
                b.len() - i
            } else {
                0
            },
{
    if i + 1 < b.len() && b[i] >= 2 {
        let rest = descriptors_from(b, i + b[i]);
        let s = descriptors_from(b, i);
        law_descriptors_lie_end_to_end(b, i + b[i]);
        assert(s =~= seq![i] + rest);
        assert forall|k: int| 0 < k < s.len() implies #[trigger] s[k] == s[k - 1] + b[s[k - 1]] by {
            assert(s[k] == rest[k - 1]);
            if k > 1 {
                assert(s[k - 1] == rest[k - 2]);
            }
        }
        assert forall|k: int| 0 <= k < s.len() implies i <= #[trigger] s[k] < b.len() - 1 && b[s[k]]
            >= 2 by {
            if k > 0 {
                assert(s[k] == rest[k - 1]);
            }
        }
        if rest.len() > 0 {
            assert(s.last() == rest.last());
        }
    }
}

/// The DFU interface is the last descriptor of type 4 with class `fe` and
/// subclass `01`; its number is byte 2. The transfer size is that in bytes 5
/// and 6 of the last descriptor of type `21`, or 4096 without one.
pub proof fn law_dfu_info(b: Seq<u8>)
    ensures
        ({
            let s = descriptors_from(b, 0);
            match dfu_info_of(b) {
                Some(info) => {
                    &&& exists|k: int|
                        0 <= k < s.len() && b[#[trigger] s[k] + 1] == 0x04 && s[k] + 8 < b.len()
                            && b[s[k] + 5] == 0xFE && b[s[k] + 6] == 0x01 && b[s[k] + 2]
                            == info.interface_number && forall|j: int|
                            k < j < s.len() ==> !(b[#[trigger] s[j] + 1] == 0x04 && s[j] + 8
                                < b.len() && b[s[j] + 5] == 0xFE && b[s[j] + 6] == 0x01)
                    &&& {
                        ||| info.transfer_size == 4096 && forall|j: int|
                            0 <= j < s.len() ==> !(b[#[trigger] s[j] + 1] == 0x21 && s[j] + 6
                                < b.len())
                        ||| exists|k: int|
                            0 <= k < s.len() && b[#[trigger] s[k] + 1] == 0x21 && s[k] + 6 < b.len()
                                && info.transfer_size == b[s[k] + 5] + 256 * b[s[k] + 6]
                                && forall|j: int|
                                k < j < s.len() ==> !(b[#[trigger] s[j] + 1] == 0x21 && s[j] + 6
                                    < b.len())
                    }
                },
                None => forall|j: int|
                    0 <= j < s.len() ==> !(b[#[trigger] s[j] + 1] == 0x04 && s[j] + 8 < b.len()
                        && b[s[j] + 5] == 0xFE && b[s[j] + 6] == 0x01),
            }
        }),
{
    let s = descriptors_from(b, 0);
    law_descriptors_lie_end_to_end(b, 0);
    lemma_last_interface(b, s);
    lemma_last_transfer_size(b, s);
}

proof fn lemma_last_interface(b: Seq<u8>, s: Seq<int>)
    ensures
        match interface_in(b, s) {
            Some(n) => exists|k: int|
                0 <= k < s.len() && is_dfu_interface(b, #[trigger] s[k]) && b[s[k] + 2] == n
                    && forall|j: int| k < j < s.len() ==> !is_dfu_interface(b, #[trigger] s[j]),
            None => forall|j: int| 0 <= j < s.len() ==> !is_dfu_interface(b, #[trigger] s[j]),
        },
    decreases s.len(),
{
    if s.len() > 0 {
        let last = s.len() - 1;
        if is_dfu_interface(b, s.last()) {
            assert(is_dfu_interface(b, s[last]));
        } else {
            let before = s.drop_last();
            lemma_last_interface(b, before);
            assert forall|j: int| 0 <= j < before.len() implies before[j] == #[trigger] s[j] by {}
            if interface_in(b, before) is Some {
                let k = choose|k: int|
                    0 <= k < before.len() && is_dfu_interface(b, #[trigger] before[k]) && b[before[k]
                        + 2] == interface_in(b, before).unwrap() && forall|j: int|
                        k < j < before.len() ==> !is_dfu_interface(b, #[trigger] before[j]);
                assert(is_dfu_interface(b, s[k]));
            }
        }
    }
}

proof fn lemma_last_transfer_size(b: Seq<u8>, s: Seq<int>)
    requires
        forall|k: int| 0 <= k < s.len() ==> 0 <= #[trigger] s[k],
    ensures
        (transfer_size_in(b, s) == 4096 && forall|j: int|
            0 <= j < s.len() ==> !is_functional(b, #[trigger] s[j])) || exists|k: int|
            0 <= k < s.len() && is_functional(b, #[trigger] s[k]) && transfer_size_in(b, s) == b[s[k]
                + 5] + 256 * b[s[k] + 6] && forall|j: int|
                k < j < s.len() ==> !is_functional(b, #[trigger] s[j]),
    decreases s.len(),
{
    if s.len() > 0 {
        let last = s.len() - 1;
        if is_functional(b, s.last()) {
            let p = s[last];
            let pair = b.subrange(p + 5, p + 7);
            crate::bytes::lemma_le_nat_2(pair);
            assert(pair[0] == b[p + 5] && pair[1] == b[p + 6]);
            assert(is_functional(b, s[last]));
        } else {
            let before = s.drop_last();
            assert forall|j: int| 0 <= j < before.len() implies before[j] == #[trigger] s[j] by {}
            assert forall|k: int| 0 <= k < before.len() implies 0 <= #[trigger] before[k] by {
                assert(s[k] >= 0);
            }
            lemma_last_transfer_size(b, before);
            if !(forall|j: int| 0 <= j < before.len() ==> !is_functional(b, #[trigger] before[j])) {
                let k = choose|k: int|
                    0 <= k < before.len() && is_functional(b, #[trigger] before[k])
                        && transfer_size_in(b, before) == b[before[k] + 5] + 256 * b[before[k] + 6]
                        && forall|j: int|
                        k < j < before.len() ==> !is_functional(b, #[trigger] before[j]);
                assert(is_functional(b, s[k]));
            }
        }
    }
}

/// A download starts with block 0 at the first byte of the firmware, for every
/// configuration with a DFU interface and a transfer size above zero.
pub proof fn law_download_start(config: Seq<u8>)
    ensures
        download_start(config) is Ok <==> dfu_info_of(config) is Some && dfu_info_of(
            config,
        ).unwrap().transfer_size > 0,
        download_start(config) == Err::<DfuDownload, DfuError>(DfuError::NoInterface)
            <==> dfu_info_of(config) is None,
        download_start(config) matches Ok(d) ==> d.offset == 0 && d.block == 0 && d.info
            == dfu_info_of(config).unwrap(),
{
}

/// A block carries the firmware from the current offset on: as many bytes as the
/// transfer size allows, or all that are left.
pub proof fn law_block_bytes(d: DfuDownload, firmware: Seq<u8>)
    requires
        d.offset <= firmware.len() <= usize::MAX,
    ensures
        ({
            let left = firmware.len() - d.offset;
            let chunk = chunk_of(d, firmware);
            &&& chunk.len() == if left < d.info.transfer_size {
                left
            } else {
                d.info.transfer_size as int
            }
            &&& chunk_len(d, firmware) == chunk.len()
            &&& forall|i: int|
                0 <= i < chunk.len() ==> (#[trigger] chunk[i]) == firmware[d.offset + i]
            &&& after_block(d, firmware).offset == d.offset + chunk.len()
            &&& after_block(d, firmware).info == d.info
            &&& after_block(d, firmware).block == if d.block == 0xFFFF {
                0
            } else {
                d.block + 1
            }
        }),
{
}

/// A status reply of at least six bytes holds the error in byte 0, the time to
/// wait in bytes 1 to 3 and the state in byte 4. Without an error, state 5 takes
/// a block with data, and state 2 the empty one.
pub proof fn law_status_replies(d: DfuDownload, firmware: Seq<u8>, reply: Seq<u8>)
    requires
        d.offset <= firmware.len() <= usize::MAX,
        d.info.transfer_size > 0,
        reply.len() <= usize::MAX,
    ensures
        ({
            let (e, step) = dfu_next(d, firmware, reply);
            let good = reply.len() >= 6 && reply[0] == 0;
            let empty = d.offset == firmware.len();
            &&& reply.len() < 6 ==> step == DfuStep::Failed(
                DfuError::ShortStatus(reply.len() as usize),
            )
            &&& reply.len() >= 6 && reply[0] != 0 ==> step == DfuStep::Failed(
                DfuError::Status { status: reply[0], state: reply[4] },
            )
            &&& good && empty && reply[4] == 2 ==> step is Done
            &&& good && empty && reply[4] != 2 ==> step == DfuStep::Failed(
                DfuError::ManifestState(reply[4]),
            )
            &&& good && !empty && reply[4] == 5 ==> e == after_block(d, firmware) && step is Continue
                && step->wait_ms == reply[1] + 0x100 * reply[2] + 0x1_0000 * reply[3]
            &&& good && !empty && reply[4] != 5 ==> step == DfuStep::Failed(
                DfuError::BlockState { state: reply[4], block: d.block },
            )
        }),
{
}

/// Download errors say what went wrong.
pub proof fn law_dfu_error_texts(len: usize, status: u8, state: u8, block: u16)
    ensures
        dfu_error_text(DfuError::NoInterface) == "DFU interface / functional descriptor not found"@,
        dfu_error_text(DfuError::NoTransferSize) == "DFU transfer size is zero"@,
        dfu_error_text(DfuError::ShortStatus(len)) == "DFU_GETSTATUS: short response ("@ + numeral(
            len as nat,
            10,
            false,
        ) + " bytes)"@,
        dfu_error_text(DfuError::Status { status, state }) == "DFU error status "@ + numeral(
            status as nat,
            10,
            false,
        ) + " in state "@ + numeral(state as nat, 10, false),
        dfu_error_text(DfuError::ManifestState(state)) == "DFU unexpected state after manifest: "@
            + numeral(state as nat, 10, false),
        dfu_error_text(DfuError::BlockState { state, block }) == "DFU unexpected state "@ + numeral(
            state as nat,
            10,
            false,
        ) + " after block "@ + numeral(block as nat, 10, false),
{
}

/// The requests of the protocol: download is 1, asking for the status is 3, and
/// each may take five seconds.
pub proof fn law_dfu_requests()
    ensures
        DFU_DNLOAD == 1,
        DFU_GETSTATUS == 3,
        DFU_TIMEOUT_MS == 5000,
{
}

} // verus!
