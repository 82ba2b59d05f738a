//! USB side of the runtime: device identification, control and bulk transfers.
//!
//! Nothing here talks to a device. The functions say which transfer to make
//! and what its reply means.

pub mod dfu;
pub mod registers;
pub mod transfer;

use vstd::prelude::*;

use crate::text::{decimal, numeral, push_decimal};

verus! {

/// Vendor of an Edge TPU that runs its application firmware.
pub const APP_VID: u16 = 0x18D1;

/// Product of an Edge TPU that runs its application firmware.
pub const APP_PID: u16 = 0x9302;

/// Vendor of an Edge TPU that waits for firmware.
pub const DFU_VID: u16 = 0x1A6E;

/// Product of an Edge TPU that waits for firmware.
pub const DFU_PID: u16 = 0x089A;

/// How often the search for an application-mode device looks.
pub const APP_SEARCH_ATTEMPTS: u32 = 10;

/// How a USB transfer can fail.
#[derive(Debug, Clone, Copy, PartialEq, Eq, Structural)]
pub enum TransferError {
    /// Cancelled or timed out.
    Cancelled,
    /// Endpoint in a STALL condition.
    Stall,
    /// Device disconnected.
    Disconnected,
    /// Hardware issue or protocol violation.
    Fault,
    /// Invalid or unsupported argument.
    InvalidArgument,
    /// Any other error, with its code.
    Unknown(u32),
}

/// The short name of a transfer error.
pub open spec fn transfer_error_text(e: TransferError) -> Seq<char> {
    match e {
        TransferError::Cancelled => "Cancelled"@,
        TransferError::Stall => "Stall"@,
        TransferError::Disconnected => "Disconnected"@,
        TransferError::Fault => "Fault"@,
        TransferError::InvalidArgument => "InvalidArgument"@,
        TransferError::Unknown(code) => "Unknown("@ + decimal(code as nat) + ")"@,
    }
}

impl TransferError {
    /// The short name.
    pub fn to_string(&self) -> (r: String)
        ensures
            r@ == transfer_error_text(*self),
    {
        match *self {
            TransferError::Cancelled => "Cancelled".to_string(),
            TransferError::Stall => "Stall".to_string(),
            TransferError::Disconnected => "Disconnected".to_string(),
            TransferError::Fault => "Fault".to_string(),
            TransferError::InvalidArgument => "InvalidArgument".to_string(),
            TransferError::Unknown(code) => {
                let mut r = "Unknown(".to_string();
                push_decimal(&mut r, code as u64);
                r.append(")");
                r
            },
        }
    }
}

/// The vendor and product of one connected USB device.
#[derive(Debug, Clone, Copy, PartialEq, Eq, Structural)]
pub struct UsbId {
    pub vendor_id: u16,
    pub product_id: u16,
}

/// Whether the identifiers are those of an Edge TPU.
pub open spec fn is_edge_tpu(id: UsbId) -> bool {
    ||| id.vendor_id == APP_VID && id.product_id == APP_PID
    ||| id.vendor_id == DFU_VID && id.product_id == DFU_PID
}

/// The positions of the Edge TPUs in a list of devices, in order.
pub open spec fn edge_tpus(devices: Seq<UsbId>) -> Seq<usize>
    decreases devices.len(),
{
    if devices.len() == 0 {
        Seq::empty()
    } else if is_edge_tpu(devices.last()) {
        edge_tpus(devices.drop_last()).push((devices.len() - 1) as usize)
    } else {
        edge_tpus(devices.drop_last())
    }
}

/// `r` is the first position in `devices` at which `wanted` holds, or `None`
/// when there is none.
pub open spec fn is_first(devices: Seq<UsbId>, wanted: spec_fn(UsbId) -> bool, r: Option<usize>) -> bool {
    match r {
        Some(i) => {
            &&& i < devices.len()
            &&& wanted(devices[i as int])
            &&& forall|j: int| 0 <= j < i ==> !wanted(#[trigger] devices[j])
        },
        None => forall|j: int| 0 <= j < devices.len() ==> !wanted(#[trigger] devices[j]),
    }
}

impl UsbId {
    /// Whether the identifiers are those of an Edge TPU.
    pub fn is_edge_tpu(&self) -> (r: bool)
        ensures
            r == is_edge_tpu(*self),
    {
        (self.vendor_id == APP_VID && self.product_id == APP_PID) || (self.vendor_id == DFU_VID
            && self.product_id == DFU_PID)
    }
}

/// Picks the Edge TPUs out of all connected devices: their positions, in order.
pub fn list_devices(devices: &[UsbId]) -> (r: Vec<usize>)
    ensures
        r@ == edge_tpus(devices@),
{
    let mut r: Vec<usize> = Vec::new();
    let mut i: usize = 0;
    assert(devices@.take(0) =~= Seq::empty());
    while i < devices.len()
        invariant
            i <= devices@.len(),
            r@ == edge_tpus(devices@.take(i as int)),
        decreases devices@.len() - i,
    {
        assert(devices@.take(i + 1).drop_last() =~= devices@.take(i as int));
        if devices[i].is_edge_tpu() {
            r.push(i);
        }
        i = i + 1;
    }
    assert(devices@.take(i as int) =~= devices@);
    r
}

/// What the search for an application-mode device does after one look.
#[derive(Debug, Clone, Copy, PartialEq, Eq, Structural)]
pub enum AppSearch {
    /// The device at this position is the one.
    Found(usize),
    /// Wait a second and look again.
    Retry,
    /// There is no such device.
    GiveUp,
}

/// Whether a device is an Edge TPU in application mode, by its vendor.
pub open spec fn is_app_device(id: UsbId) -> bool {
    is_edge_tpu(id) && id.vendor_id == APP_VID
}

/// The position of the first Edge TPU in application mode.
pub open spec fn first_app(devices: Seq<UsbId>) -> Option<usize>
    decreases devices.len(),
{
    if devices.len() == 0 {
        None
    } else {
        match first_app(devices.drop_last()) {
            Some(i) => Some(i),
            None => if is_app_device(devices.last()) {
                Some((devices.len() - 1) as usize)
            } else {
                None
            },
        }
    }
}

/// What one look of the search for an application-mode device leads to, when
/// there were `attempt` looks before it.
pub open spec fn app_search(attempt: u32, devices: Seq<UsbId>) -> AppSearch {
    match first_app(devices) {
        Some(i) => AppSearch::Found(i),
        None => if attempt + 1 < APP_SEARCH_ATTEMPTS {
            AppSearch::Retry
        } else {
            AppSearch::GiveUp
        },
    }
}

/// What is found in a prefix is found in the whole list.
proof fn lemma_first_app_prefix(devices: Seq<UsbId>, n: int)
    requires
        0 <= n <= devices.len(),
        first_app(devices.take(n)) is Some,
    ensures
        first_app(devices) == first_app(devices.take(n)),
    decreases devices.len() - n,
{
    if n == devices.len() {
        assert(devices.take(n) =~= devices);
    } else {
        assert(devices.take(n + 1).drop_last() =~= devices.take(n));
        lemma_first_app_prefix(devices, n + 1);
    }
}

/// Judges one look of the search for an application-mode device: `devices` are
/// the connected devices and `attempt` counts the looks before this one.
pub fn open_app_device(attempt: u32, devices: &[UsbId]) -> (r: AppSearch)
    ensures
        r == app_search(attempt, devices@),
        match r {
            AppSearch::Found(i) => is_first(devices@, |d: UsbId| is_app_device(d), Some(i)),
            AppSearch::Retry => {
                &&& is_first(devices@, |d: UsbId| is_app_device(d), None)
                &&& attempt + 1 < APP_SEARCH_ATTEMPTS
            },
            AppSearch::GiveUp => {
                &&& is_first(devices@, |d: UsbId| is_app_device(d), None)
                &&& attempt + 1 >= APP_SEARCH_ATTEMPTS
            },
        },
{
    let mut i: usize = 0;
    assert(devices@.take(0) =~= Seq::empty());
    while i < devices.len()
        invariant
            i <= devices@.len(),
            forall|j: int| 0 <= j < i ==> !is_app_device(#[trigger] devices@[j]),
            first_app(devices@.take(i as int)) is None,
        decreases devices@.len() - i,
    {
        assert(devices@.take(i + 1).drop_last() =~= devices@.take(i as int));
        if devices[i].is_edge_tpu() && devices[i].vendor_id == APP_VID {
            proof {
                lemma_first_app_prefix(devices@, i + 1);
            }
            return AppSearch::Found(i);
        }
        i = i + 1;
    }
    assert(devices@.take(i as int) =~= devices@);
    if attempt < APP_SEARCH_ATTEMPTS - 1 {
        AppSearch::Retry
    } else {
        AppSearch::GiveUp
    }
}

/// The list of Edge TPUs holds their positions in ascending order and leaves
/// none out.
pub proof fn law_edge_tpu_list(devices: Seq<UsbId>)
    requires
        devices.len() <= usize::MAX,
    ensures
        forall|k: int|
            0 <= k < edge_tpus(devices).len() ==> #[trigger] edge_tpus(devices)[k] < devices.len()
                && is_edge_tpu(devices[edge_tpus(devices)[k] as int]),
        forall|j: int, k: int|
            0 <= j < k < edge_tpus(devices).len() ==> #[trigger] edge_tpus(devices)[j]
                < #[trigger] edge_tpus(devices)[k],
        forall|i: int|
            0 <= i < devices.len() && is_edge_tpu(#[trigger] devices[i]) ==> edge_tpus(
                devices,
            ).contains(i as usize),
    decreases devices.len(),
{
    if devices.len() > 0 {
        let before = devices.drop_last();
        law_edge_tpu_list(before);
        let e = edge_tpus(devices);
        let b = edge_tpus(before);
        assert forall|k: int| 0 <= k < e.len() implies #[trigger] e[k] < devices.len()
            && is_edge_tpu(devices[e[k] as int]) by {
            if k < b.len() {
                assert(e[k] == b[k]);
                assert(before[b[k] as int] == devices[b[k] as int]);
            }
        }
        assert forall|i: int| 0 <= i < devices.len() && is_edge_tpu(
            #[trigger] devices[i],
        ) implies e.contains(i as usize) by {
            if i < before.len() {
                assert(before[i] == devices[i]);
                let k = choose|k: int| 0 <= k < b.len() && b[k] == i as usize;
                assert(e[k] == i as usize);
            } else {
                assert(e[e.len() - 1] == i as usize);
            }
        }
    }
}

/// The Edge TPUs are the devices `18d1:9302`, in application mode, and
/// `1a6e:089a`, which wait for firmware.
pub proof fn law_edge_tpu_ids(id: UsbId)
    ensures
        is_edge_tpu(id) <==> (id.vendor_id == 0x18D1 && id.product_id == 0x9302) || (id.vendor_id
            == 0x1A6E && id.product_id == 0x089A),
        is_app_device(id) <==> id.vendor_id == 0x18D1 && id.product_id == 0x9302,
        id.vendor_id == DFU_VID <==> id.vendor_id == 0x1A6E,
{
}

/// One look of the search for an application-mode device finds the first one
/// that is connected. Without one there are ten looks in all.
pub proof fn law_app_search(attempt: u32, devices: Seq<UsbId>)
    requires
        devices.len() <= usize::MAX,
    ensures
        match app_search(attempt, devices) {
            AppSearch::Found(i) => {
                &&& i < devices.len()
                &&& devices[i as int].vendor_id == 0x18D1 && devices[i as int].product_id == 0x9302
                &&& forall|j: int|
                    0 <= j < i ==> !((#[trigger] devices[j]).vendor_id == 0x18D1
                        && devices[j].product_id == 0x9302)
            },
            AppSearch::Retry => {
                &&& attempt < 9
                &&& forall|j: int|
                    0 <= j < devices.len() ==> !((#[trigger] devices[j]).vendor_id == 0x18D1
                        && devices[j].product_id == 0x9302)
            },
            AppSearch::GiveUp => {
                &&& attempt >= 9
                &&& forall|j: int|
                    0 <= j < devices.len() ==> !((#[trigger] devices[j]).vendor_id == 0x18D1
                        && devices[j].product_id == 0x9302)
            },
        },
{
    lemma_first_app(devices);
}

proof fn lemma_first_app(devices: Seq<UsbId>)
    requires
        devices.len() <= usize::MAX,
    ensures
        match first_app(devices) {
            Some(i) => {
                &&& i < devices.len()
                &&& is_app_device(devices[i as int])
                &&& forall|j: int| 0 <= j < i ==> !is_app_device(#[trigger] devices[j])
            },
            None => forall|j: int| 0 <= j < devices.len() ==> !is_app_device(#[trigger] devices[j]),
        },
    decreases devices.len(),
{
    if devices.len() > 0 {
        let before = devices.drop_last();
        lemma_first_app(before);
        assert forall|j: int| 0 <= j < before.len() implies before[j] == #[trigger] devices[j] by {}
    }
}

/// Transfer errors are shown by their names.
pub proof fn law_transfer_error_texts(code: u32)
    ensures
        transfer_error_text(TransferError::Cancelled) == "Cancelled"@,
        transfer_error_text(TransferError::Stall) == "Stall"@,
        transfer_error_text(TransferError::Disconnected) == "Disconnected"@,
        transfer_error_text(TransferError::Fault) == "Fault"@,
        transfer_error_text(TransferError::InvalidArgument) == "InvalidArgument"@,
        transfer_error_text(TransferError::Unknown(code)) == "Unknown("@ + numeral(
            code as nat,
            10,
            false,
        ) + ")"@,
{
}

/// The first wanted device is wanted, and no device before it is. There is none
/// only where no device is wanted.
pub proof fn law_first_wanted(
    devices: Seq<UsbId>,
    wanted: spec_fn(UsbId) -> bool,
    r: Option<usize>,
    j: int,
)
    requires
        is_first(devices, wanted, r),
        0 <= j < devices.len(),
    ensures
        match r {
            Some(i) => i < devices.len() && wanted(devices[i as int]) && (wanted(devices[j]) ==> i
                <= j),
            None => !wanted(devices[j]),
        },
{
}

} // verus!
