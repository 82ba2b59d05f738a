//! Opening a device, with a firmware download where one is due.

use vstd::prelude::*;

use super::DeviceError;
use crate::usb::{
    app_search, edge_tpus, law_edge_tpu_list, list_devices, open_app_device, AppSearch,
    TransferError, UsbId, APP_SEARCH_ATTEMPTS, DFU_VID,
};

verus! {

/// What the opening of a device is about.
#[derive(Debug, Clone, Copy, PartialEq, Eq, Structural)]
pub enum OpenPhase {
    /// A device that waits for firmware is being opened.
    OpeningDfu,
    /// The firmware is being downloaded.
    Downloading,
    /// The device is being reset.
    Resetting,
    /// The device is searched for in application mode, after this many looks.
    Looking(u32),
    /// A device in application mode is being opened.
    Starting,
    /// Its interface is being claimed.
    Claiming,
    /// The chip is being brought up.
    BringingUp,
    /// The endpoints for events and interrupts are being opened.
    OpeningEndpoints,
    /// The device is ready.
    Ready,
    /// The device could not be opened.
    Failed,
}

/// What to do next in order to open a device.
#[derive(Debug)]
pub enum OpenAction {
    /// Open the device at this position, which waits for firmware.
    OpenDfu(usize),
    /// Download the firmware.
    Download,
    /// Reset the device.
    Reset,
    /// Wait a second and list the connected devices.
    Look,
    /// Open the device at this position, which runs its application firmware.
    OpenApp(usize),
    /// Claim this interface.
    Claim(u8),
    /// Bring the chip up.
    BringUp { is_multi_endpoint: bool },
    /// Open the endpoints for events and interrupts.
    OpenEndpoints,
    /// The device is ready.
    Ready,
    /// The device cannot be opened.
    Fail(DeviceError),
}

/// What became of the last action.
#[derive(Debug)]
pub enum OpenEvent {
    /// It succeeded.
    Done,
    /// The device, the interface or an endpoint could not be had.
    Unavailable,
    /// The firmware download failed, with this message.
    DownloadFailed(String),
    /// These devices are connected.
    Devices(Vec<UsbId>),
    /// A transfer failed while the chip was brought up.
    BusFailed(TransferError),
}

/// Gives up with an error.
pub open spec fn open_failed(e: DeviceError) -> (OpenPhase, OpenAction) {
    (OpenPhase::Failed, OpenAction::Fail(e))
}

/// Whether the first Edge TPU among the connected devices waits for firmware.
pub open spec fn needs_firmware(devices: Seq<UsbId>) -> bool {
    edge_tpus(devices).len() > 0 && devices[edge_tpus(devices)[0] as int].vendor_id == DFU_VID
}

/// How opening begins: with the first Edge TPU among the connected devices.
pub open spec fn open_start(devices: Seq<UsbId>) -> (OpenPhase, OpenAction) {
    if edge_tpus(devices).len() == 0 {
        open_failed(DeviceError::NotFound)
    } else if needs_firmware(devices) {
        (OpenPhase::OpeningDfu, OpenAction::OpenDfu(edge_tpus(devices)[0]))
    } else {
        (OpenPhase::Starting, OpenAction::OpenApp(edge_tpus(devices)[0]))
    }
}

/// What follows an action that succeeded.
pub open spec fn open_done(phase: OpenPhase) -> (OpenPhase, OpenAction) {
    match phase {
        OpenPhase::OpeningDfu => (OpenPhase::Downloading, OpenAction::Download),
        OpenPhase::Downloading => (OpenPhase::Resetting, OpenAction::Reset),
        OpenPhase::Resetting => (OpenPhase::Looking(0), OpenAction::Look),
        OpenPhase::Starting => (OpenPhase::Claiming, OpenAction::Claim(0)),
        OpenPhase::Claiming => (
            OpenPhase::BringingUp,
            OpenAction::BringUp { is_multi_endpoint: false },
        ),
        OpenPhase::BringingUp => (OpenPhase::OpeningEndpoints, OpenAction::OpenEndpoints),
        OpenPhase::OpeningEndpoints => (OpenPhase::Ready, OpenAction::Ready),
        _ => open_failed(DeviceError::NotFound),
    }
}

/// What follows a look at the connected devices.
pub open spec fn open_looked(phase: OpenPhase, devices: Seq<UsbId>) -> (OpenPhase, OpenAction) {
    match phase {
        OpenPhase::Looking(n) => match app_search(n, devices) {
            AppSearch::Found(i) => (OpenPhase::Starting, OpenAction::OpenApp(i)),
            AppSearch::Retry => (OpenPhase::Looking((n + 1) as u32), OpenAction::Look),
            AppSearch::GiveUp => open_failed(DeviceError::NotFound),
        },
        _ => open_failed(DeviceError::NotFound),
    }
}

/// What follows an event: the next phase and what to do next. A failed reset
/// does not matter.
pub open spec fn open_next(phase: OpenPhase, event: OpenEvent) -> (OpenPhase, OpenAction) {
    match event {
        OpenEvent::Done => open_done(phase),
        OpenEvent::Unavailable => if phase is Resetting {
            open_done(phase)
        } else {
            open_failed(DeviceError::NotFound)
        },
        OpenEvent::DownloadFailed(message) => open_failed(DeviceError::Dfu(message)),
        OpenEvent::Devices(devices) => open_looked(phase, devices@),
        OpenEvent::BusFailed(e) => open_failed(DeviceError::Usb(e)),
    }
}

/// Whether an event can come in a phase.
pub open spec fn open_answers(phase: OpenPhase, event: OpenEvent) -> bool {
    match phase {
        OpenPhase::Downloading => event is Done || event is DownloadFailed,
        OpenPhase::Looking(_) => event is Devices,
        OpenPhase::BringingUp => event is Done || event is BusFailed,
        OpenPhase::Ready | OpenPhase::Failed => false,
        _ => event is Done || event is Unavailable,
    }
}

/// The phases that opening can be in.
pub open spec fn open_sound(phase: OpenPhase) -> bool {
    phase matches OpenPhase::Looking(n) ==> n < APP_SEARCH_ATTEMPTS
}

/// A device being opened.
pub struct Opening {
    phase: OpenPhase,
}

impl View for Opening {
    type V = OpenPhase;

    closed spec fn view(&self) -> OpenPhase {
        self.phase
    }
}

/// Begins to open the first Edge TPU among the connected devices.
pub fn open(devices: &[UsbId]) -> (r: (Opening, OpenAction))
    ensures
        (r.0@, r.1) == open_start(devices@),
        open_sound(r.0@),
{
    let found: Vec<usize> = list_devices(devices);
    assert(devices.len() == devices@.len());
    proof {
        law_edge_tpu_list(devices@);
    }
    if found.len() == 0 {
        return (Opening { phase: OpenPhase::Failed }, OpenAction::Fail(DeviceError::NotFound));
    }
    let first: usize = found[0];
    if devices[first].vendor_id == DFU_VID {
        (Opening { phase: OpenPhase::OpeningDfu }, OpenAction::OpenDfu(first))
    } else {
        (Opening { phase: OpenPhase::Starting }, OpenAction::OpenApp(first))
    }
}

impl Opening {
    fn fail(&mut self, e: DeviceError) -> (r: OpenAction)
        ensures
            (final(self)@, r) == open_failed(e),
    {
        self.phase = OpenPhase::Failed;
        OpenAction::Fail(e)
    }

    fn proceed(&mut self) -> (r: OpenAction)
        ensures
            (final(self)@, r) == open_done(old(self)@),
    {
        match self.phase {
            OpenPhase::OpeningDfu => {
                self.phase = OpenPhase::Downloading;
                OpenAction::Download
            },
            OpenPhase::Downloading => {
                self.phase = OpenPhase::Resetting;
                OpenAction::Reset
            },
            OpenPhase::Resetting => {
                self.phase = OpenPhase::Looking(0);
                OpenAction::Look
            },
            OpenPhase::Starting => {
                self.phase = OpenPhase::Claiming;
                OpenAction::Claim(0)
            },
            OpenPhase::Claiming => {
                self.phase = OpenPhase::BringingUp;
                OpenAction::BringUp { is_multi_endpoint: false }
            },
            OpenPhase::BringingUp => {
                self.phase = OpenPhase::OpeningEndpoints;
                OpenAction::OpenEndpoints
            },
            OpenPhase::OpeningEndpoints => {
                self.phase = OpenPhase::Ready;
                OpenAction::Ready
            },
            _ => self.fail(DeviceError::NotFound),
        }
    }

    /// Takes what became of the last action and tells what to do next.
    pub fn next(&mut self, event: OpenEvent) -> (r: OpenAction)
        requires
            open_sound(old(self)@),
            open_answers(old(self)@, event),
        ensures
            (final(self)@, r) == open_next(old(self)@, event),
            open_sound(final(self)@),
    {
        match event {
            OpenEvent::Done => self.proceed(),
            OpenEvent::Unavailable => match self.phase {
                OpenPhase::Resetting => self.proceed(),
                _ => self.fail(DeviceError::NotFound),
            },
            OpenEvent::DownloadFailed(message) => self.fail(DeviceError::Dfu(message)),
            OpenEvent::Devices(devices) => match self.phase {
                OpenPhase::Looking(n) => match open_app_device(n, devices.as_slice()) {
                    AppSearch::Found(i) => {
                        self.phase = OpenPhase::Starting;
                        OpenAction::OpenApp(i)
                    },
                    AppSearch::Retry => {
                        self.phase = OpenPhase::Looking(n + 1);
                        OpenAction::Look
                    },
                    AppSearch::GiveUp => self.fail(DeviceError::NotFound),
                },
                _ => self.fail(DeviceError::NotFound),
            },
            OpenEvent::BusFailed(e) => self.fail(DeviceError::Usb(e)),
        }
    }
}

/// The phase of opening after some events.
pub open spec fn open_phase(devices: Seq<UsbId>, events: Seq<OpenEvent>) -> OpenPhase
    decreases events.len(),
{
    if events.len() == 0 {
        open_start(devices).0
    } else {
        open_next(open_phase(devices, events.drop_last()), events.last()).0
    }
}

/// Each event can come when it does.
pub open spec fn open_proper(devices: Seq<UsbId>, events: Seq<OpenEvent>) -> bool
    decreases events.len(),
{
    events.len() > 0 ==> open_proper(devices, events.drop_last()) && open_answers(
        open_phase(devices, events.drop_last()),
        events.last(),
    )
}

/// How many more events opening can take.
spec fn open_rank(phase: OpenPhase) -> int {
    match phase {
        OpenPhase::OpeningDfu => 17,
        OpenPhase::Downloading => 16,
        OpenPhase::Resetting => 15,
        OpenPhase::Looking(n) => 14 - n,
        OpenPhase::Starting => 4,
        OpenPhase::Claiming => 3,
        OpenPhase::BringingUp => 2,
        OpenPhase::OpeningEndpoints => 1,
        OpenPhase::Ready | OpenPhase::Failed => 0,
    }
}

/// What the events so far tell about the phase.
spec fn open_history(devices: Seq<UsbId>, events: Seq<OpenEvent>) -> bool {
    let phase = open_phase(devices, events);
    &&& open_sound(phase)
    &&& 0 <= open_rank(phase)
    &&& open_rank(phase) + events.len() <= 17
    &&& phase is Failed || if needs_firmware(devices) {
        &&& events.len() == 0 ==> phase is OpeningDfu
        &&& events.len() == 1 ==> phase is Downloading
        &&& events.len() == 2 ==> phase is Resetting
        &&& events.len() >= 3 ==> !(phase is OpeningDfu || phase is Downloading
            || phase is Resetting)
        &&& events.len() == 3 ==> phase is Looking
        &&& events.len() >= 1 ==> events[0] is Done
        &&& events.len() >= 2 ==> events[1] is Done
    } else {
        open_rank(phase) + events.len() == 4
    }
}

proof fn lemma_open_history(devices: Seq<UsbId>, events: Seq<OpenEvent>)
    requires
        open_proper(devices, events),
    ensures
        open_history(devices, events),
    decreases events.len(),
{
    if events.len() > 0 {
        let before = events.drop_last();
        lemma_open_history(devices, before);
        if before.len() >= 1 {
            assert(before[0] == events[0]);
        }
        if before.len() >= 2 {
            assert(before[1] == events[1]);
        }
    }
}

/// However device and host behave, opening ends: it looks for the application
/// device at most ten times.
pub proof fn law_open_is_bounded(devices: Seq<UsbId>, events: Seq<OpenEvent>)
    requires
        open_proper(devices, events),
    ensures
        events.len() <= 17,
{
    lemma_open_history(devices, events);
}

/// A device is ready only after it was opened, its interface was claimed, the
/// chip was brought up and the endpoints were opened, all with success.
pub proof fn law_ready_means_brought_up(devices: Seq<UsbId>, events: Seq<OpenEvent>)
    requires
        open_proper(devices, events),
        open_phase(devices, events) is Ready,
    ensures
        ({
            let n = events.len() as int;
            &&& n >= 4
            &&& open_phase(devices, events.take(n - 4)) is Starting && events[n - 4] is Done
            &&& open_phase(devices, events.take(n - 3)) is Claiming && events[n - 3] is Done
            &&& open_phase(devices, events.take(n - 2)) is BringingUp && events[n - 2] is Done
            &&& open_phase(devices, events.take(n - 1)) is OpeningEndpoints && events[n - 1] is Done
        }),
{
    let n = events.len() as int;
    assert(events.drop_last() =~= events.take(n - 1));
    assert(events.take(n - 1).drop_last() =~= events.take(n - 2));
    assert(events.take(n - 2).drop_last() =~= events.take(n - 3));
    assert(events.take(n - 3).drop_last() =~= events.take(n - 4));
}

/// The firmware is downloaded exactly when the first device waits for it: then
/// it was downloaded with success before the device is ready, and otherwise the
/// device is ready without any download.
pub proof fn law_firmware_where_due(devices: Seq<UsbId>, events: Seq<OpenEvent>)
    requires
        open_proper(devices, events),
    ensures
        open_phase(devices, events) is Downloading ==> needs_firmware(devices),
        open_phase(devices, events) is Ready && needs_firmware(devices) ==> events.len() >= 8
            && open_phase(devices, events.take(1)) is Downloading && events[1] is Done,
        open_phase(devices, events) is Ready && !needs_firmware(devices) ==> events.len() == 4,
{
    lemma_open_history(devices, events);
    if open_phase(devices, events) is Ready && needs_firmware(devices) {
        law_ready_means_brought_up(devices, events);
        let n = events.len() as int;
        lemma_open_prefix(devices, events, n - 4);
        lemma_open_history(devices, events.take(n - 4));
        lemma_open_prefix(devices, events, 1);
        lemma_open_history(devices, events.take(1));
        assert(events.take(1)[0] == events[0]);
    }
}

proof fn lemma_open_prefix(devices: Seq<UsbId>, events: Seq<OpenEvent>, n: int)
    requires
        open_proper(devices, events),
        0 <= n <= events.len(),
    ensures
        open_proper(devices, events.take(n)),
        n < events.len() ==> !(open_phase(devices, events.take(n)) is Failed),
    decreases events.len() - n,
{
    if n == events.len() {
        assert(events.take(n) =~= events);
    } else {
        lemma_open_prefix(devices, events, n + 1);
        assert(events.take(n + 1).drop_last() =~= events.take(n));
    }
}

/// The first Edge TPU among the connected devices is opened: for a firmware
/// download if its vendor is `1a6e`, and as it is otherwise. Without any Edge
/// TPU there is nothing to open.
pub proof fn law_open_begins(devices: Seq<UsbId>, i: int)
    requires
        devices.len() <= usize::MAX,
    ensures
        ({
            let found = |k: int|
                (devices[k].vendor_id == 0x18D1 && devices[k].product_id == 0x9302) || (
                devices[k].vendor_id == 0x1A6E && devices[k].product_id == 0x089A);
            let (phase, action) = open_start(devices);
            &&& (forall|k: int| 0 <= k < devices.len() ==> !#[trigger] found(k)) ==> phase is Failed
                && action == OpenAction::Fail(DeviceError::NotFound)
            &&& 0 <= i < devices.len() && found(i) && (forall|k: int|
                0 <= k < i ==> !#[trigger] found(k)) ==> if devices[i].vendor_id == 0x1A6E {
                phase is OpeningDfu && action == OpenAction::OpenDfu(i as usize)
            } else {
                phase is Starting && action == OpenAction::OpenApp(i as usize)
            }
        }),
{
    let found = |k: int|
        (devices[k].vendor_id == 0x18D1 && devices[k].product_id == 0x9302) || (
        devices[k].vendor_id == 0x1A6E && devices[k].product_id == 0x089A);
    law_edge_tpu_list(devices);
    let list = edge_tpus(devices);
    if list.len() > 0 {
        let first = list[0] as int;
        assert(found(first));
    }
    if 0 <= i < devices.len() && found(i) {
        assert(crate::usb::is_edge_tpu(devices[i]));
    }
}

/// What follows when an action succeeds: after the firmware a reset and a look
/// for the device; after the device its interface 0, bring-up with a single
/// bulk-out endpoint and the endpoints.
pub proof fn law_open_steps()
    ensures
        open_next(OpenPhase::OpeningDfu, OpenEvent::Done) == (
            OpenPhase::Downloading,
            OpenAction::Download,
        ),
        open_next(OpenPhase::Downloading, OpenEvent::Done) == (
            OpenPhase::Resetting,
            OpenAction::Reset,
        ),
        open_next(OpenPhase::Resetting, OpenEvent::Done) == (
            OpenPhase::Looking(0),
            OpenAction::Look,
        ),
        open_next(OpenPhase::Starting, OpenEvent::Done) == (
            OpenPhase::Claiming,
            OpenAction::Claim(0),
        ),
        open_next(OpenPhase::Claiming, OpenEvent::Done) == (
            OpenPhase::BringingUp,
            OpenAction::BringUp { is_multi_endpoint: false },
        ),
        open_next(OpenPhase::BringingUp, OpenEvent::Done) == (
            OpenPhase::OpeningEndpoints,
            OpenAction::OpenEndpoints,
        ),
        open_next(OpenPhase::OpeningEndpoints, OpenEvent::Done) == (
            OpenPhase::Ready,
            OpenAction::Ready,
        ),
{
}

/// What follows when an action fails. A device, an interface or an endpoint
/// that cannot be had was not found, whatever it is for, but a failed reset
/// makes no difference; errors of the download and of the bus are kept.
pub proof fn law_open_failures(phase: OpenPhase, message: String, e: TransferError)
    ensures
        !(phase is Resetting) ==> open_next(phase, OpenEvent::Unavailable) == (
            OpenPhase::Failed,
            OpenAction::Fail(DeviceError::NotFound),
        ),
        open_next(OpenPhase::Resetting, OpenEvent::Unavailable) == (
            OpenPhase::Looking(0),
            OpenAction::Look,
        ),
        open_next(phase, OpenEvent::DownloadFailed(message)) == (
            OpenPhase::Failed,
            OpenAction::Fail(DeviceError::Dfu(message)),
        ),
        open_next(phase, OpenEvent::BusFailed(e)) == (
            OpenPhase::Failed,
            OpenAction::Fail(DeviceError::Usb(e)),
        ),
{
}

/// A look opens the first device that is connected as `18d1:9302`. Without one
/// there is another look, up to the tenth.
pub proof fn law_open_looks(n: u32, devices: Vec<UsbId>)
    requires
        n < 10,
        devices@.len() <= usize::MAX,
    ensures
        ({
            let (phase, action) = open_next(OpenPhase::Looking(n), OpenEvent::Devices(devices));
            let none = forall|j: int|
                0 <= j < devices@.len() ==> !((#[trigger] devices@[j]).vendor_id == 0x18D1
                    && devices@[j].product_id == 0x9302);
            &&& none && n < 9 ==> phase == OpenPhase::Looking((n + 1) as u32) && action is Look
            &&& none && n == 9 ==> phase is Failed && action == OpenAction::Fail(
                DeviceError::NotFound,
            )
            &&& !none ==> {
                &&& phase is Starting
                &&& action matches OpenAction::OpenApp(i)
                &&& i < devices@.len()
                &&& devices@[i as int].vendor_id == 0x18D1 && devices@[i as int].product_id
                    == 0x9302
                &&& forall|j: int|
                    0 <= j < i ==> !((#[trigger] devices@[j]).vendor_id == 0x18D1
                        && devices@[j].product_id == 0x9302)
            }
        }),
{
    crate::usb::law_app_search(n, devices@);
}

/// Which events can come: a list of devices after a look, a failed download
/// after a download, a failed bus after bring-up, and otherwise success, or
/// that something could not be had.
pub proof fn law_open_takes_events(phase: OpenPhase, event: OpenEvent)
    ensures
        open_answers(phase, event) <==> match event {
            OpenEvent::Done => !(phase is Looking || phase is Ready || phase is Failed),
            OpenEvent::Unavailable => phase is OpeningDfu || phase is Resetting || phase is Starting
                || phase is Claiming || phase is OpeningEndpoints,
            OpenEvent::DownloadFailed(_) => phase is Downloading,
            OpenEvent::Devices(_) => phase is Looking,
            OpenEvent::BusFailed(_) => phase is BringingUp,
        },
{
}

} // verus!
