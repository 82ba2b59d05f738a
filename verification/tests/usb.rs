use reef_infer::usb::dfu::{dfu_download, parse_dfu_info, DfuError, DfuInfo, DfuStep};
use reef_infer::usb::registers::{
    extract_field, poll_field, poll_register, read_register32, read_register64, register32_value,
    register64_value, write_register32, write_register64, ControlKind, ControlTarget, PollStep,
};
use reef_infer::usb::transfer::{
    bulk_recv, bulk_request_len, interrupt_status, read_event, single_ep_send, DescriptorTag,
    TpuEvent,
};
use reef_infer::usb::{
    list_devices, open_app_device, AppSearch, TransferError, UsbId, APP_PID, APP_VID, DFU_PID,
    DFU_VID,
};

const APP: UsbId = UsbId { vendor_id: APP_VID, product_id: APP_PID };
const DFU: UsbId = UsbId { vendor_id: DFU_VID, product_id: DFU_PID };
const MOUSE: UsbId = UsbId { vendor_id: 0x046d, product_id: 0xc077 };

#[test]
fn lists_only_edge_tpus() {
    assert_eq!(list_devices(&[MOUSE, DFU, MOUSE, APP]), vec![1, 3]);
    assert_eq!(list_devices(&[]), Vec::<usize>::new());
    let mixed = UsbId { vendor_id: APP_VID, product_id: DFU_PID };
    assert_eq!(list_devices(&[mixed]), Vec::<usize>::new());
}

#[test]
fn searches_for_an_application_device_ten_times() {
    assert_eq!(open_app_device(0, &[DFU, APP, APP]), AppSearch::Found(1));
    assert_eq!(open_app_device(9, &[APP]), AppSearch::Found(0));
    assert_eq!(open_app_device(8, &[DFU]), AppSearch::Retry);
    assert_eq!(open_app_device(9, &[DFU]), AppSearch::GiveUp);
}

#[test]
fn names_transfer_errors() {
    assert_eq!(TransferError::Cancelled.to_string(), "Cancelled");
    assert_eq!(TransferError::Stall.to_string(), "Stall");
    assert_eq!(TransferError::Disconnected.to_string(), "Disconnected");
    assert_eq!(TransferError::Fault.to_string(), "Fault");
    assert_eq!(TransferError::InvalidArgument.to_string(), "InvalidArgument");
    assert_eq!(TransferError::Unknown(71).to_string(), "Unknown(71)");
}

#[test]
fn register_reads_split_the_offset() {
    let r = read_register32(0x0001_a30c);
    assert_eq!(r.kind, ControlKind::Vendor);
    assert_eq!(r.target, ControlTarget::Device);
    assert_eq!((r.request, r.value, r.index, r.length), (1, 0xa30c, 1, 4));
    assert_eq!(r.timeout_ms, 1000);
    let r = read_register64(0x0004_4018);
    assert_eq!((r.request, r.value, r.index, r.length), (0, 0x4018, 4, 8));
}

#[test]
fn register_writes_are_little_endian() {
    let w = write_register32(0x0001_a30c, 0x1234_5678);
    assert_eq!((w.request, w.value, w.index), (1, 0xa30c, 1));
    assert_eq!(w.data, vec![0x78, 0x56, 0x34, 0x12]);
    let w = write_register64(0x0004_4018, 0x0102_0304_0506_0708);
    assert_eq!((w.request, w.value, w.index), (0, 0x4018, 4));
    assert_eq!(w.data, vec![8, 7, 6, 5, 4, 3, 2, 1]);
    assert_eq!((w.kind, w.target, w.timeout_ms), (ControlKind::Vendor, ControlTarget::Device, 1000));
}

#[test]
fn register_replies_need_their_exact_length() {
    assert_eq!(register32_value(&[0x78, 0x56, 0x34, 0x12]), Ok(0x1234_5678));
    assert_eq!(register32_value(&[1, 2, 3]), Err(TransferError::Unknown(0)));
    assert_eq!(register64_value(&[8, 7, 6, 5, 4, 3, 2, 1]), Ok(0x0102_0304_0506_0708));
    assert_eq!(register64_value(&[0; 9]), Err(TransferError::Unknown(0)));
}

#[test]
fn extracts_register_fields() {
    assert_eq!(extract_field(0x0008_0000, 18, 3), 2);
    assert_eq!(extract_field(0xffff_ffff, 31, 7), 1);
}

#[test]
fn polls_until_the_value_shows() {
    let mut p = poll_register(0x100, 5, 3);
    assert_eq!(p.next(None), PollStep::Read(0x100));
    assert_eq!(p.next(Some(Ok(4))), PollStep::Read(0x100));
    assert_eq!(p.next(Some(Ok(5))), PollStep::Done);
    let mut p = poll_field(0x100, 8, 3, 2, 2);
    assert_eq!(p.next(None), PollStep::Read(0x100));
    assert_eq!(p.next(Some(Ok(0x0100))), PollStep::Read(0x100));
    assert_eq!(p.next(Some(Ok(0xfeff))), PollStep::Done);
}

#[test]
fn polls_give_up() {
    let mut p = poll_register(0x100, 5, 2);
    p.next(None);
    p.next(Some(Ok(1)));
    assert_eq!(p.next(Some(Ok(1))), PollStep::Failed(TransferError::Unknown(0)));
    let mut p = poll_field(0x100, 0, 1, 1, 0);
    assert_eq!(p.next(None), PollStep::Failed(TransferError::Unknown(0)));
}

#[test]
fn polls_pass_errors_on() {
    let mut p = poll_register(0x100, 5, 3);
    p.next(None);
    assert_eq!(
        p.next(Some(Err(TransferError::Stall))),
        PollStep::Failed(TransferError::Stall)
    );
}

#[test]
fn headers_tell_length_and_tag() {
    let data = vec![0u8; 0x0102];
    assert_eq!(
        single_ep_send(DescriptorTag::Instructions, &data),
        vec![0x02, 0x01, 0, 0, 0, 0, 0, 0]
    );
    assert_eq!(
        single_ep_send(DescriptorTag::InputActivations, &[1]),
        vec![1, 0, 0, 0, 1, 0, 0, 0]
    );
    assert_eq!(
        single_ep_send(DescriptorTag::Parameters, &[]),
        vec![0, 0, 0, 0, 2, 0, 0, 0]
    );
    assert_eq!(DescriptorTag::OutputActivations.number(), 3);
}

#[test]
fn requests_whole_packets() {
    assert_eq!(bulk_request_len(0), 512);
    assert_eq!(bulk_request_len(1), 512);
    assert_eq!(bulk_request_len(512), 512);
    assert_eq!(bulk_request_len(513), 1024);
}

#[test]
fn trims_received_bytes() {
    assert_eq!(bulk_recv(vec![1, 2, 3, 4], 3), vec![1, 2, 3]);
    assert_eq!(bulk_recv(vec![1, 2], 3), vec![1, 2]);
}

#[test]
fn decodes_events() {
    let mut b = vec![0u8; 16];
    b[0] = 0x10;
    b[7] = 0x80;
    b[8] = 0x34;
    b[9] = 0x12;
    b[12] = 0xf3;
    let event = TpuEvent { device_address: 0x8000_0000_0000_0010, length: 0x1234, tag: 3 };
    assert_eq!(TpuEvent::from_bytes(&b), Some(event));
    assert_eq!(TpuEvent::from_bytes(&b[..13]), Some(event));
    assert_eq!(TpuEvent::from_bytes(&b[..12]), None);
    assert_eq!(read_event(&b), Ok(event));
    assert_eq!(read_event(&[]), Err(TransferError::Unknown(0)));
}

#[test]
fn short_interrupts_read_as_zero() {
    assert_eq!(interrupt_status(&[1, 2, 0, 0, 9]), 0x0201);
    assert_eq!(interrupt_status(&[1, 2, 3]), 0);
}

/// A configuration descriptor, a DFU interface with number 2 and a DFU
/// functional descriptor with a transfer size of 256.
fn config() -> Vec<u8> {
    let mut b = vec![9, 2, 27, 0, 1, 1, 0, 0x80, 50];
    b.extend_from_slice(&[9, 4, 2, 0, 0, 0xFE, 0x01, 2, 0]);
    b.extend_from_slice(&[9, 0x21, 7, 0xff, 0, 0x00, 0x01, 0x10, 1]);
    b
}

#[test]
fn finds_the_dfu_interface() {
    assert_eq!(
        parse_dfu_info(&config()),
        Some(DfuInfo { interface_number: 2, transfer_size: 256 })
    );
    assert_eq!(
        parse_dfu_info(&config()[..18]),
        Some(DfuInfo { interface_number: 2, transfer_size: 4096 })
    );
    assert_eq!(parse_dfu_info(&config()[..9]), None);
    assert_eq!(parse_dfu_info(&[]), None);
    let mut other_class = config();
    other_class[14] = 0x03;
    assert_eq!(parse_dfu_info(&other_class), None);
}

#[test]
fn descriptor_walk_stops_at_a_bad_length() {
    let mut b = vec![1, 0];
    b.extend_from_slice(&config());
    assert_eq!(parse_dfu_info(&b), None);
}

#[test]
fn downloads_firmware_block_by_block() {
    let firmware: Vec<u8> = (0..600).map(|i| i as u8).collect();
    let mut d = dfu_download(&config()).unwrap();
    let mut sent = Vec::new();
    let mut blocks = Vec::new();
    loop {
        let w = d.block_request(&firmware);
        assert_eq!((w.kind, w.target), (ControlKind::Class, ControlTarget::Interface));
        assert_eq!((w.request, w.index, w.timeout_ms), (1, 2, 5000));
        blocks.push((w.value, w.data.len()));
        sent.extend_from_slice(&w.data);
        let r = d.status_request();
        assert_eq!((r.request, r.value, r.index, r.length), (3, 0, 2, 6));
        let state = if w.data.is_empty() { 2 } else { 5 };
        match d.next(&firmware, &[0, 10, 1, 0, state, 0]) {
            DfuStep::Continue { wait_ms } => assert_eq!(wait_ms, 266),
            DfuStep::Done => break,
            DfuStep::Failed(e) => panic!("{}", e.to_string()),
        }
    }
    assert_eq!(sent, firmware);
    assert_eq!(blocks, vec![(0, 256), (1, 256), (2, 88), (3, 0)]);
}

#[test]
fn download_needs_a_dfu_interface() {
    let e = dfu_download(&[]).unwrap_err();
    assert_eq!(e, DfuError::NoInterface);
    assert_eq!(e.to_string(), "DFU interface / functional descriptor not found");
}

#[test]
fn download_needs_a_transfer_size() {
    let mut b = config();
    b[23] = 0;
    b[24] = 0;
    assert_eq!(parse_dfu_info(&b), Some(DfuInfo { interface_number: 2, transfer_size: 0 }));
    let e = dfu_download(&b).unwrap_err();
    assert_eq!(e, DfuError::NoTransferSize);
    assert_eq!(e.to_string(), "DFU transfer size is zero");
}

#[test]
fn empty_firmware_takes_one_empty_block() {
    let mut d = dfu_download(&config()).unwrap();
    assert!(d.block_request(&[]).data.is_empty());
    assert_eq!(d.next(&[], &[0, 0, 0, 0, 2, 0]), DfuStep::Done);
}

#[test]
fn download_rejects_bad_status() {
    let firmware = vec![0u8; 10];
    let failure = |offset_done: bool, reply: &[u8]| {
        let mut d = dfu_download(&config()).unwrap();
        if offset_done {
            d.next(&firmware, &[0, 0, 0, 0, 5, 0]);
        }
        match d.next(&firmware, reply) {
            DfuStep::Failed(e) => e,
            other => panic!("unexpected step {other:?}"),
        }
    };
    let e = failure(false, &[0, 0, 0, 0, 5]);
    assert_eq!(e, DfuError::ShortStatus(5));
    assert_eq!(e.to_string(), "DFU_GETSTATUS: short response (5 bytes)");
    let e = failure(false, &[3, 0, 0, 0, 10, 0]);
    assert_eq!(e, DfuError::Status { status: 3, state: 10 });
    assert_eq!(e.to_string(), "DFU error status 3 in state 10");
    let e = failure(false, &[0, 0, 0, 0, 4, 0]);
    assert_eq!(e, DfuError::BlockState { state: 4, block: 0 });
    assert_eq!(e.to_string(), "DFU unexpected state 4 after block 0");
    let e = failure(true, &[0, 0, 0, 0, 5, 0]);
    assert_eq!(e, DfuError::ManifestState(5));
    assert_eq!(e.to_string(), "DFU unexpected state after manifest: 5");
}
