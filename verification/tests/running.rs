use std::sync::Arc;

use reef_infer::model::{
    ChunkInfo, Description, ExecInfo, ExecutableType, LayerInfo, OffsetInfo, Position,
    TfliteModel,
};
use reef_infer::runner::inference::{run_inference, Inference, InferenceAction};
use reef_infer::runner::opening::{open, OpenAction, OpenEvent, Opening};
use reef_infer::runner::upload::{check_output, load_params, UploadAction};
use reef_infer::runner::{
    layers_size, quantize, DeviceError, LoadedParams, QuantizedByte, Reply,
};
use reef_infer::usb::{TransferError, UsbId, APP_PID, APP_VID, DFU_PID, DFU_VID};

fn layer(name: &str, size_bytes: i32, zero_point: i32) -> LayerInfo {
    LayerInfo {
        name: name.to_string(),
        size_bytes,
        zero_point,
        dequantization_bits: 0.5f32.to_bits(),
    }
}

fn chunk(fields: Vec<(i32, Description, &str)>) -> ChunkInfo {
    ChunkInfo {
        bitstream: vec![0xee; 16],
        field_offsets: fields
            .into_iter()
            .map(|(offset_bit, desc, name)| OffsetInfo {
                offset_bit,
                desc,
                position: Position::Lower32Bit,
                name: name.to_string(),
            })
            .collect(),
    }
}

fn caching() -> ExecInfo {
    ExecInfo {
        exec_type: ExecutableType::ParameterCaching,
        parameters: vec![1, 2, 3, 4],
        instruction_chunks: vec![
            chunk(vec![(0, Description::BaseAddressParameter, "")]),
            chunk(vec![(32, Description::BaseAddressInputActivation, "in")]),
        ],
        input_layers: vec![],
        output_layers: vec![],
        scratch_size_bytes: 0,
    }
}

fn execution(exec_type: ExecutableType, parameters: Vec<u8>) -> ExecInfo {
    ExecInfo {
        exec_type,
        parameters,
        instruction_chunks: vec![chunk(vec![
            (0, Description::BaseAddressParameter, ""),
            (32, Description::BaseAddressInputActivation, "in"),
            (64, Description::BaseAddressOutputActivation, "a"),
            (96, Description::BaseAddressOutputActivation, "b"),
        ])],
        input_layers: vec![layer("in", 2, 3)],
        output_layers: vec![layer("a", 3, 10), layer("b", 8, -20)],
        scratch_size_bytes: 0,
    }
}

fn model(executables: Vec<ExecInfo>) -> Arc<TfliteModel> {
    Arc::new(TfliteModel { executables })
}

fn loaded(executables: Vec<ExecInfo>) -> LoadedParams {
    let mut loader = load_params(model(executables)).ok().unwrap();
    let mut action = loader.start();
    let mut tag = 2;
    loop {
        action = match action {
            UploadAction::SendInstructions(_) => loader.next(Reply::Sent),
            UploadAction::SendParameters => {
                tag = 4;
                loader.next(Reply::Sent)
            }
            UploadAction::Wait => loader.next(event(tag, 0, 0)),
            UploadAction::Done => return loader.finish(),
            UploadAction::Fail(e) => panic!("{}", e.to_string()),
        };
    }
}

fn event(tag: u8, address: u64, length: u32) -> Reply {
    let mut b = Vec::new();
    b.extend_from_slice(&address.to_le_bytes());
    b.extend_from_slice(&length.to_le_bytes());
    b.extend_from_slice(&[tag, 0, 0, 0]);
    Reply::Event(b)
}

fn words(bytes: &[u8]) -> Vec<u32> {
    bytes.chunks(4).map(|b| u32::from_le_bytes([b[0], b[1], b[2], b[3]])).collect()
}

const APP: UsbId = UsbId { vendor_id: APP_VID, product_id: APP_PID };
const DFU: UsbId = UsbId { vendor_id: DFU_VID, product_id: DFU_PID };
const OTHER: UsbId = UsbId { vendor_id: 1, product_id: 2 };

#[test]
fn opens_the_first_edge_tpu() {
    let (mut o, action) = open(&[OTHER, APP, DFU]);
    assert!(matches!(action, OpenAction::OpenApp(1)));
    assert!(matches!(o.next(OpenEvent::Done), OpenAction::Claim(0)));
    assert!(matches!(
        o.next(OpenEvent::Done),
        OpenAction::BringUp { is_multi_endpoint: false }
    ));
    assert!(matches!(o.next(OpenEvent::Done), OpenAction::OpenEndpoints));
    assert!(matches!(o.next(OpenEvent::Done), OpenAction::Ready));
}

#[test]
fn needs_an_edge_tpu() {
    assert!(matches!(open(&[OTHER]).1, OpenAction::Fail(DeviceError::NotFound)));
    assert!(matches!(open(&[]).1, OpenAction::Fail(DeviceError::NotFound)));
}

/// A device that was given its firmware and is searched for.
fn looking() -> Opening {
    let (mut o, action) = open(&[DFU, APP]);
    assert!(matches!(action, OpenAction::OpenDfu(0)));
    assert!(matches!(o.next(OpenEvent::Done), OpenAction::Download));
    assert!(matches!(o.next(OpenEvent::Done), OpenAction::Reset));
    assert!(matches!(o.next(OpenEvent::Unavailable), OpenAction::Look));
    o
}

#[test]
fn downloads_firmware_where_due() {
    let mut o = looking();
    for _ in 0..9 {
        assert!(matches!(o.next(OpenEvent::Devices(vec![DFU])), OpenAction::Look));
    }
    let action = o.next(OpenEvent::Devices(vec![OTHER, APP]));
    assert!(matches!(action, OpenAction::OpenApp(1)));
    let mut o = looking();
    for _ in 0..9 {
        o.next(OpenEvent::Devices(vec![]));
    }
    let action = o.next(OpenEvent::Devices(vec![DFU]));
    assert!(matches!(action, OpenAction::Fail(DeviceError::NotFound)));
}

#[test]
fn opening_reports_faults() {
    let (mut o, _) = open(&[DFU]);
    o.next(OpenEvent::Done);
    match o.next(OpenEvent::DownloadFailed("no luck".to_string())) {
        OpenAction::Fail(e) => assert_eq!(e.to_string(), "DFU error: no luck"),
        other => panic!("unexpected action {other:?}"),
    }
    let (mut o, _) = open(&[DFU]);
    let action = o.next(OpenEvent::Unavailable);
    assert!(matches!(action, OpenAction::Fail(DeviceError::NotFound)));
    for good in [0, 1, 3] {
        let (mut o, _) = open(&[APP]);
        for _ in 0..good {
            o.next(OpenEvent::Done);
        }
        let action = o.next(OpenEvent::Unavailable);
        assert!(matches!(action, OpenAction::Fail(DeviceError::NotFound)));
    }
    let (mut o, _) = open(&[APP]);
    o.next(OpenEvent::Done);
    o.next(OpenEvent::Done);
    assert!(matches!(
        o.next(OpenEvent::BusFailed(TransferError::Stall)),
        OpenAction::Fail(DeviceError::Usb(TransferError::Stall))
    ));
}

#[test]
fn names_device_errors() {
    assert_eq!(DeviceError::NotFound.to_string(), "no Edge TPU device found");
    assert_eq!(DeviceError::from(TransferError::Stall).to_string(), "USB error: Stall");
    assert_eq!(DeviceError::Dfu("x".to_string()).to_string(), "DFU error: x");
    assert_eq!(DeviceError::NoExecutable.to_string(), "model has no runnable executable");
    assert_eq!(DeviceError::Protocol.to_string(), "unexpected response from TPU");
    assert_eq!(DeviceError::Timeout.to_string(), "TPU did not respond in time");
    assert_eq!(DeviceError::NoOutput.to_string(), "inference produced no output");
}

#[test]
fn loading_needs_a_runnable_executable() {
    assert!(matches!(load_params(model(vec![])), Err(DeviceError::NoExecutable)));
    assert!(matches!(load_params(model(vec![caching()])), Err(DeviceError::NoExecutable)));
}

#[test]
fn standalone_models_need_no_upload() {
    let mut loader =
        load_params(model(vec![execution(ExecutableType::StandAlone, vec![])])).ok().unwrap();
    assert!(loader.params().is_empty());
    assert!(loader.check_chunks());
    assert!(loader.instructions(0x1000).is_empty());
    assert!(matches!(loader.start(), UploadAction::Done));
    assert_eq!(loader.finish().output_size, 11);
}

#[test]
fn uploads_weights_on_request() {
    let mut loader = load_params(model(vec![
        execution(ExecutableType::ExecutionOnly, vec![]),
        caching(),
    ]))
    .ok()
    .unwrap();
    assert_eq!(loader.params(), &vec![1, 2, 3, 4]);
    assert!(loader.check_chunks());
    let instructions = loader.instructions(0x7700_1000);
    assert_eq!(instructions.len(), 2);
    assert_eq!(words(&instructions[0]), vec![0x7700_1000, 0xeeee_eeee, 0xeeee_eeee, 0xeeee_eeee]);
    assert_eq!(words(&instructions[1]), vec![0xeeee_eeee, 0, 0xeeee_eeee, 0xeeee_eeee]);
    assert!(matches!(loader.start(), UploadAction::SendInstructions(0)));
    assert!(matches!(loader.next(Reply::Sent), UploadAction::SendInstructions(1)));
    assert!(matches!(loader.next(Reply::Sent), UploadAction::Wait));
    assert!(matches!(loader.next(event(4, 0, 0)), UploadAction::Wait));
    assert!(matches!(loader.next(event(2, 0, 0)), UploadAction::SendParameters));
    assert!(matches!(loader.next(Reply::Sent), UploadAction::Wait));
    assert!(matches!(loader.next(event(3, 0, 0)), UploadAction::Wait));
    assert!(matches!(loader.next(event(7, 0, 0)), UploadAction::Done));
    let loaded = loader.finish();
    assert_eq!(loaded.params_buf, vec![1, 2, 3, 4]);
    assert_eq!(loaded.output_size, 11);
}

#[test]
fn an_upload_waits_twenty_times() {
    let mut loader =
        load_params(model(vec![caching(), execution(ExecutableType::StandAlone, vec![])]))
            .ok()
            .unwrap();
    loader.start();
    loader.next(Reply::Sent);
    let mut action = loader.next(Reply::Sent);
    for _ in 0..20 {
        assert!(matches!(action, UploadAction::Wait));
        action = loader.next(Reply::Interrupt);
    }
    assert!(matches!(action, UploadAction::Fail(DeviceError::Timeout)));
}

#[test]
fn an_upload_needs_a_completion_event() {
    let mut loader =
        load_params(model(vec![caching(), execution(ExecutableType::StandAlone, vec![])]))
            .ok()
            .unwrap();
    loader.start();
    loader.next(Reply::Sent);
    loader.next(Reply::Sent);
    for _ in 0..18 {
        assert!(matches!(loader.next(event(5, 0, 0)), UploadAction::Wait));
    }
    assert!(matches!(loader.next(event(2, 0, 0)), UploadAction::SendParameters));
    assert!(matches!(loader.next(Reply::Sent), UploadAction::Wait));
    assert!(matches!(
        loader.next(event(1, 0, 0)),
        UploadAction::Fail(DeviceError::Timeout)
    ));
}

#[test]
fn output_sizes_must_fit() {
    let mut huge = execution(ExecutableType::StandAlone, vec![]);
    huge.output_layers = vec![layer("a", -1, 0), layer("b", 1, 0)];
    assert!(!check_output(&model(vec![huge])));
    assert!(check_output(&model(vec![caching()])));
}

#[test]
fn an_upload_reports_faults() {
    let waiting = || {
        let mut loader =
            load_params(model(vec![caching(), execution(ExecutableType::StandAlone, vec![])]))
                .ok()
                .unwrap();
        loader.start();
        loader.next(Reply::Sent);
        loader.next(Reply::Sent);
        loader
    };
    assert!(matches!(waiting().next(Reply::TimedOut), UploadAction::Fail(DeviceError::Timeout)));
    assert!(matches!(
        waiting().next(Reply::Event(vec![0; 12])),
        UploadAction::Fail(DeviceError::Protocol)
    ));
    assert!(matches!(
        waiting().next(Reply::Failed(TransferError::Disconnected)),
        UploadAction::Fail(DeviceError::Usb(TransferError::Disconnected))
    ));
}

#[test]
fn knows_the_quantization_of_the_first_layers() {
    let l = loaded(vec![execution(ExecutableType::StandAlone, vec![])]);
    assert_eq!(l.input_quant(), (0.5f32.to_bits(), 3));
    assert_eq!(l.output_quant(), (0.5f32.to_bits(), 10));
    assert_eq!(l.output_len(), 3);
    assert_eq!(l.execution().exec_type, ExecutableType::StandAlone);
}

#[test]
fn the_first_runnable_executable_runs() {
    let mut second = execution(ExecutableType::ExecutionOnly, vec![]);
    second.output_layers = vec![];
    let l = loaded(vec![caching(), second, execution(ExecutableType::StandAlone, vec![])]);
    assert_eq!(l.execution().exec_type, ExecutableType::ExecutionOnly);
    assert_eq!(l.output_size, 8);
}

#[test]
fn dequantizes_layer_by_layer() {
    let l = loaded(vec![execution(ExecutableType::StandAlone, vec![])]);
    let q = l.dequantize_output(&[1, 2, 3, 4, 5]);
    let scale_bits = 0.5f32.to_bits();
    assert_eq!(
        q,
        vec![
            QuantizedByte { value: 1, zero_point: 10, scale_bits },
            QuantizedByte { value: 2, zero_point: 10, scale_bits },
            QuantizedByte { value: 3, zero_point: 10, scale_bits },
            QuantizedByte { value: 4, zero_point: -20, scale_bits },
            QuantizedByte { value: 5, zero_point: -20, scale_bits },
        ]
    );
    assert_eq!(l.dequantize_output(&[9; 20]).len(), 11);
    assert_eq!(l.dequantize_output(&[]).len(), 0);
}

#[test]
fn quantized_values_are_clamped() {
    assert_eq!(quantize(5, 3), 8);
    assert_eq!(quantize(-5, 3), 0);
    assert_eq!(quantize(300, -10), 255);
    assert_eq!(quantize(-128, 128), 0);
    assert_eq!(quantize(127, 128), 255);
    assert_eq!(quantize(i32::MAX, 128), 255);
    assert_eq!(quantize(i32::MIN, -1), 0);
}

#[test]
fn sums_layer_sizes() {
    assert_eq!(layers_size(&vec![layer("a", 3, 0), layer("b", 8, 0)]), Some(11));
    assert_eq!(layers_size(&vec![]), Some(0));
    assert_eq!(layers_size(&vec![layer("a", -1, 0)]), Some(usize::MAX));
    assert_eq!(layers_size(&vec![layer("a", -1, 0), layer("b", 1, 0)]), None);
    assert_eq!(layer("a", i32::MIN, 0).size(), i32::MIN as isize as usize);
}

#[test]
fn output_layers_lie_end_to_end() {
    let l = loaded(vec![execution(ExecutableType::StandAlone, vec![])]);
    let addresses = l.output_addresses(0x4000);
    assert_eq!(addresses.get("a"), Some(&0x4000));
    assert_eq!(addresses.get("b"), Some(&0x4003));
    assert_eq!(addresses.get("c"), None);
    let mut twins = execution(ExecutableType::StandAlone, vec![]);
    twins.output_layers = vec![layer("a", 3, 0), layer("a", 8, 0)];
    assert_eq!(loaded(vec![twins]).output_addresses(0).get("a"), Some(&3));
}

#[test]
fn patches_the_buffers_of_an_inference() {
    let l = loaded(vec![execution(ExecutableType::StandAlone, vec![])]);
    assert!(l.execution().check_chunks());
    let instructions = l.exec_instructions(0x1000, 0x2000, 0x3000);
    assert_eq!(instructions.len(), 1);
    assert_eq!(words(&instructions[0]), vec![0x1000, 0x2000, 0x3000, 0x3003]);
    let mut broken = execution(ExecutableType::StandAlone, vec![]);
    broken.instruction_chunks.push(chunk(vec![(97, Description::BaseAddressScratch, "")]));
    assert!(!broken.check_chunks());
}

#[test]
fn serves_own_parameters_or_the_weights() {
    let l = loaded(vec![caching(), execution(ExecutableType::ExecutionOnly, vec![])]);
    assert_eq!(l.exec_params(), &vec![1, 2, 3, 4]);
    let l = loaded(vec![caching(), execution(ExecutableType::ExecutionOnly, vec![9])]);
    assert_eq!(l.exec_params(), &vec![9]);
}

/// An inference that waits for its first event.
fn waiting(l: &LoadedParams, params_addr: u64) -> Inference {
    let (mut inference, action) = run_inference(l, params_addr);
    assert!(matches!(action, InferenceAction::SendInstructions(0)));
    assert!(matches!(inference.next(Reply::Sent), InferenceAction::Wait));
    inference
}

#[test]
fn runs_an_inference() {
    let l = loaded(vec![execution(ExecutableType::StandAlone, vec![0; 100])]);
    let mut i = waiting(&l, 0x5000);
    assert!(matches!(i.next(event(1, 0, 0)), InferenceAction::SendInput));
    assert!(matches!(i.next(Reply::Sent), InferenceAction::Wait));
    assert!(matches!(
        i.next(event(2, 0x5010, 20)),
        InferenceAction::SendParameters { start: 16, end: 36 }
    ));
    assert!(matches!(i.next(Reply::Sent), InferenceAction::Wait));
    assert!(matches!(i.next(event(3, 0, 3)), InferenceAction::Receive(3)));
    assert!(matches!(i.next(Reply::Received(vec![7, 8, 9])), InferenceAction::Wait));
    assert!(matches!(i.next(event(4, 0, 0)), InferenceAction::Wait));
    assert!(matches!(i.next(Reply::Interrupt), InferenceAction::Wait));
    assert!(matches!(i.next(event(0, 0, 0)), InferenceAction::Wait));
    assert!(matches!(i.next(event(3, 0, 8)), InferenceAction::Receive(8)));
    match i.next(Reply::Received(vec![1, 2])) {
        InferenceAction::Finish(out) => assert_eq!(out, vec![7, 8, 9, 1, 2]),
        other => panic!("unexpected action {other:?}"),
    }
}

#[test]
fn parameter_requests_stay_in_range() {
    let l = loaded(vec![execution(ExecutableType::StandAlone, vec![0; 100])]);
    for (address, length) in [(0x5000, 101), (0x4fff, 1), (0x5064, 1), (0, 8), (u64::MAX, 2)] {
        assert!(matches!(
            waiting(&l, 0x5000).next(event(2, address, length)),
            InferenceAction::Fail(DeviceError::Protocol)
        ));
    }
    assert!(matches!(
        waiting(&l, 0x5000).next(event(2, 0x5000, 100)),
        InferenceAction::SendParameters { start: 0, end: 100 }
    ));
    assert!(matches!(
        waiting(&l, 0x5000).next(event(2, 0x5064, 0)),
        InferenceAction::SendParameters { start: 100, end: 100 }
    ));
}

#[test]
fn an_inference_waits_thirty_times() {
    let l = loaded(vec![execution(ExecutableType::StandAlone, vec![])]);
    let mut i = waiting(&l, 0);
    for _ in 0..29 {
        assert!(matches!(i.next(Reply::Interrupt), InferenceAction::Wait));
    }
    assert!(matches!(
        i.next(Reply::Interrupt),
        InferenceAction::Fail(DeviceError::NoOutput)
    ));
    let mut i = waiting(&l, 0);
    i.next(event(3, 0, 1));
    i.next(Reply::Received(vec![42]));
    for _ in 0..28 {
        assert!(matches!(i.next(Reply::Interrupt), InferenceAction::Wait));
    }
    assert!(matches!(
        i.next(Reply::Interrupt),
        InferenceAction::Fail(DeviceError::Timeout)
    ));
}

#[test]
fn an_inference_without_output_layers_expects_one_chunk() {
    let mut e = execution(ExecutableType::StandAlone, vec![]);
    e.output_layers = vec![];
    e.instruction_chunks = vec![];
    let l = loaded(vec![e]);
    let (mut i, action) = run_inference(&l, 0);
    assert!(matches!(action, InferenceAction::Wait));
    i.next(event(3, 0, 2));
    match i.next(Reply::Received(vec![5, 6])) {
        InferenceAction::Finish(out) => assert_eq!(out, vec![5, 6]),
        other => panic!("unexpected action {other:?}"),
    }
}

#[test]
fn an_inference_reports_faults() {
    let l = loaded(vec![execution(ExecutableType::StandAlone, vec![])]);
    assert!(matches!(
        waiting(&l, 0).next(Reply::TimedOut),
        InferenceAction::Fail(DeviceError::Timeout)
    ));
    assert!(matches!(
        waiting(&l, 0).next(Reply::Event(vec![])),
        InferenceAction::Fail(DeviceError::Protocol)
    ));
    let mut i = waiting(&l, 0);
    i.next(event(3, 0, 8));
    assert!(matches!(
        i.next(Reply::Failed(TransferError::Fault)),
        InferenceAction::Fail(DeviceError::Usb(TransferError::Fault))
    ));
}
