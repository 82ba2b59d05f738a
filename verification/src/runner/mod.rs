//! Driving the device: uploading weights and running inferences.
//!
//! The waiting and the transfers happen elsewhere. [`opening`], [`upload`] and
//! [`inference`] decide, for each reply that comes in, what to do next.

pub mod inference;
pub mod opening;
pub mod upload;

use std::sync::Arc;
use vstd::hash_map::StringHashMap;
use vstd::prelude::*;

use crate::model::{
    layer_views, ChunkInfo, ChunkView, ExecInfo, ExecView, ExecutableType, LayerInfo, LayerView,
    TfliteModel,
};
use crate::patch::{check_fields, fields_fit, is_patched, patch_chunk, Addresses};
use crate::usb::{transfer_error_text, TransferError};

verus! {

/// Errors of device operations.
#[derive(Debug)]
pub enum DeviceError {
    /// No Edge TPU device found on USB.
    NotFound,
    /// USB or transfer-level error.
    Usb(TransferError),
    /// DFU firmware download failed.
    Dfu(String),
    /// Model contains no runnable executable.
    NoExecutable,
    /// Unexpected or malformed response from the TPU.
    Protocol,
    /// TPU did not respond within the timeout window.
    Timeout,
    /// Inference completed but the TPU produced no output buffer.
    NoOutput,
}

/// The message of a device error.
pub open spec fn device_error_text(e: DeviceError) -> Seq<char> {
    match e {
        DeviceError::NotFound => "no Edge TPU device found"@,
        DeviceError::Usb(e) => "USB error: "@ + transfer_error_text(e),
        DeviceError::Dfu(message) => "DFU error: "@ + message@,
        DeviceError::NoExecutable => "model has no runnable executable"@,
        DeviceError::Protocol => "unexpected response from TPU"@,
        DeviceError::Timeout => "TPU did not respond in time"@,
        DeviceError::NoOutput => "inference produced no output"@,
    }
}

impl DeviceError {
    /// The error message.
    pub fn to_string(&self) -> (r: String)
        ensures
            r@ == device_error_text(*self),
    {
        match self {
            DeviceError::NotFound => "no Edge TPU device found".to_string(),
            DeviceError::Usb(e) => {
                let mut r = "USB error: ".to_string();
                r.append(e.to_string().as_str());
                r
            },
            DeviceError::Dfu(message) => {
                let mut r = "DFU error: ".to_string();
                r.append(message.as_str());
                r
            },
            DeviceError::NoExecutable => "model has no runnable executable".to_string(),
            DeviceError::Protocol => "unexpected response from TPU".to_string(),
            DeviceError::Timeout => "TPU did not respond in time".to_string(),
            DeviceError::NoOutput => "inference produced no output".to_string(),
        }
    }
}

impl From<TransferError> for DeviceError {
    fn from(e: TransferError) -> (r: DeviceError) {
        DeviceError::Usb(e)
    }
}

impl vstd::std_specs::convert::FromSpecImpl<TransferError> for DeviceError {
    open spec fn obeys_from_spec() -> bool {
        true
    }

    open spec fn from_spec(e: TransferError) -> DeviceError {
        DeviceError::Usb(e)
    }
}

/// The reply to the last request of an upload or an inference.
#[derive(Debug)]
pub enum Reply {
    /// The bytes were sent.
    Sent,
    /// An event came in, with these bytes.
    Event(Vec<u8>),
    /// An interrupt came in.
    Interrupt,
    /// Nothing came in for two seconds.
    TimedOut,
    /// Output came in, with these bytes.
    Received(Vec<u8>),
    /// The transfer failed.
    Failed(TransferError),
}

/// Mathematical view of [`Reply`].
pub enum ReplyView {
    Sent,
    Event(Seq<u8>),
    Interrupt,
    TimedOut,
    Received(Seq<u8>),
    Failed(TransferError),
}

impl View for Reply {
    type V = ReplyView;

    open spec fn view(&self) -> ReplyView {
        match *self {
            Reply::Sent => ReplyView::Sent,
            Reply::Event(b) => ReplyView::Event(b@),
            Reply::Interrupt => ReplyView::Interrupt,
            Reply::TimedOut => ReplyView::TimedOut,
            Reply::Received(b) => ReplyView::Received(b@),
            Reply::Failed(e) => ReplyView::Failed(e),
        }
    }
}

/// The size of a layer in bytes. A negative size reads as a `usize` by two's
/// complement.
pub open spec fn layer_size(l: LayerView) -> nat {
    if l.size_bytes >= 0 {
        l.size_bytes as nat
    } else {
        (usize::MAX + 1 + l.size_bytes) as nat
    }
}

/// The size of all layers together.
pub open spec fn total_size(layers: Seq<LayerView>) -> nat
    decreases layers.len(),
{
    if layers.len() == 0 {
        0
    } else {
        total_size(layers.drop_last()) + layer_size(layers.last())
    }
}

/// Where layer `k` starts when the layers lie end to end.
pub open spec fn layer_start(layers: Seq<LayerView>, k: int) -> nat {
    total_size(layers.take(k))
}

/// Layers start in order, and each one ends where the next one starts.
pub proof fn lemma_layer_starts(layers: Seq<LayerView>, j: int, k: int)
    requires
        0 <= j <= k <= layers.len(),
    ensures
        layer_start(layers, j) <= layer_start(layers, k),
        j < k ==> layer_start(layers, j) + layer_size(layers[j]) <= layer_start(layers, k),
        layer_start(layers, layers.len() as int) == total_size(layers),
    decreases k - j,
{
    assert(layers.take(layers.len() as int) =~= layers);
    if j < k {
        lemma_layer_starts(layers, j, k - 1);
        assert(layers.take(k).drop_last() =~= layers.take(k - 1));
        assert(layers.take(k).last() == layers[k - 1]);
    }
}

impl LayerInfo {
    /// The size of the layer in bytes.
    pub fn size(&self) -> (r: usize)
        ensures
            r == layer_size(self@),
    {
        if self.size_bytes >= 0 {
            self.size_bytes as usize
        } else {
            usize::MAX - (-(self.size_bytes + 1)) as usize
        }
    }
}

/// The size of all layers together, or `None` if it exceeds `usize`.
pub fn layers_size(layers: &Vec<LayerInfo>) -> (r: Option<usize>)
    ensures
        match r {
            Some(total) => total == total_size(layer_views(layers@)),
            None => total_size(layer_views(layers@)) > usize::MAX,
        },
{
    let ghost views = layer_views(layers@);
    let mut total: usize = 0;
    let mut i: usize = 0;
    assert(views.take(0) =~= Seq::empty());
    while i < layers.len()
        invariant
            i <= layers@.len(),
            views == layer_views(layers@),
            total == layer_start(views, i as int),
        decreases layers@.len() - i,
    {
        let size: usize = layers[i].size();
        proof {
            assert(views[i as int] == layers@[i as int]@);
            assert(views.take(i + 1).drop_last() =~= views.take(i as int));
            assert(views.take(i + 1).last() == views[i as int]);
            lemma_layer_starts(views, i + 1, views.len() as int);
        }
        match total.checked_add(size) {
            Some(sum) => {
                total = sum;
            },
            None => {
                return None;
            },
        }
        i = i + 1;
    }
    proof {
        lemma_layer_starts(views, i as int, i as int);
    }
    Some(total)
}

/// The output buffer size for some output layers: their total size, but at
/// least eight bytes.
pub open spec fn output_size_of(layers: Seq<LayerView>) -> nat {
    if total_size(layers) < 8 {
        8
    } else {
        total_size(layers)
    }
}

/// An executable that uploads weights.
pub open spec fn is_caching(t: ExecutableType) -> bool {
    t == ExecutableType::ParameterCaching
}

/// An executable that runs inferences.
pub open spec fn is_runnable(t: ExecutableType) -> bool {
    t == ExecutableType::ExecutionOnly || t == ExecutableType::StandAlone
}

/// The position of the first executable of a wanted type.
pub open spec fn first_exec(
    execs: Seq<ExecView>,
    wanted: spec_fn(ExecutableType) -> bool,
) -> Option<nat>
    decreases execs.len(),
{
    if execs.len() == 0 {
        None
    } else {
        match first_exec(execs.drop_last(), wanted) {
            Some(i) => Some(i),
            None => if wanted(execs.last().exec_type) {
                Some((execs.len() - 1) as nat)
            } else {
                None
            },
        }
    }
}

/// The first executable that uploads weights.
pub open spec fn first_caching(execs: Seq<ExecView>) -> Option<nat> {
    first_exec(execs, |t: ExecutableType| is_caching(t))
}

/// The first executable that runs inferences.
pub open spec fn first_runnable(execs: Seq<ExecView>) -> Option<nat> {
    first_exec(execs, |t: ExecutableType| is_runnable(t))
}

/// `first_exec` finds an executable of the wanted type, none before it is of
/// that type, and it finds none only if there is none.
pub proof fn law_first_exec(execs: Seq<ExecView>, wanted: spec_fn(ExecutableType) -> bool)
    ensures
        match first_exec(execs, wanted) {
            Some(i) => {
                &&& i < execs.len()
                &&& wanted(execs[i as int].exec_type)
                &&& forall|j: int| 0 <= j < i ==> !wanted((#[trigger] execs[j]).exec_type)
            },
            None => forall|j: int|
                0 <= j < execs.len() ==> !wanted((#[trigger] execs[j]).exec_type),
        },
    decreases execs.len(),
{
    if execs.len() > 0 {
        let before = execs.drop_last();
        law_first_exec(before, wanted);
        match first_exec(before, wanted) {
            Some(i) => {
                assert forall|j: int| 0 <= j < i implies !wanted(
                    (#[trigger] execs[j]).exec_type,
                ) by {
                    assert(before[j] == execs[j]);
                }
            },
            None => {
                assert forall|j: int| 0 <= j < before.len() implies !wanted(
                    (#[trigger] execs[j]).exec_type,
                ) by {
                    assert(before[j] == execs[j]);
                }
            },
        }
    }
}

/// Finds the first executable that uploads weights.
fn find_caching(model: &TfliteModel) -> (r: Option<usize>)
    ensures
        match r {
            Some(i) => first_caching(model@) == Some(i as nat),
            None => first_caching(model@) is None,
        },
{
    let ghost execs = model@;
    let mut i: usize = 0;
    assert(execs.take(0) =~= Seq::empty());
    while i < model.executables.len()
        invariant
            i <= model.executables@.len(),
            execs == model@,
            first_caching(execs.take(i as int)) is None,
        decreases model.executables@.len() - i,
    {
        assert(execs.take(i + 1).drop_last() =~= execs.take(i as int));
        assert(execs.take(i + 1).last() == model.executables@[i as int]@);
        if model.executables[i].exec_type == ExecutableType::ParameterCaching {
            proof {
                lemma_first_exec_prefix(
                    execs,
                    |t: ExecutableType| is_caching(t),
                    i + 1,
                );
            }
            return Some(i);
        }
        i = i + 1;
    }
    assert(execs.take(i as int) =~= execs);
    None
}

/// Finds the first executable that runs inferences.
fn find_runnable(model: &TfliteModel) -> (r: Option<usize>)
    ensures
        match r {
            Some(i) => first_runnable(model@) == Some(i as nat),
            None => first_runnable(model@) is None,
        },
{
    let ghost execs = model@;
    let mut i: usize = 0;
    assert(execs.take(0) =~= Seq::empty());
    while i < model.executables.len()
        invariant
            i <= model.executables@.len(),
            execs == model@,
            first_runnable(execs.take(i as int)) is None,
        decreases model.executables@.len() - i,
    {
        assert(execs.take(i + 1).drop_last() =~= execs.take(i as int));
        assert(execs.take(i + 1).last() == model.executables@[i as int]@);
        let t = model.executables[i].exec_type;
        if t == ExecutableType::ExecutionOnly || t == ExecutableType::StandAlone {
            proof {
                lemma_first_exec_prefix(
                    execs,
                    |t: ExecutableType| is_runnable(t),
                    i + 1,
                );
            }
            return Some(i);
        }
        i = i + 1;
    }
    assert(execs.take(i as int) =~= execs);
    None
}

/// What is found in a prefix is found in the whole list.
proof fn lemma_first_exec_prefix(
    execs: Seq<ExecView>,
    wanted: spec_fn(ExecutableType) -> bool,
    n: int,
)
    requires
        0 <= n <= execs.len(),
        first_exec(execs.take(n), wanted) is Some,
    ensures
        first_exec(execs, wanted) == first_exec(execs.take(n), wanted),
    decreases execs.len() - n,
{
    if n == execs.len() {
        assert(execs.take(n) =~= execs);
    } else {
        assert(execs.take(n + 1).drop_last() =~= execs.take(n));
        lemma_first_exec_prefix(execs, wanted, n + 1);
    }
}

/// All address fields of all chunks lie within their bitstreams.
pub open spec fn chunks_fit(chunks: Seq<ChunkView>) -> bool {
    forall|i: int| 0 <= i < chunks.len() ==> fields_fit(#[trigger] chunks[i])
}

/// The patched bitstreams of some chunks.
pub open spec fn all_patched(chunks: Seq<ChunkView>, a: Addresses, r: Seq<Vec<u8>>) -> bool {
    &&& r.len() == chunks.len()
    &&& forall|i: int| 0 <= i < r.len() ==> is_patched(chunks[i], a, (#[trigger] r[i])@)
}

impl ExecInfo {
    /// Whether all address fields of the executable lie within their
    /// bitstreams.
    pub fn check_chunks(&self) -> (r: bool)
        ensures
            r == chunks_fit(self@.instruction_chunks),
    {
        let ghost chunks = self@.instruction_chunks;
        let mut i: usize = 0;
        while i < self.instruction_chunks.len()
            invariant
                i <= self.instruction_chunks@.len(),
                chunks == self@.instruction_chunks,
                forall|k: int| 0 <= k < i ==> fields_fit(#[trigger] chunks[k]),
            decreases self.instruction_chunks@.len() - i,
        {
            assert(chunks[i as int] == self.instruction_chunks@[i as int]@);
            if !check_fields(&self.instruction_chunks[i]) {
                return false;
            }
            i = i + 1;
        }
        true
    }
}

/// Patches the addresses into all instruction chunks of an executable.
fn patch_chunks(
    exec: &ExecInfo,
    params_addr: u64,
    input_addr: u64,
    output_addrs: &StringHashMap<u64>,
) -> (r: Vec<Vec<u8>>)
    requires
        chunks_fit(exec@.instruction_chunks),
    ensures
        all_patched(
            exec@.instruction_chunks,
            (Addresses { params: params_addr, input: input_addr, outputs: output_addrs@ }),
            r@,
        ),
{
    let ghost chunks = exec@.instruction_chunks;
    let ghost a = Addresses { params: params_addr, input: input_addr, outputs: output_addrs@ };
    let mut r: Vec<Vec<u8>> = Vec::new();
    let mut i: usize = 0;
    while i < exec.instruction_chunks.len()
        invariant
            i <= exec.instruction_chunks@.len(),
            chunks == exec@.instruction_chunks,
            chunks_fit(chunks),
            a == (Addresses { params: params_addr, input: input_addr, outputs: output_addrs@ }),
            r@.len() == i,
            forall|k: int| 0 <= k < i ==> is_patched(chunks[k], a, (#[trigger] r@[k])@),
        decreases exec.instruction_chunks@.len() - i,
    {
        assert(chunks[i as int] == exec.instruction_chunks@[i as int]@);
        let chunk: &ChunkInfo = &exec.instruction_chunks[i];
        r.push(patch_chunk(chunk, params_addr, input_addr, output_addrs));
        i = i + 1;
    }
    r
}

/// A model and its executable that runs inferences.
pub struct Execution {
    model: Arc<TfliteModel>,
    index: usize,
}

/// Mathematical view of [`Execution`].
pub struct ExecutionView {
    pub executables: Seq<ExecView>,
    /// The position of the executable that runs inferences.
    pub index: nat,
}

impl View for Execution {
    type V = ExecutionView;

    closed spec fn view(&self) -> ExecutionView {
        ExecutionView { executables: (*self.model)@, index: self.index as nat }
    }
}

/// The executable that runs inferences is the first one of its kind in the
/// model, and its output layers have a total size.
pub open spec fn execution_sound(v: ExecutionView) -> bool {
    &&& first_runnable(v.executables) == Some(v.index)
    &&& v.index < v.executables.len()
    &&& total_size(v.executables[v.index as int].output_layers) <= usize::MAX
}

/// A model whose weights are on the device. Keep it across inferences to avoid
/// uploading the weights for every one.
pub struct LoadedParams {
    /// Weight bytes pinned at a stable host address (the TPU reads from here).
    pub params_buf: Vec<u8>,
    /// The model and its executable that runs inferences.
    pub runnable: Execution,
    /// Total output bytes for one inference.
    pub output_size: usize,
}

/// Mathematical view of [`LoadedParams`].
pub struct LoadedView {
    pub params: Seq<u8>,
    pub runnable: ExecutionView,
    pub output_size: usize,
}

impl View for LoadedParams {
    type V = LoadedView;

    open spec fn view(&self) -> LoadedView {
        LoadedView {
            params: self.params_buf@,
            runnable: self.runnable@,
            output_size: self.output_size,
        }
    }
}

/// The weights of the first executable that uploads weights, if there is one.
pub open spec fn cached_params(execs: Seq<ExecView>) -> Seq<u8> {
    match first_caching(execs) {
        Some(i) => execs[i as int].parameters,
        None => Seq::empty(),
    }
}

/// One byte of output with what is needed to turn it into a number.
#[derive(Debug, Clone, Copy, PartialEq, Eq, Structural)]
pub struct QuantizedByte {
    pub value: u8,
    pub zero_point: i32,
    /// Dequantization factor, as the bits of a single-precision number.
    pub scale_bits: u32,
}

/// The layer that holds byte `p` when the layers lie end to end.
pub open spec fn holds_byte(layers: Seq<LayerView>, k: int, p: int) -> bool {
    &&& 0 <= k < layers.len()
    &&& layer_start(layers, k) <= p < layer_start(layers, k + 1)
}

/// The smaller of two numbers.
pub open spec fn smaller(a: nat, b: nat) -> nat {
    if a < b {
        a
    } else {
        b
    }
}

impl LoadedParams {
    /// The executable that runs inferences.
    pub open spec fn execution_view(&self) -> ExecView {
        self.runnable@.executables[self.runnable@.index as int]
    }

    /// The executable that runs inferences is sound.
    pub open spec fn wf(&self) -> bool {
        execution_sound(self.runnable@)
    }

    /// The executable that runs inferences.
    pub fn execution(&self) -> (r: &ExecInfo)
        requires
            self.wf(),
        ensures
            r@ == self.execution_view(),
    {
        &self.runnable.model.executables[self.runnable.index]
    }

    /// Input quantization parameters (bits of the scale, zero point) from the
    /// first input layer.
    pub fn input_quant(&self) -> (r: (u32, i32))
        requires
            self.wf(),
            self.execution_view().input_layers.len() > 0,
        ensures
            r.0 == self.execution_view().input_layers[0].dequantization_bits,
            r.1 == self.execution_view().input_layers[0].zero_point,
    {
        let exec = self.execution();
        assert(exec@.input_layers[0] == exec.input_layers@[0]@);
        let layer: &LayerInfo = &exec.input_layers[0];
        (layer.dequantization_bits, layer.zero_point)
    }

    /// Output quantization parameters (bits of the scale, zero point) from the
    /// first output layer.
    pub fn output_quant(&self) -> (r: (u32, i32))
        requires
            self.wf(),
            self.execution_view().output_layers.len() > 0,
        ensures
            r.0 == self.execution_view().output_layers[0].dequantization_bits,
            r.1 == self.execution_view().output_layers[0].zero_point,
    {
        let exec = self.execution();
        assert(exec@.output_layers[0] == exec.output_layers@[0]@);
        let layer: &LayerInfo = &exec.output_layers[0];
        (layer.dequantization_bits, layer.zero_point)
    }

    /// Number of meaningful output bytes, from the first output layer.
    pub fn output_len(&self) -> (r: usize)
        requires
            self.wf(),
            self.execution_view().output_layers.len() > 0,
        ensures
            r == layer_size(self.execution_view().output_layers[0]),
    {
        let exec = self.execution();
        assert(exec@.output_layers[0] == exec.output_layers@[0]@);
        exec.output_layers[0].size()
    }

    /// Attaches to each raw output byte the quantization parameters of the
    /// output layer that holds it. Bytes behind the last layer are dropped.
    pub fn dequantize_output(&self, raw: &[u8]) -> (r: Vec<QuantizedByte>)
        requires
            self.wf(),
        ensures
            r@.len() == smaller(total_size(self.execution_view().output_layers), raw@.len()),
            forall|p: int, k: int|
                0 <= p < r@.len() && #[trigger] holds_byte(
                    self.execution_view().output_layers,
                    k,
                    p,
                ) ==> r@[p] == (QuantizedByte {
                    value: raw@[p],
                    zero_point: self.execution_view().output_layers[k].zero_point,
                    scale_bits: self.execution_view().output_layers[k].dequantization_bits,
                }),
    {
        let exec = self.execution();
        let ghost layers = exec@.output_layers;
        assert(raw.len() == raw@.len());
        let mut out: Vec<QuantizedByte> = Vec::new();
        let mut i: usize = 0;
        assert(layers.take(0) =~= Seq::empty());
        while i < exec.output_layers.len() && out.len() < raw.len()
            invariant
                i <= exec.output_layers@.len(),
                layers == exec@.output_layers,
                total_size(layers) <= usize::MAX,
                raw.len() == raw@.len(),
                out@.len() == smaller(layer_start(layers, i as int), raw@.len()),
                forall|p: int, k: int|
                    0 <= p < out@.len() && #[trigger] holds_byte(layers, k, p) ==> out@[p] == (
                    QuantizedByte {
                        value: raw@[p],
                        zero_point: layers[k].zero_point,
                        scale_bits: layers[k].dequantization_bits,
                    }),
            decreases exec.output_layers@.len() - i,
        {
            let layer: &LayerInfo = &exec.output_layers[i];
            let ghost start = layer_start(layers, i as int);
            let len: usize = layer.size();
            proof {
                assert(layers[i as int] == layer@);
                assert(layers.take(i + 1).drop_last() =~= layers.take(i as int));
                assert(layers.take(i + 1).last() == layers[i as int]);
                lemma_layer_starts(layers, i + 1, layers.len() as int);
            }
            let offset: usize = out.len();
            let end: usize = if offset + len < raw.len() {
                offset + len
            } else {
                raw.len()
            };
            while out.len() < end
                invariant
                    offset == start,
                    start == layer_start(layers, i as int),
                    offset + len == layer_start(layers, i + 1),
                    offset <= out@.len() <= end,
                    end <= raw@.len(),
                    end <= offset + len,
                    i < layers.len(),
                    layer@ == layers[i as int],
                    raw.len() == raw@.len(),
                    forall|p: int, k: int|
                        0 <= p < out@.len() && #[trigger] holds_byte(layers, k, p) ==> out@[p] == (
                        QuantizedByte {
                            value: raw@[p],
                            zero_point: layers[k].zero_point,
                            scale_bits: layers[k].dequantization_bits,
                        }),
                decreases end - out@.len(),
            {
                let ghost before = out@;
                let q: QuantizedByte = QuantizedByte {
                    value: raw[out.len()],
                    zero_point: layer.zero_point,
                    scale_bits: layer.dequantization_bits,
                };
                out.push(q);
                assert forall|p: int, k: int|
                    0 <= p < out@.len() && #[trigger] holds_byte(layers, k, p) implies out@[p] == (
                QuantizedByte {
                    value: raw@[p],
                    zero_point: layers[k].zero_point,
                    scale_bits: layers[k].dequantization_bits,
                }) by {
                    if p < before.len() {
                        assert(out@[p] == before[p]);
                    } else {
                        lemma_one_layer_per_byte(layers, i as int, k, p);
                    }
                }
            }
            i = i + 1;
        }
        proof {
            lemma_layer_starts(layers, i as int, layers.len() as int);
        }
        out
    }
}

/// A byte lies in at most one layer.
proof fn lemma_one_layer_per_byte(layers: Seq<LayerView>, j: int, k: int, p: int)
    requires
        holds_byte(layers, j, p),
        holds_byte(layers, k, p),
    ensures
        j == k,
{
    if j < k {
        lemma_layer_starts(layers, j + 1, k);
    } else if k < j {
        lemma_layer_starts(layers, k + 1, j);
    }
}

/// Every byte within the total size of the layers lies in exactly one layer.
pub proof fn law_layers_cover_output(layers: Seq<LayerView>, p: int)
    requires
        0 <= p < total_size(layers),
    ensures
        exists|k: int| holds_byte(layers, k, p),
        forall|j: int, k: int|
            #[trigger] holds_byte(layers, j, p) && #[trigger] holds_byte(layers, k, p) ==> j == k,
    decreases layers.len(),
{
    assert forall|j: int, k: int|
        #[trigger] holds_byte(layers, j, p) && #[trigger] holds_byte(layers, k, p) implies j
        == k by {
        lemma_one_layer_per_byte(layers, j, k, p);
    }
    let n = layers.len() - 1;
    let before = layers.drop_last();
    assert(before =~= layers.take(n));
    assert(layers.take(n + 1) =~= layers);
    if p < total_size(before) {
        law_layers_cover_output(before, p);
        let k = choose|k: int| holds_byte(before, k, p);
        assert(before.take(k) =~= layers.take(k));
        assert(before.take(k + 1) =~= layers.take(k + 1));
        assert(holds_byte(layers, k, p));
    } else {
        assert(holds_byte(layers, n, p));
    }
}

/// Turns a rounded quotient into the quantized byte: adds the zero point and
/// clamps to the range of a byte.
pub fn quantize(rounded: i32, zero_point: i32) -> (r: u8)
    ensures
        r == if rounded + zero_point < 0 {
            0
        } else if rounded + zero_point > 255 {
            255
        } else {
            rounded + zero_point
        },
{
    let q: i64 = rounded as i64 + zero_point as i64;
    if q < 0 {
        0
    } else if q > 255 {
        255
    } else {
        q as u8
    }
}

/// The size of a layer is the size that its table gives; a negative one wraps
/// around.
pub proof fn law_layer_sizes(l: LayerView)
    ensures
        0 <= l.size_bytes ==> layer_size(l) == l.size_bytes,
        l.size_bytes < 0 ==> layer_size(l) - l.size_bytes == usize::MAX + 1,
{
}

/// The sizes of two lists of layers add up, and that of a list with one layer
/// is the size of the layer.
pub proof fn law_sizes_add_up(a: Seq<LayerView>, b: Seq<LayerView>, l: LayerView)
    ensures
        total_size(a + b) == total_size(a) + total_size(b),
        total_size(seq![l]) == layer_size(l),
        total_size(Seq::empty()) == 0,
    decreases b.len(),
{
    assert(seq![l].drop_last() =~= Seq::empty());
    assert(total_size(seq![l].drop_last()) == 0);
    if b.len() == 0 {
        assert(a + b =~= a);
    } else {
        law_sizes_add_up(a, b.drop_last(), l);
        assert((a + b).drop_last() =~= a + b.drop_last());
    }
}

/// An output buffer holds all output layers and at least eight bytes, and is no
/// larger than that.
pub proof fn law_output_buffer(layers: Seq<LayerView>)
    ensures
        output_size_of(layers) >= 8,
        output_size_of(layers) >= total_size(layers),
        output_size_of(layers) == 8 || output_size_of(layers) == total_size(layers),
{
}

/// Weights are uploaded by the first parameter-caching executable, and
/// inferences are run by the first execution-only or stand-alone one.
pub proof fn law_executables_are_picked_by_type(execs: Seq<ExecView>)
    ensures
        match first_caching(execs) {
            Some(i) => {
                &&& i < execs.len()
                &&& execs[i as int].exec_type is ParameterCaching
                &&& forall|j: int|
                    0 <= j < i ==> !((#[trigger] execs[j]).exec_type is ParameterCaching)
                &&& cached_params(execs) == execs[i as int].parameters
            },
            None => {
                &&& forall|j: int|
                    0 <= j < execs.len() ==> !((#[trigger] execs[j]).exec_type is ParameterCaching)
                &&& cached_params(execs).len() == 0
            },
        },
        match first_runnable(execs) {
            Some(i) => {
                &&& i < execs.len()
                &&& execs[i as int].exec_type is ExecutionOnly || execs[i as int].exec_type
                    is StandAlone
                &&& forall|j: int|
                    0 <= j < i ==> !((#[trigger] execs[j]).exec_type is ExecutionOnly
                        || execs[j].exec_type is StandAlone)
            },
            None => forall|j: int|
                0 <= j < execs.len() ==> !((#[trigger] execs[j]).exec_type is ExecutionOnly
                    || execs[j].exec_type is StandAlone),
        },
{
    law_first_exec(execs, |t: ExecutableType| is_caching(t));
    law_first_exec(execs, |t: ExecutableType| is_runnable(t));
}

/// Chunks are checked and patched one by one, in order.
pub proof fn law_chunks_are_patched_one_by_one(
    chunks: Seq<ChunkView>,
    a: Addresses,
    r: Seq<Vec<u8>>,
    i: int,
)
    requires
        0 <= i < chunks.len(),
    ensures
        chunks_fit(chunks) ==> fields_fit(chunks[i]),
        chunks_fit(chunks.take(i)) && fields_fit(chunks[i]) ==> chunks_fit(chunks.take(i + 1)),
        all_patched(chunks, a, r) ==> r.len() == chunks.len() && is_patched(chunks[i], a, r[i]@),
{
    let most = chunks.take(i + 1);
    if chunks_fit(chunks.take(i)) && fields_fit(chunks[i]) {
        assert forall|k: int| 0 <= k < most.len() implies fields_fit(#[trigger] most[k]) by {
            if k < i {
                assert(chunks.take(i)[k] == most[k]);
            }
        }
    }
}

/// A layer holds the bytes from the total size of the layers before it on, as
/// many as its own size says.
pub proof fn law_layer_holds_its_bytes(layers: Seq<LayerView>, k: int, p: int)
    requires
        0 <= k < layers.len(),
    ensures
        holds_byte(layers, k, p) <==> total_size(layers.take(k)) <= p < total_size(layers.take(k))
            + layer_size(layers[k]),
{
    assert(layers.take(k + 1).drop_last() =~= layers.take(k));
    assert(layers.take(k + 1).last() == layers[k]);
}

/// The smaller of two numbers is one of them and exceeds neither.
pub proof fn law_smaller(a: nat, b: nat)
    ensures
        smaller(a, b) <= a,
        smaller(a, b) <= b,
        smaller(a, b) == a || smaller(a, b) == b,
{
}

/// Device errors say what went wrong, and transfer errors become device errors
/// that keep them.
pub proof fn law_device_error_texts(e: TransferError, message: String)
    ensures
        device_error_text(DeviceError::NotFound) == "no Edge TPU device found"@,
        device_error_text(DeviceError::Usb(e)) == "USB error: "@ + transfer_error_text(e),
        device_error_text(DeviceError::Dfu(message)) == "DFU error: "@ + message@,
        device_error_text(DeviceError::NoExecutable) == "model has no runnable executable"@,
        device_error_text(DeviceError::Protocol) == "unexpected response from TPU"@,
        device_error_text(DeviceError::Timeout) == "TPU did not respond in time"@,
        device_error_text(DeviceError::NoOutput) == "inference produced no output"@,
        <DeviceError as vstd::std_specs::convert::FromSpec<TransferError>>::obeys_from_spec(),
        <DeviceError as vstd::std_specs::convert::FromSpec<TransferError>>::from_spec(e)
            == DeviceError::Usb(e),
{
}

/// The view of a reply keeps its kind and its bytes.
pub proof fn law_reply_view(reply: Reply)
    ensures
        match reply {
            Reply::Sent => reply@ is Sent,
            Reply::Event(b) => reply@ == ReplyView::Event(b@),
            Reply::Interrupt => reply@ is Interrupt,
            Reply::TimedOut => reply@ is TimedOut,
            Reply::Received(b) => reply@ == ReplyView::Received(b@),
            Reply::Failed(e) => reply@ == ReplyView::Failed(e),
        },
{
}

/// The view of loaded parameters keeps the weights, the output size and the
/// executable that runs inferences, which is the one at the index that the view
/// gives.
pub proof fn law_loaded_view(loaded: LoadedParams)
    ensures
        loaded@.params == loaded.params_buf@,
        loaded@.output_size == loaded.output_size,
        loaded@.runnable == loaded.runnable@,
        loaded.execution_view() == loaded@.runnable.executables[loaded@.runnable.index as int],
        loaded.wf() ==> loaded@.runnable.index < loaded@.runnable.executables.len() && first_runnable(
            loaded@.runnable.executables,
        ) == Some(loaded@.runnable.index),
{
}

} // verus!
