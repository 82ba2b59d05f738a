//! Running one inference.

use vstd::hash_map::StringHashMap;
use vstd::prelude::*;

use super::{
    all_patched, chunks_fit, layer_size, layer_start, layers_size, lemma_layer_starts,
    output_size_of,
    patch_chunks, total_size, DeviceError, LoadedParams, Reply, ReplyView,
};
use crate::model::{ExecInfo, LayerInfo, LayerView, OffsetView};
use crate::patch::{base_address, Addresses};
use crate::usb::transfer::{event_of, TpuEvent};

verus! {

/// How often an inference waits for an event or an interrupt.
pub const INFERENCE_ROUNDS: u32 = 30;

/// Output layer addresses by layer name, for layers that lie end to end from
/// `base`. Of two layers with one name the later one counts.
pub open spec fn addresses_of(layers: Seq<LayerView>, base: u64) -> Map<Seq<char>, u64>
    decreases layers.len(),
{
    if layers.len() == 0 {
        Map::empty()
    } else {
        addresses_of(layers.drop_last(), base).insert(
            layers.last().name,
            (base + total_size(layers.drop_last())) as u64,
        )
    }
}

/// All layers that lie end to end from `base` start at a 64-bit address.
pub open spec fn addresses_fit(layers: Seq<LayerView>, base: u64) -> bool {
    layers.len() > 0 ==> base + total_size(layers.drop_last()) <= u64::MAX
}

impl LoadedParams {
    /// The bytes that answer parameter requests during an inference: the
    /// executable's own parameters, or the weights if it has none.
    pub fn exec_params(&self) -> (r: &Vec<u8>)
        requires
            self.wf(),
        ensures
            r@ == if self.execution_view().parameters.len() == 0 {
                self.params_buf@
            } else {
                self.execution_view().parameters
            },
    {
        let exec: &ExecInfo = self.execution();
        if exec.parameters.len() == 0 {
            &self.params_buf
        } else {
            &exec.parameters
        }
    }

    /// Whether all output layers get 64-bit addresses in an output buffer at
    /// `base`.
    pub fn check_addresses(&self, base: u64) -> (r: bool)
        requires
            self.wf(),
        ensures
            r == addresses_fit(self.execution_view().output_layers, base),
    {
        let exec: &ExecInfo = self.execution();
        let ghost layers = exec@.output_layers;
        let n: usize = exec.output_layers.len();
        if n == 0 {
            return true;
        }
        let total: usize = match layers_size(&exec.output_layers) {
            Some(total) => total,
            None => 0,
        };
        let last: usize = exec.output_layers[n - 1].size();
        assert(layers.last() == exec.output_layers@[n - 1]@);
        base as u128 + (total - last) as u128 <= u64::MAX as u128
    }

    /// Gives each output layer its own place in an output buffer at `base`.
    pub fn output_addresses(&self, base: u64) -> (r: StringHashMap<u64>)
        requires
            self.wf(),
            addresses_fit(self.execution_view().output_layers, base),
        ensures
            r@ == addresses_of(self.execution_view().output_layers, base),
    {
        let exec: &ExecInfo = self.execution();
        let ghost layers = exec@.output_layers;
        let mut r: StringHashMap<u64> = StringHashMap::new();
        let mut offset: usize = 0;
        let mut i: usize = 0;
        assert(layers.take(0) =~= Seq::empty());
        while i < exec.output_layers.len()
            invariant
                i <= exec.output_layers@.len(),
                layers == exec@.output_layers,
                total_size(layers) <= usize::MAX,
                addresses_fit(layers, base),
                offset == layer_start(layers, i as int),
                r@ == addresses_of(layers.take(i as int), base),
            decreases exec.output_layers@.len() - i,
        {
            let layer: &LayerInfo = &exec.output_layers[i];
            proof {
                assert(layers[i as int] == layer@);
                assert(layers.take(i + 1).drop_last() =~= layers.take(i as int));
                assert(layers.take(i + 1).last() == layers[i as int]);
                lemma_layer_starts(layers, i as int, layers.len() - 1);
                lemma_layer_starts(layers, i + 1, layers.len() as int);
                assert(layers.drop_last() =~= layers.take(layers.len() - 1));
            }
            r.insert(layer.name.clone(), base + offset as u64);
            offset = offset + layer.size();
            i = i + 1;
        }
        assert(layers.take(i as int) =~= layers);
        r
    }

    /// The instruction chunks of one inference, with the addresses of its
    /// buffers patched in.
    pub fn exec_instructions(&self, params_addr: u64, input_addr: u64, output_base: u64) -> (r: Vec<
        Vec<u8>,
    >)
        requires
            self.wf(),
            chunks_fit(self.execution_view().instruction_chunks),
            addresses_fit(self.execution_view().output_layers, output_base),
        ensures
            all_patched(
                self.execution_view().instruction_chunks,
                (Addresses {
                    params: params_addr,
                    input: input_addr,
                    outputs: addresses_of(self.execution_view().output_layers, output_base),
                }),
                r@,
            ),
    {
        let outputs: StringHashMap<u64> = self.output_addresses(output_base);
        patch_chunks(self.execution(), params_addr, input_addr, &outputs)
    }
}

/// What an inference is doing.
#[derive(Debug, Clone, Copy, PartialEq, Eq, Structural)]
pub enum InferencePhase {
    /// The instruction chunk with this index is being sent.
    Instructions(usize),
    /// An event or an interrupt is awaited.
    Waiting,
    /// Input or parameters are being sent.
    Sending,
    /// Output is being received.
    Receiving,
    /// The inference is over.
    Over,
}

/// What to do next in an inference.
#[derive(Debug)]
pub enum InferenceAction {
    /// Send the instruction chunk with this index.
    SendInstructions(usize),
    /// Wait two seconds for an event or an interrupt.
    Wait,
    /// Send the input.
    SendInput,
    /// Send this range of the parameters.
    SendParameters { start: usize, end: usize },
    /// Receive this many bytes of output.
    Receive(usize),
    /// The inference produced this output.
    Finish(Vec<u8>),
    /// The inference failed.
    Fail(DeviceError),
}

/// Mathematical view of [`InferenceAction`].
pub enum InferenceActionView {
    SendInstructions(usize),
    Wait,
    SendInput,
    SendParameters { start: usize, end: usize },
    Receive(usize),
    Finish(Seq<u8>),
    Fail(DeviceError),
}

impl View for InferenceAction {
    type V = InferenceActionView;

    open spec fn view(&self) -> InferenceActionView {
        match *self {
            InferenceAction::SendInstructions(k) => InferenceActionView::SendInstructions(k),
            InferenceAction::Wait => InferenceActionView::Wait,
            InferenceAction::SendInput => InferenceActionView::SendInput,
            InferenceAction::SendParameters { start, end } => InferenceActionView::SendParameters {
                start,
                end,
            },
            InferenceAction::Receive(len) => InferenceActionView::Receive(len),
            InferenceAction::Finish(out) => InferenceActionView::Finish(out@),
            InferenceAction::Fail(e) => InferenceActionView::Fail(e),
        }
    }
}

/// Mathematical view of [`Inference`].
pub struct InferenceView {
    /// How many instruction chunks there are.
    pub instructions: usize,
    /// How many chunks of output complete the inference.
    pub outputs: usize,
    /// Where the parameters lie in host memory.
    pub params_addr: u64,
    pub params_len: usize,
    pub phase: InferencePhase,
    /// Events and interrupts so far.
    pub round: u32,
    /// The output so far.
    pub chunks: Seq<Seq<u8>>,
}

/// Some chunks of bytes end to end.
pub open spec fn concatenated(chunks: Seq<Seq<u8>>) -> Seq<u8>
    decreases chunks.len(),
{
    if chunks.len() == 0 {
        Seq::empty()
    } else {
        concatenated(chunks.drop_last()) + chunks.last()
    }
}

/// Ends the inference with an error.
pub open spec fn inference_failed(v: InferenceView, e: DeviceError) -> (
    InferenceView,
    InferenceActionView,
) {
    (InferenceView { phase: InferencePhase::Over, ..v }, InferenceActionView::Fail(e))
}

/// Ends the inference with the output.
pub open spec fn inference_finished(v: InferenceView) -> (InferenceView, InferenceActionView) {
    (
        InferenceView { phase: InferencePhase::Over, ..v },
        InferenceActionView::Finish(concatenated(v.chunks)),
    )
}

/// Waits for the next event or interrupt. A device that does not complete the
/// output in thirty of them has not responded in time, or has not produced any
/// output at all.
pub open spec fn inference_proceed(v: InferenceView, round: u32) -> (
    InferenceView,
    InferenceActionView,
) {
    if round < INFERENCE_ROUNDS {
        (
            InferenceView { phase: InferencePhase::Waiting, round, ..v },
            InferenceActionView::Wait,
        )
    } else {
        inference_failed(
            InferenceView { round, ..v },
            if v.chunks.len() == 0 {
                DeviceError::NoOutput
            } else {
                DeviceError::Timeout
            },
        )
    }
}

/// How an inference begins: with its first instruction chunk.
pub open spec fn inference_start(v: InferenceView) -> (InferenceView, InferenceActionView) {
    if v.instructions == 0 {
        inference_proceed(v, 0)
    } else {
        (
            InferenceView { phase: InferencePhase::Instructions(0), ..v },
            InferenceActionView::SendInstructions(0),
        )
    }
}

/// The range of the parameters that a request for `length` bytes at a host
/// address means, or `None` if it is not within the parameters.
pub open spec fn parameter_range(
    device_address: u64,
    length: u32,
    params_addr: u64,
    params_len: usize,
) -> Option<(usize, usize)> {
    let start = device_address.wrapping_sub(params_addr) as usize;
    if start + length <= params_len {
        Some((start, (start + length) as usize))
    } else {
        None
    }
}

/// What an inference does about an event while it waits. Tag 1 asks for the
/// input, tag 2 for parameters, and tag 3 announces output.
pub open spec fn inference_event(v: InferenceView, event: Option<TpuEvent>) -> (
    InferenceView,
    InferenceActionView,
) {
    match event {
        None => inference_failed(v, DeviceError::Protocol),
        Some(ev) => if ev.tag == 1 {
            (
                InferenceView { phase: InferencePhase::Sending, ..v },
                InferenceActionView::SendInput,
            )
        } else if ev.tag == 2 {
            match parameter_range(ev.device_address, ev.length, v.params_addr, v.params_len) {
                Some(range) => (
                    InferenceView { phase: InferencePhase::Sending, ..v },
                    InferenceActionView::SendParameters { start: range.0, end: range.1 },
                ),
                None => inference_failed(v, DeviceError::Protocol),
            }
        } else if ev.tag == 3 {
            (
                InferenceView { phase: InferencePhase::Receiving, ..v },
                InferenceActionView::Receive(ev.length as usize),
            )
        } else {
            inference_proceed(v, (v.round + 1) as u32)
        },
    }
}

/// What an inference does when its last transfer to the device is complete.
pub open spec fn inference_sent(v: InferenceView) -> (InferenceView, InferenceActionView) {
    match v.phase {
        InferencePhase::Instructions(k) => if k + 1 < v.instructions {
            (
                InferenceView { phase: InferencePhase::Instructions((k + 1) as usize), ..v },
                InferenceActionView::SendInstructions((k + 1) as usize),
            )
        } else {
            inference_proceed(v, v.round)
        },
        _ => inference_proceed(v, (v.round + 1) as u32),
    }
}

/// What an inference does with a chunk of output. It is complete with the last
/// one.
pub open spec fn inference_received(v: InferenceView, chunk: Seq<u8>) -> (
    InferenceView,
    InferenceActionView,
) {
    let w = InferenceView { chunks: v.chunks.push(chunk), ..v };
    if w.chunks.len() == w.outputs {
        inference_finished(w)
    } else {
        inference_proceed(w, (w.round + 1) as u32)
    }
}

/// What an inference does about a reply: its next state and what to do next.
pub open spec fn inference_next(v: InferenceView, reply: ReplyView) -> (
    InferenceView,
    InferenceActionView,
) {
    match reply {
        ReplyView::Sent => inference_sent(v),
        ReplyView::Event(b) => inference_event(v, event_of(b)),
        ReplyView::Interrupt => inference_proceed(v, (v.round + 1) as u32),
        ReplyView::TimedOut => inference_failed(v, DeviceError::Timeout),
        ReplyView::Received(chunk) => inference_received(v, chunk),
        ReplyView::Failed(e) => inference_failed(v, DeviceError::Usb(e)),
    }
}

/// Whether a reply answers what an inference is doing.
pub open spec fn inference_answers(phase: InferencePhase, reply: ReplyView) -> bool {
    match phase {
        InferencePhase::Instructions(_) | InferencePhase::Sending => reply is Sent
            || reply is Failed,
        InferencePhase::Waiting => reply is Event || reply is Interrupt || reply is TimedOut
            || reply is Failed,
        InferencePhase::Receiving => reply is Received || reply is Failed,
        InferencePhase::Over => false,
    }
}

/// The states that an inference can be in.
pub open spec fn inference_sound(v: InferenceView) -> bool {
    &&& v.outputs > 0
    &&& match v.phase {
        InferencePhase::Instructions(k) => {
            &&& k < v.instructions
            &&& v.round == 0
            &&& v.chunks.len() == 0
        },
        InferencePhase::Over => v.chunks.len() <= v.outputs,
        _ => v.round < INFERENCE_ROUNDS && v.chunks.len() < v.outputs,
    }
}

/// One inference.
pub struct Inference {
    instructions: usize,
    outputs: usize,
    params_addr: u64,
    params_len: usize,
    phase: InferencePhase,
    round: u32,
    chunks: Vec<Vec<u8>>,
}

/// The contents of some byte vectors.
pub open spec fn chunk_views(chunks: Seq<Vec<u8>>) -> Seq<Seq<u8>> {
    Seq::new(chunks.len(), |i: int| chunks[i]@)
}

impl View for Inference {
    type V = InferenceView;

    closed spec fn view(&self) -> InferenceView {
        InferenceView {
            instructions: self.instructions,
            outputs: self.outputs,
            params_addr: self.params_addr,
            params_len: self.params_len,
            phase: self.phase,
            round: self.round,
            chunks: chunk_views(self.chunks@),
        }
    }
}

/// An inference that has not begun. There is one chunk of output per output
/// layer, and at least one.
pub open spec fn inference_fresh(
    instructions: usize,
    output_layers: usize,
    params_addr: u64,
    params_len: usize,
) -> InferenceView {
    InferenceView {
        instructions,
        outputs: if output_layers == 0 {
            1
        } else {
            output_layers
        },
        params_addr,
        params_len,
        phase: InferencePhase::Waiting,
        round: 0,
        chunks: Seq::empty(),
    }
}

/// Begins an inference with loaded parameters; `params_addr` is the address of
/// [`LoadedParams::exec_params`].
pub fn run_inference(loaded: &LoadedParams, params_addr: u64) -> (r: (Inference, InferenceAction))
    requires
        loaded.wf(),
    ensures
        inference_sound(r.0@),
        (r.0@, r.1@) == inference_start(
            inference_fresh(
                loaded.execution_view().instruction_chunks.len() as usize,
                loaded.execution_view().output_layers.len() as usize,
                params_addr,
                if loaded.execution_view().parameters.len() == 0 {
                    loaded.params_buf@.len() as usize
                } else {
                    loaded.execution_view().parameters.len() as usize
                },
            ),
        ),
{
    let exec: &ExecInfo = loaded.execution();
    let layers: usize = exec.output_layers.len();
    let mut inference = Inference {
        instructions: exec.instruction_chunks.len(),
        outputs: if layers == 0 {
            1
        } else {
            layers
        },
        params_addr,
        params_len: loaded.exec_params().len(),
        phase: InferencePhase::Waiting,
        round: 0,
        chunks: Vec::new(),
    };
    assert(inference@.chunks =~= Seq::empty());
    if inference.instructions == 0 {
        (inference, InferenceAction::Wait)
    } else {
        inference.phase = InferencePhase::Instructions(0);
        (inference, InferenceAction::SendInstructions(0))
    }
}

impl Inference {
    fn fail(&mut self, e: DeviceError) -> (r: InferenceAction)
        ensures
            (final(self)@, r@) == inference_failed(old(self)@, e),
    {
        self.phase = InferencePhase::Over;
        InferenceAction::Fail(e)
    }

    fn conclude(&mut self) -> (r: InferenceAction)
        ensures
            (final(self)@, r@) == inference_finished(old(self)@),
    {
        self.phase = InferencePhase::Over;
        let ghost views = chunk_views(self.chunks@);
        let mut out: Vec<u8> = Vec::new();
        let mut i: usize = 0;
        assert(views.take(0) =~= Seq::empty());
        while i < self.chunks.len()
            invariant
                i <= self.chunks@.len(),
                views == chunk_views(self.chunks@),
                out@ == concatenated(views.take(i as int)),
            decreases self.chunks@.len() - i,
        {
            assert(views.take(i + 1).drop_last() =~= views.take(i as int));
            assert(views.take(i + 1).last() == self.chunks@[i as int]@);
            out.extend_from_slice(self.chunks[i].as_slice());
            i = i + 1;
        }
        assert(views.take(i as int) =~= views);
        InferenceAction::Finish(out)
    }

    fn proceed(&mut self) -> (r: InferenceAction)
        ensures
            (final(self)@, r@) == inference_proceed(old(self)@, old(self)@.round),
    {
        if self.round < INFERENCE_ROUNDS {
            self.phase = InferencePhase::Waiting;
            InferenceAction::Wait
        } else if self.chunks.len() == 0 {
            self.fail(DeviceError::NoOutput)
        } else {
            self.fail(DeviceError::Timeout)
        }
    }

    /// Takes the reply to the last request and tells what to do next.
    pub fn next(&mut self, reply: Reply) -> (r: InferenceAction)
        requires
            inference_sound(old(self)@),
            inference_answers(old(self)@.phase, reply@),
        ensures
            inference_sound(final(self)@),
            (final(self)@, r@) == inference_next(old(self)@, reply@),
    {
        match reply {
            Reply::Sent => match self.phase {
                InferencePhase::Instructions(k) => {
                    if k + 1 < self.instructions {
                        self.phase = InferencePhase::Instructions(k + 1);
                        InferenceAction::SendInstructions(k + 1)
                    } else {
                        self.proceed()
                    }
                },
                _ => {
                    self.round = self.round + 1;
                    self.proceed()
                },
            },
            Reply::Event(b) => match TpuEvent::from_bytes(b.as_slice()) {
                None => self.fail(DeviceError::Protocol),
                Some(ev) => self.event(ev),
            },
            Reply::Interrupt => {
                self.round = self.round + 1;
                self.proceed()
            },
            Reply::TimedOut => self.fail(DeviceError::Timeout),
            Reply::Received(chunk) => {
                let ghost before = chunk_views(self.chunks@);
                self.chunks.push(chunk);
                assert(chunk_views(self.chunks@) =~= before.push(chunk@));
                if self.chunks.len() == self.outputs {
                    self.conclude()
                } else {
                    self.round = self.round + 1;
                    self.proceed()
                }
            },
            Reply::Failed(e) => self.fail(DeviceError::Usb(e)),
        }
    }

    fn event(&mut self, ev: TpuEvent) -> (r: InferenceAction)
        requires
            old(self)@.round < INFERENCE_ROUNDS,
        ensures
            (final(self)@, r@) == inference_event(old(self)@, Some(ev)),
    {
        if ev.tag == 1 {
            self.phase = InferencePhase::Sending;
            InferenceAction::SendInput
        } else if ev.tag == 2 {
            let start: usize = ev.device_address.wrapping_sub(self.params_addr) as usize;
            let len: usize = ev.length as usize;
            if start <= self.params_len && len <= self.params_len - start {
                self.phase = InferencePhase::Sending;
                InferenceAction::SendParameters { start, end: start + len }
            } else {
                self.fail(DeviceError::Protocol)
            }
        } else if ev.tag == 3 {
            self.phase = InferencePhase::Receiving;
            InferenceAction::Receive(ev.length as usize)
        } else {
            self.round = self.round + 1;
            self.proceed()
        }
    }
}

/// The state of an inference and the last thing to do after some replies.
pub open spec fn inference_run(
    begin: (InferenceView, InferenceActionView),
    replies: Seq<ReplyView>,
) -> (InferenceView, InferenceActionView)
    decreases replies.len(),
{
    if replies.len() == 0 {
        begin
    } else {
        inference_next(inference_run(begin, replies.drop_last()).0, replies.last())
    }
}

/// Each reply answers what the inference was doing.
pub open spec fn inference_proper(
    begin: (InferenceView, InferenceActionView),
    replies: Seq<ReplyView>,
) -> bool
    decreases replies.len(),
{
    replies.len() > 0 ==> inference_proper(begin, replies.drop_last()) && inference_answers(
        inference_run(begin, replies.drop_last()).0.phase,
        replies.last(),
    )
}

/// The chunks of output among some replies, in order.
pub open spec fn received(replies: Seq<ReplyView>) -> Seq<Seq<u8>>
    decreases replies.len(),
{
    if replies.len() == 0 {
        Seq::empty()
    } else {
        match replies.last() {
            ReplyView::Received(chunk) => received(replies.drop_last()).push(chunk),
            _ => received(replies.drop_last()),
        }
    }
}

/// How many more replies an inference can take.
spec fn inference_rank(v: InferenceView) -> int {
    match v.phase {
        InferencePhase::Instructions(k) => 2 * INFERENCE_ROUNDS + v.instructions - k,
        InferencePhase::Waiting => 2 * (INFERENCE_ROUNDS - v.round),
        InferencePhase::Sending | InferencePhase::Receiving => 2 * (INFERENCE_ROUNDS - v.round)
            - 1,
        InferencePhase::Over => 0,
    }
}

proof fn lemma_inference_run(fresh: InferenceView, replies: Seq<ReplyView>)
    requires
        fresh.outputs > 0,
        fresh.chunks.len() == 0,
        fresh.round == 0,
        inference_proper(inference_start(fresh), replies),
    ensures
        ({
            let (v, action) = inference_run(inference_start(fresh), replies);
            &&& inference_sound(v)
            &&& v.outputs == fresh.outputs
            &&& v.instructions == fresh.instructions
            &&& v.params_addr == fresh.params_addr
            &&& v.params_len == fresh.params_len
            &&& v.chunks == received(replies)
            &&& 0 <= inference_rank(v)
            &&& inference_rank(v) + replies.len() <= fresh.instructions + 2 * INFERENCE_ROUNDS
            &&& action matches InferenceActionView::Finish(out) ==> v.chunks.len() == v.outputs
                && out == concatenated(v.chunks)
            &&& v.phase is Over <==> action is Finish || action is Fail
            &&& v.chunks.len() == v.outputs ==> action is Finish
        }),
    decreases replies.len(),
{
    if replies.len() > 0 {
        lemma_inference_run(fresh, replies.drop_last());
    } else {
        assert(fresh.chunks =~= Seq::empty());
    }
}

/// However the device behaves, an inference ends: after its instruction chunks
/// it waits at most thirty times, with at most one transfer per wait.
pub proof fn law_inference_is_bounded(fresh: InferenceView, replies: Seq<ReplyView>)
    requires
        fresh.outputs > 0,
        fresh.chunks.len() == 0,
        fresh.round == 0,
        inference_proper(inference_start(fresh), replies),
    ensures
        replies.len() <= fresh.instructions + 2 * INFERENCE_ROUNDS,
{
    lemma_inference_run(fresh, replies);
}

/// The output of an inference is what was received, in the order in which it
/// was received: one chunk per output layer.
pub proof fn law_output_is_what_was_received(fresh: InferenceView, replies: Seq<ReplyView>)
    requires
        fresh.outputs > 0,
        fresh.chunks.len() == 0,
        fresh.round == 0,
        inference_proper(inference_start(fresh), replies),
    ensures
        inference_run(inference_start(fresh), replies).1 matches InferenceActionView::Finish(out)
            ==> out == concatenated(received(replies)) && received(replies).len()
            == fresh.outputs,
{
    lemma_inference_run(fresh, replies);
}

/// An inference is complete as soon as all its output was received, and not
/// while some is missing.
pub proof fn law_inference_completes(fresh: InferenceView, replies: Seq<ReplyView>)
    requires
        fresh.outputs > 0,
        fresh.chunks.len() == 0,
        fresh.round == 0,
        inference_proper(inference_start(fresh), replies),
    ensures
        received(replies).len() == fresh.outputs <==> inference_run(
            inference_start(fresh),
            replies,
        ).1 is Finish,
{
    lemma_inference_run(fresh, replies);
}

/// Input, parameters and output are transferred only when the device asks for
/// it, and output of the announced length.
pub proof fn law_inference_answers_requests(v: InferenceView, reply: ReplyView)
    ensures
        match inference_next(v, reply).1 {
            InferenceActionView::SendInput => reply matches ReplyView::Event(b) && event_of(
                b,
            ) matches Some(ev) && ev.tag == 1,
            InferenceActionView::SendParameters { start, end } => reply matches ReplyView::Event(b)
                && event_of(b) matches Some(ev) && ev.tag == 2 && parameter_range(
                ev.device_address,
                ev.length,
                v.params_addr,
                v.params_len,
            ) == Some((start, end)),
            InferenceActionView::Receive(len) => reply matches ReplyView::Event(b) && event_of(
                b,
            ) matches Some(ev) && ev.tag == 3 && len == ev.length,
            _ => true,
        },
{
}

/// A request for parameters within the buffer is answered with exactly the
/// bytes at the requested address.
pub proof fn law_parameter_request_in_range(
    device_address: u64,
    length: u32,
    params_addr: u64,
    params_len: usize,
)
    requires
        params_addr <= device_address,
        device_address + length <= params_addr + params_len,
    ensures
        parameter_range(device_address, length, params_addr, params_len) == Some(
            (
                (device_address - params_addr) as usize,
                (device_address - params_addr + length) as usize,
            ),
        ),
{
}

/// Whatever is asked for, only bytes of the parameters are sent, and as many
/// as were asked for.
pub proof fn law_parameter_range_is_within(
    device_address: u64,
    length: u32,
    params_addr: u64,
    params_len: usize,
)
    ensures
        parameter_range(device_address, length, params_addr, params_len) matches Some(range)
            ==> range.0 <= range.1 <= params_len && range.1 - range.0 == length,
{
}

/// With 64-bit host addresses, a request that is not within the parameters is
/// refused.
pub proof fn law_parameter_request_out_of_range(
    device_address: u64,
    length: u32,
    params_addr: u64,
    params_len: usize,
)
    requires
        usize::BITS == 64,
        params_addr + params_len <= u64::MAX,
        device_address < params_addr || device_address + length > params_addr + params_len,
    ensures
        parameter_range(device_address, length, params_addr, params_len) is None,
{
}

/// The instruction chunks go out first, all of them, in order.
pub proof fn law_inference_sends_instructions_in_order(fresh: InferenceView, k: nat)
    requires
        fresh.round == 0,
        0 < fresh.instructions,
        k <= fresh.instructions,
    ensures
        ({
            let begin = inference_start(fresh);
            let replies = super::upload::sent_replies(k);
            &&& inference_proper(begin, replies)
            &&& inference_run(begin, replies).0 == (InferenceView {
                phase: if k < fresh.instructions {
                    InferencePhase::Instructions(k as usize)
                } else {
                    InferencePhase::Waiting
                },
                ..fresh
            })
        }),
    decreases k,
{
    if k > 0 {
        law_inference_sends_instructions_in_order(fresh, (k - 1) as nat);
        assert(super::upload::sent_replies(k).drop_last() =~= super::upload::sent_replies(
            (k - 1) as nat,
        ));
    }
}

/// No two layers have the same name.
pub open spec fn names_differ(layers: Seq<LayerView>) -> bool {
    forall|j: int, k: int|
        0 <= j < k < layers.len() ==> (#[trigger] layers[j]).name != (#[trigger] layers[k]).name
}

/// Output layers with different names get adjacent, non-overlapping places
/// within the output buffer.
pub proof fn law_output_regions(layers: Seq<LayerView>, base: u64, k: int)
    requires
        names_differ(layers),
        addresses_fit(layers, base),
        0 <= k < layers.len(),
    ensures
        addresses_of(layers, base).contains_key(layers[k].name),
        addresses_of(layers, base)[layers[k].name] == base + layer_start(layers, k),
        layer_start(layers, k) + layer_size(layers[k]) == layer_start(layers, k + 1),
        layer_start(layers, k + 1) <= total_size(layers) <= output_size_of(layers),
    decreases layers.len(),
{
    let n = layers.len() - 1;
    let before = layers.drop_last();
    assert(before =~= layers.take(n));
    assert(layers.take(k + 1).drop_last() =~= layers.take(k));
    assert(layers.take(k + 1).last() == layers[k]);
    lemma_layer_starts(layers, k + 1, layers.len() as int);
    if k < n {
        assert(before[k] == layers[k]);
        assert(names_differ(before)) by {
            assert forall|i: int, j: int| 0 <= i < j < before.len() implies (
            #[trigger] before[i]).name != (#[trigger] before[j]).name by {
                assert(before[i] == layers[i] && before[j] == layers[j]);
            }
        }
        assert(before.drop_last() =~= layers.take(n - 1));
        lemma_layer_starts(layers, n - 1, n);
        law_output_regions(before, base, k);
        assert(before.take(k) =~= layers.take(k));
        assert(layers[k].name != layers[n].name);
    }
}

/// An instruction field that refers to an output layer by name is given the
/// address of that layer's place in the output buffer.
pub proof fn law_output_field_points_at_layer(
    layers: Seq<LayerView>,
    base: u64,
    k: int,
    params: u64,
    input: u64,
    f: OffsetView,
)
    requires
        names_differ(layers),
        addresses_fit(layers, base),
        0 <= k < layers.len(),
        f.desc is BaseAddressOutputActivation,
        f.name == layers[k].name,
    ensures
        base_address(f, Addresses { params, input, outputs: addresses_of(layers, base) }) == base
            + layer_start(layers, k),
{
    law_output_regions(layers, base, k);
}

/// While it waits, an inference does what each event asks for, in every round
/// and with any amount of output so far. Tag 1 is answered with the input, tag
/// 2 with the parameters at the requested address, if all of them are there,
/// and tag 3 by receiving as many bytes as it announces. Any other tag only
/// uses up one of thirty rounds, and a short event is an error.
pub proof fn law_inference_does_what_events_ask(v: InferenceView, b: Seq<u8>)
    requires
        v.phase is Waiting,
        v.round < 30,
    ensures
        ({
            let (w, action) = inference_next(v, ReplyView::Event(b));
            let tag = b[12] % 16;
            let address = b[0] + 0x100 * b[1] + 0x1_0000 * b[2] + 0x100_0000 * b[3] + 0x1_0000_0000
                * b[4] + 0x100_0000_0000 * b[5] + 0x1_0000_0000_0000 * b[6] + 0x100_0000_0000_0000
                * b[7];
            let length = b[8] + 0x100 * b[9] + 0x1_0000 * b[10] + 0x100_0000 * b[11];
            let inside = v.params_addr <= address && address + length <= v.params_addr
                + v.params_len;
            &&& b.len() < 13 ==> action == InferenceActionView::Fail(DeviceError::Protocol) && w == (
            InferenceView { phase: InferencePhase::Over, ..v })
            &&& b.len() >= 13 && tag == 1 ==> action is SendInput && w == (InferenceView {
                phase: InferencePhase::Sending,
                ..v
            })
            &&& b.len() >= 13 && tag == 2 && inside ==> {
                &&& action == InferenceActionView::SendParameters {
                    start: (address - v.params_addr) as usize,
                    end: (address - v.params_addr + length) as usize,
                }
                &&& w == (InferenceView { phase: InferencePhase::Sending, ..v })
            }
            &&& b.len() >= 13 && tag == 2 && !inside && usize::BITS == 64 && v.params_addr
                + v.params_len <= u64::MAX ==> {
                &&& action == InferenceActionView::Fail(DeviceError::Protocol)
                &&& w == (InferenceView { phase: InferencePhase::Over, ..v })
            }
            &&& b.len() >= 13 && tag == 3 ==> {
                &&& action == InferenceActionView::Receive(length as usize)
                &&& w == (InferenceView { phase: InferencePhase::Receiving, ..v })
            }
            &&& b.len() >= 13 && !(1 <= tag <= 3) && v.round < 29 ==> action is Wait && w == (
            InferenceView { round: (v.round + 1) as u32, ..v })
            &&& b.len() >= 13 && !(1 <= tag <= 3) && v.round == 29 ==> {
                &&& w.phase is Over
                &&& action == InferenceActionView::Fail(
                    if v.chunks.len() == 0 {
                        DeviceError::NoOutput
                    } else {
                        DeviceError::Timeout
                    },
                )
            }
        }),
{
    crate::usb::transfer::law_event_bytes(b);
    if b.len() >= 13 {
        let ev = event_of(b).unwrap();
        if v.params_addr <= ev.device_address && ev.device_address + ev.length <= v.params_addr
            + v.params_len {
            law_parameter_request_in_range(
                ev.device_address,
                ev.length,
                v.params_addr,
                v.params_len,
            );
        } else if usize::BITS == 64 && v.params_addr + v.params_len <= u64::MAX {
            law_parameter_request_out_of_range(
                ev.device_address,
                ev.length,
                v.params_addr,
                v.params_len,
            );
        }
    }
}

/// What the other replies lead to. A transfer to the device, an interrupt and a
/// chunk of output that does not complete the inference each use up one of
/// thirty rounds. Nothing but the phase, the round and the output changes.
pub proof fn law_inference_replies(v: InferenceView, chunk: Seq<u8>, e: crate::usb::TransferError)
    requires
        v.round < 30,
    ensures
        ({
            let (w, action) = inference_next(v, ReplyView::Interrupt);
            if v.round < 29 {
                action is Wait && w == (InferenceView {
                    phase: InferencePhase::Waiting,
                    round: (v.round + 1) as u32,
                    ..v
                })
            } else {
                action is Fail && w.phase is Over
            }
        }),
        v.phase is Sending ==> inference_next(v, ReplyView::Sent) == inference_next(
            v,
            ReplyView::Interrupt,
        ),
        inference_next(v, ReplyView::TimedOut) == (
            InferenceView { phase: InferencePhase::Over, ..v },
            InferenceActionView::Fail(DeviceError::Timeout),
        ),
        inference_next(v, ReplyView::Failed(e)) == (
            InferenceView { phase: InferencePhase::Over, ..v },
            InferenceActionView::Fail(DeviceError::Usb(e)),
        ),
        ({
            let (w, action) = inference_next(v, ReplyView::Received(chunk));
            &&& w.chunks == v.chunks.push(chunk)
            &&& v.chunks.len() + 1 == v.outputs ==> action == InferenceActionView::Finish(
                concatenated(v.chunks) + chunk,
            ) && w.phase is Over
            &&& v.chunks.len() + 1 != v.outputs && v.round < 29 ==> action is Wait && w == (
            InferenceView {
                phase: InferencePhase::Waiting,
                round: (v.round + 1) as u32,
                chunks: v.chunks.push(chunk),
                ..v
            })
            &&& v.chunks.len() + 1 != v.outputs && v.round == 29 ==> w.phase is Over && action
                == InferenceActionView::Fail(DeviceError::Timeout)
        }),
{
    assert(v.chunks.push(chunk).drop_last() =~= v.chunks);
}

/// Instruction chunks are sent one after the other; after the last one the
/// inference waits.
pub proof fn law_inference_instructions(v: InferenceView, k: usize)
    requires
        v.phase == InferencePhase::Instructions(k),
        v.round < 30,
        k < v.instructions,
    ensures
        inference_next(v, ReplyView::Sent) == if k + 1 < v.instructions {
            (
                InferenceView { phase: InferencePhase::Instructions((k + 1) as usize), ..v },
                InferenceActionView::SendInstructions((k + 1) as usize),
            )
        } else {
            (InferenceView { phase: InferencePhase::Waiting, ..v }, InferenceActionView::Wait)
        },
{
}

/// An inference begins with its first instruction chunk, or waits if there is
/// none, without any output and in its first round. It takes one chunk of
/// output per output layer, and at least one.
pub proof fn law_inference_begins(
    instructions: usize,
    output_layers: usize,
    params_addr: u64,
    params_len: usize,
)
    ensures
        ({
            let (v, action) = inference_start(
                inference_fresh(instructions, output_layers, params_addr, params_len),
            );
            &&& v.instructions == instructions
            &&& v.outputs >= 1 && v.outputs >= output_layers
            &&& v.outputs == 1 || v.outputs == output_layers
            &&& v.params_addr == params_addr && v.params_len == params_len
            &&& v.round == 0 && v.chunks.len() == 0
            &&& instructions == 0 ==> v.phase is Waiting && action is Wait
            &&& instructions > 0 ==> v.phase == InferencePhase::Instructions(0) && action
                == InferenceActionView::SendInstructions(0)
        }),
{
}

/// Which replies an inference takes: what was sent or received, where something
/// was, and an event, an interrupt or nothing where it waited. Every transfer
/// can fail.
pub proof fn law_inference_takes_replies(phase: InferencePhase, reply: ReplyView)
    ensures
        inference_answers(phase, reply) <==> match reply {
            ReplyView::Sent => phase is Instructions || phase is Sending,
            ReplyView::Event(_) | ReplyView::Interrupt | ReplyView::TimedOut => phase is Waiting,
            ReplyView::Received(_) => phase is Receiving,
            ReplyView::Failed(_) => !(phase is Over),
        },
{
}

/// Chunks of output are joined in order, with nothing between them.
pub proof fn law_concatenation(a: Seq<Seq<u8>>, b: Seq<Seq<u8>>, chunk: Seq<u8>)
    ensures
        concatenated(a + b) == concatenated(a) + concatenated(b),
        concatenated(seq![chunk]) == chunk,
        concatenated(Seq::empty()) == Seq::<u8>::empty(),
    decreases b.len(),
{
    assert(seq![chunk].drop_last() =~= Seq::empty());
    assert(concatenated(seq![chunk].drop_last()) =~= Seq::empty());
    assert(concatenated(seq![chunk]) =~= chunk);
    if b.len() == 0 {
        assert(a + b =~= a);
        assert(concatenated(a) + Seq::empty() =~= concatenated(a));
    } else {
        law_concatenation(a, b.drop_last(), chunk);
        assert((a + b).drop_last() =~= a + b.drop_last());
        assert(concatenated(a + b) =~= concatenated(a) + concatenated(b));
    }
}

/// The view of an action keeps its kind and what it holds.
pub proof fn law_inference_action_view(action: InferenceAction)
    ensures
        match action {
            InferenceAction::SendInstructions(k) => action@
                == InferenceActionView::SendInstructions(k),
            InferenceAction::Wait => action@ is Wait,
            InferenceAction::SendInput => action@ is SendInput,
            InferenceAction::SendParameters { start, end } => action@
                == InferenceActionView::SendParameters { start, end },
            InferenceAction::Receive(len) => action@ == InferenceActionView::Receive(len),
            InferenceAction::Finish(out) => action@ == InferenceActionView::Finish(out@),
            InferenceAction::Fail(e) => action@ == InferenceActionView::Fail(e),
        },
{
}

/// An output layer lies behind all layers before it, wherever no later layer
/// has its name, and no other name has an address.
pub proof fn law_output_addresses(layers: Seq<LayerView>, base: u64, k: int, name: Seq<char>)
    requires
        0 <= k < layers.len(),
        base + total_size(layers.take(k)) <= u64::MAX,
        forall|j: int| k < j < layers.len() ==> (#[trigger] layers[j]).name != layers[k].name,
    ensures
        addresses_of(layers, base).contains_key(layers[k].name),
        addresses_of(layers, base)[layers[k].name] == base + total_size(layers.take(k)),
        addresses_of(layers, base).contains_key(name) <==> exists|j: int|
            0 <= j < layers.len() && (#[trigger] layers[j]).name == name,
    decreases layers.len(),
{
    let n = layers.len() - 1;
    let before = layers.drop_last();
    lemma_addressed_names(layers, base, name);
    assert(before =~= layers.take(n));
    if k < n {
        assert(before[k] == layers[k]);
        assert(before.take(k) =~= layers.take(k));
        assert forall|j: int| k < j < before.len() implies (#[trigger] before[j]).name
            != before[k].name by {
            assert(before[j] == layers[j]);
        }
        law_output_addresses(before, base, k, name);
        assert(layers[n].name != layers[k].name);
    }
}

proof fn lemma_addressed_names(layers: Seq<LayerView>, base: u64, name: Seq<char>)
    ensures
        addresses_of(layers, base).contains_key(name) <==> exists|j: int|
            0 <= j < layers.len() && (#[trigger] layers[j]).name == name,
    decreases layers.len(),
{
    if layers.len() > 0 {
        let before = layers.drop_last();
        lemma_addressed_names(before, base, name);
        if layers.last().name == name {
            assert(layers[layers.len() - 1].name == name);
        }
        if exists|j: int| 0 <= j < before.len() && (#[trigger] before[j]).name == name {
            let j = choose|j: int| 0 <= j < before.len() && (#[trigger] before[j]).name == name;
            assert(layers[j].name == name);
        }
        if exists|j: int| 0 <= j < layers.len() && (#[trigger] layers[j]).name == name {
            let j = choose|j: int| 0 <= j < layers.len() && (#[trigger] layers[j]).name == name;
            if j < before.len() {
                assert(before[j].name == name);
            }
        }
    }
}

/// The addresses of the output layers fit exactly when that of the last one,
/// the highest, does.
pub proof fn law_addresses_fit(layers: Seq<LayerView>, base: u64, k: int)
    requires
        0 <= k < layers.len(),
    ensures
        addresses_fit(layers, base) ==> base + total_size(layers.take(k)) <= u64::MAX,
        base + total_size(layers.take(layers.len() - 1)) <= u64::MAX ==> addresses_fit(
            layers,
            base,
        ),
        addresses_fit(Seq::empty(), base),
{
    assert(layers.drop_last() =~= layers.take(layers.len() - 1));
    lemma_layer_starts(layers, k, layers.len() - 1);
}

} // verus!
