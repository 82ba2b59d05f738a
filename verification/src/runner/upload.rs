//! Uploading the weights of a model.

use std::sync::Arc;
use vstd::hash_map::StringHashMap;
use vstd::prelude::*;

use super::{
    all_patched, cached_params, chunks_fit, find_caching, find_runnable, first_caching,
    first_runnable, law_first_exec, layers_size, output_size_of, patch_chunks, total_size,
    DeviceError, Execution, ExecutionView, LoadedParams, LoadedView, Reply, ReplyView,
};
use crate::model::{ExecInfo, ExecView, ExecutableType, TfliteModel};
use crate::patch::Addresses;
use crate::usb::transfer::{event_of, TpuEvent};

verus! {

/// How often an upload waits for an event or an interrupt.
pub const LOAD_ROUNDS: u32 = 20;

/// What an upload is doing.
#[derive(Debug, Clone, Copy, PartialEq, Eq, Structural)]
pub enum UploadPhase {
    /// Nothing was sent yet.
    Ready,
    /// The instruction chunk with this index is being sent.
    Instructions(usize),
    /// An event or an interrupt is awaited.
    Waiting,
    /// The weights are being sent.
    Parameters,
    /// All went well.
    Done,
    /// An error ended the upload.
    Failed,
}

/// What to do next in an upload.
#[derive(Debug)]
pub enum UploadAction {
    /// Send the instruction chunk with this index.
    SendInstructions(usize),
    /// Wait two seconds for an event or an interrupt.
    Wait,
    /// Send the weights.
    SendParameters,
    /// The weights are on the device.
    Done,
    /// The upload failed.
    Fail(DeviceError),
}

/// Mathematical view of [`ParamLoader`]. Which executable uploads the weights
/// follows from the model: it is the first one of its kind.
pub struct UploadView {
    /// What the upload will leave behind.
    pub loaded: LoadedView,
    pub phase: UploadPhase,
    /// Events and interrupts so far.
    pub round: u32,
    /// Whether the weights were sent.
    pub params_sent: bool,
}

/// How many instruction chunks upload the weights of a model, if it has such
/// instructions.
pub open spec fn caching_chunks(execs: Seq<ExecView>) -> Option<usize> {
    match first_caching(execs) {
        Some(i) => Some(execs[i as int].instruction_chunks.len() as usize),
        None => None,
    }
}

/// How many instruction chunks an upload sends, if there is anything to upload.
pub open spec fn upload_chunks(v: UploadView) -> Option<usize> {
    caching_chunks(v.loaded.runnable.executables)
}

/// Ends the upload with an error.
pub open spec fn upload_failed(v: UploadView, e: DeviceError) -> (UploadView, UploadAction) {
    (UploadView { phase: UploadPhase::Failed, ..v }, UploadAction::Fail(e))
}

/// Waits for the next event or interrupt. A device that does not complete the
/// upload in twenty of them has not responded in time.
pub open spec fn upload_proceed(v: UploadView, round: u32) -> (UploadView, UploadAction) {
    if round < LOAD_ROUNDS {
        (UploadView { phase: UploadPhase::Waiting, round, ..v }, UploadAction::Wait)
    } else {
        upload_failed(UploadView { round, ..v }, DeviceError::Timeout)
    }
}

/// How an upload begins: with its first instruction chunk. Without
/// instructions that upload weights there is nothing to do.
pub open spec fn upload_start(v: UploadView) -> (UploadView, UploadAction) {
    match upload_chunks(v) {
        None => (UploadView { phase: UploadPhase::Done, ..v }, UploadAction::Done),
        Some(n) => if n == 0 {
            upload_proceed(v, 0)
        } else {
            (
                UploadView { phase: UploadPhase::Instructions(0), ..v },
                UploadAction::SendInstructions(0),
            )
        },
    }
}

/// What an upload does about an event while it waits. Tag 2 asks for the
/// weights; tags 4 to 7 signal completion, which counts once the weights were
/// sent.
pub open spec fn upload_event(v: UploadView, event: Option<TpuEvent>) -> (
    UploadView,
    UploadAction,
) {
    match event {
        None => upload_failed(v, DeviceError::Protocol),
        Some(ev) => if ev.tag == 2 {
            (UploadView { phase: UploadPhase::Parameters, ..v }, UploadAction::SendParameters)
        } else if 4 <= ev.tag <= 7 && v.params_sent {
            (UploadView { phase: UploadPhase::Done, ..v }, UploadAction::Done)
        } else {
            upload_proceed(v, (v.round + 1) as u32)
        },
    }
}

/// What an upload does when its last transfer is complete.
pub open spec fn upload_sent(v: UploadView) -> (UploadView, UploadAction) {
    match v.phase {
        UploadPhase::Instructions(k) => if upload_chunks(v) matches Some(n) && k + 1 < n {
            (
                UploadView { phase: UploadPhase::Instructions((k + 1) as usize), ..v },
                UploadAction::SendInstructions((k + 1) as usize),
            )
        } else {
            upload_proceed(v, v.round)
        },
        _ => upload_proceed(UploadView { params_sent: true, ..v }, (v.round + 1) as u32),
    }
}

/// What an upload does about a reply: its next state and what to do next.
pub open spec fn upload_next(v: UploadView, reply: ReplyView) -> (UploadView, UploadAction) {
    match reply {
        ReplyView::Sent => upload_sent(v),
        ReplyView::Event(b) => upload_event(v, event_of(b)),
        ReplyView::Interrupt => upload_proceed(v, (v.round + 1) as u32),
        ReplyView::TimedOut => upload_failed(v, DeviceError::Timeout),
        ReplyView::Received(_) => upload_failed(v, DeviceError::Protocol),
        ReplyView::Failed(e) => upload_failed(v, DeviceError::Usb(e)),
    }
}

/// Whether a reply answers what an upload is doing.
pub open spec fn upload_answers(phase: UploadPhase, reply: ReplyView) -> bool {
    match phase {
        UploadPhase::Instructions(_) | UploadPhase::Parameters => reply is Sent
            || reply is Failed,
        UploadPhase::Waiting => reply is Event || reply is Interrupt || reply is TimedOut
            || reply is Failed,
        _ => false,
    }
}

/// The states that an upload can be in.
pub open spec fn upload_sound(v: UploadView) -> bool {
    match v.phase {
        UploadPhase::Ready => v.round == 0 && !v.params_sent,
        UploadPhase::Instructions(k) => {
            &&& upload_chunks(v) matches Some(n)
            &&& k < n
            &&& v.round == 0
            &&& !v.params_sent
        },
        UploadPhase::Waiting => upload_chunks(v) is Some && v.round < LOAD_ROUNDS,
        UploadPhase::Parameters => upload_chunks(v) is Some && v.round < LOAD_ROUNDS,
        UploadPhase::Done => upload_chunks(v) is Some ==> v.params_sent,
        UploadPhase::Failed => upload_chunks(v) is Some,
    }
}

/// The upload of a model's weights.
pub struct ParamLoader {
    loaded: LoadedParams,
    caching_idx: Option<usize>,
    phase: UploadPhase,
    round: u32,
    params_sent: bool,
}

impl View for ParamLoader {
    type V = UploadView;

    closed spec fn view(&self) -> UploadView {
        UploadView {
            loaded: self.loaded@,
            phase: self.phase,
            round: self.round,
            params_sent: self.params_sent,
        }
    }
}

/// Whether the executable that would run inferences, if there is one, has a
/// total output size.
pub open spec fn output_is_sized(execs: Seq<ExecView>) -> bool {
    first_runnable(execs) matches Some(i) ==> total_size(execs[i as int].output_layers)
        <= usize::MAX
}

/// Whether the executable that would run inferences, if there is one, has a
/// total output size.
pub fn check_output(model: &TfliteModel) -> (r: bool)
    ensures
        r == output_is_sized(model@),
{
    proof {
        law_first_exec(model@, |t: ExecutableType| super::is_runnable(t));
    }
    match find_runnable(model) {
        Some(i) => {
            let exec: &ExecInfo = &model.executables[i];
            assert(exec@ == model@[i as int]);
            layers_size(&exec.output_layers).is_some()
        },
        None => true,
    }
}

/// Plans the upload of a model's weights and picks the executable that will
/// run inferences.
pub fn load_params(model: Arc<TfliteModel>) -> (r: Result<ParamLoader, DeviceError>)
    requires
        output_is_sized((*model)@),
    ensures
        match r {
            Ok(loader) => {
                &&& loader.wf()
                &&& first_runnable((*model)@) matches Some(i)
                &&& loader@ == upload_fresh(
                    LoadedView {
                        params: cached_params((*model)@),
                        runnable: ExecutionView { executables: (*model)@, index: i },
                        output_size: output_size_of((*model)@[i as int].output_layers) as usize,
                    },
                )
            },
            Err(e) => e == DeviceError::NoExecutable && first_runnable((*model)@) is None,
        },
{
    proof {
        law_first_exec((*model)@, |t: ExecutableType| super::is_caching(t));
        law_first_exec((*model)@, |t: ExecutableType| super::is_runnable(t));
    }
    let caching_idx: Option<usize> = find_caching(&model);
    let execution_idx: usize = match find_runnable(&model) {
        Some(i) => i,
        None => {
            return Err(DeviceError::NoExecutable);
        },
    };
    let execution: &ExecInfo = &model.executables[execution_idx];
    assert(execution@ == (*model)@[execution_idx as int]);
    let total: usize = match layers_size(&execution.output_layers) {
        Some(total) => total,
        None => 0,
    };
    let output_size: usize = if total < 8 {
        8
    } else {
        total
    };
    let params_buf: Vec<u8> = match caching_idx {
        Some(i) => {
            let params: Vec<u8> = model.executables[i].parameters.clone();
            assert(params@ =~= (*model)@[i as int].parameters);
            params
        },
        None => Vec::new(),
    };
    let runnable: Execution = Execution { model, index: execution_idx };
    let loaded: LoadedParams = LoadedParams { params_buf, runnable, output_size };
    Ok(
        ParamLoader {
            loaded,
            caching_idx,
            phase: UploadPhase::Ready,
            round: 0,
            params_sent: false,
        },
    )
}

impl ParamLoader {
    /// The state is one that an upload can be in, and what it will leave behind
    /// is well formed.
    pub closed spec fn wf(&self) -> bool {
        &&& self.loaded.wf()
        &&& upload_sound(self@)
        &&& match self.caching_idx {
            Some(i) => {
                &&& first_caching(self.loaded.runnable@.executables) == Some(i as nat)
                &&& i < (*self.loaded.runnable.model).executables@.len()
            },
            None => first_caching(self.loaded.runnable@.executables) is None,
        }
    }

    /// The weights, as they are sent and as the device reads them.
    pub fn params(&self) -> (r: &Vec<u8>)
        ensures
            r@ == self@.loaded.params,
    {
        &self.loaded.params_buf
    }

    /// Whether all address fields of the upload instructions lie within their
    /// bitstreams.
    pub fn check_chunks(&self) -> (r: bool)
        requires
            self.wf(),
        ensures
            r == match first_caching(self@.loaded.runnable.executables) {
                Some(i) => chunks_fit(
                    self@.loaded.runnable.executables[i as int].instruction_chunks,
                ),
                None => true,
            },
    {
        match self.caching_idx {
            Some(i) => {
                let exec: &ExecInfo = &self.loaded.runnable.model.executables[i];
                assert(exec@ == self.loaded.runnable@.executables[i as int]);
                exec.check_chunks()
            },
            None => true,
        }
    }

    /// The instruction chunks that upload the weights, with the address of the
    /// weights patched in.
    pub fn instructions(&self, params_addr: u64) -> (r: Vec<Vec<u8>>)
        requires
            self.wf(),
            first_caching(self@.loaded.runnable.executables) matches Some(i) ==> chunks_fit(
                self@.loaded.runnable.executables[i as int].instruction_chunks,
            ),
        ensures
            match first_caching(self@.loaded.runnable.executables) {
                Some(i) => all_patched(
                    self@.loaded.runnable.executables[i as int].instruction_chunks,
                    (Addresses { params: params_addr, input: 0, outputs: Map::empty() }),
                    r@,
                ),
                None => r@.len() == 0,
            },
    {
        match self.caching_idx {
            Some(i) => {
                let exec: &ExecInfo = &self.loaded.runnable.model.executables[i];
                assert(exec@ == self.loaded.runnable@.executables[i as int]);
                let outputs: StringHashMap<u64> = StringHashMap::new();
                patch_chunks(exec, params_addr, 0, &outputs)
            },
            None => Vec::new(),
        }
    }

    fn proceed(&mut self) -> (r: UploadAction)
        ensures
            final(self).loaded == old(self).loaded,
            final(self).caching_idx == old(self).caching_idx,
            (final(self)@, r) == upload_proceed(old(self)@, old(self)@.round),
    {
        if self.round < LOAD_ROUNDS {
            self.phase = UploadPhase::Waiting;
            UploadAction::Wait
        } else {
            self.fail(DeviceError::Timeout)
        }
    }

    fn fail(&mut self, e: DeviceError) -> (r: UploadAction)
        ensures
            final(self).loaded == old(self).loaded,
            final(self).caching_idx == old(self).caching_idx,
            (final(self)@, r) == upload_failed(old(self)@, e),
    {
        self.phase = UploadPhase::Failed;
        UploadAction::Fail(e)
    }

    /// Begins the upload.
    pub fn start(&mut self) -> (r: UploadAction)
        requires
            old(self).wf(),
            old(self)@.phase is Ready,
        ensures
            final(self).wf(),
            (final(self)@, r) == upload_start(old(self)@),
    {
        match self.caching_idx {
            None => {
                self.phase = UploadPhase::Done;
                UploadAction::Done
            },
            Some(i) => {
                let n: usize = self.loaded.runnable.model.executables[i].instruction_chunks.len();
                assert((*self.loaded.runnable.model)@[i as int] == (*self.loaded.runnable.model).executables@[
                i as int]@);
                if n == 0 {
                    self.proceed()
                } else {
                    self.phase = UploadPhase::Instructions(0);
                    UploadAction::SendInstructions(0)
                }
            },
        }
    }

    /// Takes the reply to the last request and tells what to do next.
    pub fn next(&mut self, reply: Reply) -> (r: UploadAction)
        requires
            old(self).wf(),
            upload_answers(old(self)@.phase, reply@),
        ensures
            final(self).wf(),
            (final(self)@, r) == upload_next(old(self)@, reply@),
    {
        match reply {
            Reply::Sent => match self.phase {
                UploadPhase::Instructions(k) => {
                    let n: usize = match self.caching_idx {
                        Some(i) => {
                            assert((*self.loaded.runnable.model)@[i as int]
                                == (*self.loaded.runnable.model).executables@[i as int]@);
                            self.loaded.runnable.model.executables[i].instruction_chunks.len()
                        },
                        None => 0,
                    };
                    if k + 1 < n {
                        self.phase = UploadPhase::Instructions(k + 1);
                        UploadAction::SendInstructions(k + 1)
                    } else {
                        self.proceed()
                    }
                },
                _ => {
                    self.params_sent = true;
                    self.round = self.round + 1;
                    self.proceed()
                },
            },
            Reply::Event(b) => match TpuEvent::from_bytes(b.as_slice()) {
                None => self.fail(DeviceError::Protocol),
                Some(ev) => if ev.tag == 2 {
                    self.phase = UploadPhase::Parameters;
                    UploadAction::SendParameters
                } else if 4 <= ev.tag && ev.tag <= 7 && self.params_sent {
                    self.phase = UploadPhase::Done;
                    UploadAction::Done
                } else {
                    self.round = self.round + 1;
                    self.proceed()
                },
            },
            Reply::Interrupt => {
                self.round = self.round + 1;
                self.proceed()
            },
            Reply::TimedOut => self.fail(DeviceError::Timeout),
            Reply::Received(_) => self.fail(DeviceError::Protocol),
            Reply::Failed(e) => self.fail(DeviceError::Usb(e)),
        }
    }

    /// Ends a successful upload.
    pub fn finish(self) -> (r: LoadedParams)
        requires
            self.wf(),
            self@.phase is Done,
        ensures
            r@ == self@.loaded,
            r.wf(),
    {
        self.loaded
    }
}

/// The state of an upload after some replies.
pub open spec fn upload_run(v: UploadView, replies: Seq<ReplyView>) -> UploadView
    decreases replies.len(),
{
    if replies.len() == 0 {
        v
    } else {
        upload_next(upload_run(v, replies.drop_last()), replies.last()).0
    }
}

/// Each reply answers what the upload was doing.
pub open spec fn upload_proper(v: UploadView, replies: Seq<ReplyView>) -> bool
    decreases replies.len(),
{
    replies.len() > 0 ==> upload_proper(v, replies.drop_last()) && upload_answers(
        upload_run(v, replies.drop_last()).phase,
        replies.last(),
    )
}

/// An upload that has not begun.
pub open spec fn upload_fresh(loaded: LoadedView) -> UploadView {
    UploadView { loaded, phase: UploadPhase::Ready, round: 0, params_sent: false }
}

/// The state of an upload that has begun and then got some replies.
pub open spec fn upload_state(loaded: LoadedView, replies: Seq<ReplyView>) -> UploadView {
    upload_run(upload_start(upload_fresh(loaded)).0, replies)
}

/// Each reply to an upload answers what it was doing.
pub open spec fn upload_answered(loaded: LoadedView, replies: Seq<ReplyView>) -> bool {
    upload_proper(upload_start(upload_fresh(loaded)).0, replies)
}

/// How many more replies an upload can take.
spec fn upload_rank(v: UploadView) -> int {
    match v.phase {
        UploadPhase::Instructions(k) => 2 * LOAD_ROUNDS + upload_chunks(v)->Some_0 - k,
        UploadPhase::Waiting => 2 * (LOAD_ROUNDS - v.round),
        UploadPhase::Parameters => 2 * (LOAD_ROUNDS - v.round) - 1,
        _ => 0,
    }
}

proof fn lemma_upload_step(v: UploadView, reply: ReplyView)
    requires
        upload_sound(v),
        upload_answers(v.phase, reply),
    ensures
        upload_sound(upload_next(v, reply).0),
        upload_next(v, reply).0.loaded == v.loaded,
        0 <= upload_rank(upload_next(v, reply).0) < upload_rank(v),
{
}

proof fn lemma_upload_run(loaded: LoadedView, replies: Seq<ReplyView>)
    requires
        upload_answered(loaded, replies),
    ensures
        ({
            let v = upload_state(loaded, replies);
            &&& upload_sound(v)
            &&& v.loaded == loaded
            &&& 0 <= upload_rank(v)
            &&& upload_rank(v) + replies.len() <= match upload_chunks(v) {
                Some(n) => n + 2 * LOAD_ROUNDS,
                None => 0,
            }
        }),
    decreases replies.len(),
{
    if replies.len() > 0 {
        lemma_upload_run(loaded, replies.drop_last());
        lemma_upload_step(upload_state(loaded, replies.drop_last()), replies.last());
    }
}

/// However the device behaves, an upload ends: after its instruction chunks it
/// waits at most twenty times, and sends the weights at most once per wait.
pub proof fn law_upload_is_bounded(loaded: LoadedView, replies: Seq<ReplyView>)
    requires
        upload_answered(loaded, replies),
    ensures
        upload_sound(upload_state(loaded, replies)),
        upload_state(loaded, replies).loaded == loaded,
        match caching_chunks(loaded.runnable.executables) {
            Some(n) => replies.len() <= n + 2 * LOAD_ROUNDS,
            None => replies.len() == 0,
        },
{
    lemma_upload_run(loaded, replies);
}

/// Whether a reply is an event with a tag from `low` to `high`.
pub open spec fn is_event(reply: ReplyView, low: u8, high: u8) -> bool {
    reply matches ReplyView::Event(b) && event_of(b) matches Some(ev) && low <= ev.tag <= high
}

/// Reply `k` acknowledges that the weights were sent, which the event before it
/// asked for.
pub open spec fn sent_weights(loaded: LoadedView, replies: Seq<ReplyView>, k: int) -> bool {
    &&& 1 <= k < replies.len()
    &&& is_event(replies[k - 1], 2, 2)
    &&& upload_state(loaded, replies.take(k)).phase is Parameters
    &&& replies[k] is Sent
}

/// What the replies so far tell about the state of an upload.
spec fn upload_history(loaded: LoadedView, replies: Seq<ReplyView>) -> bool {
    let v = upload_state(loaded, replies);
    &&& v.phase matches UploadPhase::Instructions(k) ==> replies.len() == k
    &&& !(v.phase is Failed) && upload_chunks(v) is Some ==> {
        let n = upload_chunks(v).unwrap();
        &&& v.phase !is Instructions ==> replies.len() >= n
        &&& forall|i: int|
            0 <= i < n && i < replies.len() ==> (#[trigger] replies[i]) is Sent
    }
    &&& v.phase is Parameters ==> replies.len() > 0 && is_event(replies.last(), 2, 2)
    &&& v.params_sent ==> exists|k: int| sent_weights(loaded, replies, k)
    &&& v.phase is Done && upload_chunks(v) is Some ==> {
        &&& is_event(replies.last(), 4, 7)
        &&& exists|k: int| sent_weights(loaded, replies, k) && k < replies.len() - 1
    }
}

proof fn lemma_upload_history(loaded: LoadedView, replies: Seq<ReplyView>)
    requires
        upload_answered(loaded, replies),
    ensures
        upload_history(loaded, replies),
    decreases replies.len(),
{
    lemma_upload_run(loaded, replies);
    if replies.len() > 0 {
        let before = replies.drop_last();
        let last = replies.len() - 1;
        lemma_upload_run(loaded, before);
        lemma_upload_history(loaded, before);
        let u = upload_state(loaded, before);
        let v = upload_state(loaded, replies);
        assert(replies.take(last) =~= before);
        if u.params_sent {
            let k = choose|k: int| sent_weights(loaded, before, k);
            assert(replies.take(k) =~= before.take(k));
            assert(sent_weights(loaded, replies, k) && k < last);
        }
        if u.phase is Parameters && replies.last() is Sent {
            assert(before.last() == replies[last - 1]);
            assert(sent_weights(loaded, replies, last));
        }
        if !(v.phase is Failed) && upload_chunks(v) is Some {
            let n = upload_chunks(v).unwrap();
            assert forall|i: int| 0 <= i < n && i < replies.len() implies (
            #[trigger] replies[i]) is Sent by {
                if i < last {
                    assert(replies[i] == before[i]);
                }
            }
        }
    }
}

/// An upload of weights that ends well has sent all instruction chunks, then
/// the weights when the device asked for them, and then got a completion event.
pub proof fn law_done_means_loaded(loaded: LoadedView, replies: Seq<ReplyView>)
    requires
        upload_answered(loaded, replies),
        upload_state(loaded, replies).phase is Done,
        caching_chunks(loaded.runnable.executables) is Some,
    ensures
        upload_state(loaded, replies).params_sent,
        caching_chunks(loaded.runnable.executables).unwrap() <= replies.len(),
        forall|i: int|
            0 <= i < caching_chunks(loaded.runnable.executables).unwrap() ==> (
            #[trigger] replies[i]) is Sent,
        is_event(replies.last(), 4, 7),
        exists|k: int| sent_weights(loaded, replies, k) && k < replies.len() - 1,
{
    lemma_upload_run(loaded, replies);
    lemma_upload_history(loaded, replies);
}

/// For a model without instructions that upload weights, the upload is a
/// no-op.
pub proof fn law_no_upload_without_instructions(loaded: LoadedView)
    requires
        first_caching(loaded.runnable.executables) is None,
    ensures
        upload_start(upload_fresh(loaded)).1 is Done,
        cached_params(loaded.runnable.executables).len() == 0,
{
}

/// The weights go out only when the device asks for them.
pub proof fn law_upload_answers_requests(v: UploadView, reply: ReplyView)
    ensures
        upload_next(v, reply).1 is SendParameters ==> is_event(reply, 2, 2),
{
}

/// Replies that acknowledge `k` transfers.
pub open spec fn sent_replies(k: nat) -> Seq<ReplyView> {
    Seq::new(k, |i: int| ReplyView::Sent)
}

/// The instruction chunks go out first, all of them, in order.
pub proof fn law_upload_sends_instructions_in_order(loaded: LoadedView, k: nat)
    requires
        caching_chunks(loaded.runnable.executables) matches Some(n) && 0 < n && k <= n,
    ensures
        upload_answered(loaded, sent_replies(k)),
        upload_state(loaded, sent_replies(k)) == (UploadView {
            phase: if k < caching_chunks(loaded.runnable.executables).unwrap() {
                UploadPhase::Instructions(k as usize)
            } else {
                UploadPhase::Waiting
            },
            ..upload_fresh(loaded)
        }),
    decreases k,
{
    if k > 0 {
        law_upload_sends_instructions_in_order(loaded, (k - 1) as nat);
        assert(sent_replies(k).drop_last() =~= sent_replies((k - 1) as nat));
    }
}

/// While it waits, an upload does what each event asks for, in every round. Tag
/// 2 is answered with the weights, whether or not they were sent before, and
/// one of the tags 4 to 7 completes the upload once the weights were sent.
/// Anything else only uses up one of twenty rounds, and a short event is an
/// error.
pub proof fn law_upload_does_what_events_ask(v: UploadView, b: Seq<u8>)
    requires
        v.phase is Waiting,
        v.round < 20,
    ensures
        ({
            let (w, action) = upload_next(v, ReplyView::Event(b));
            let tag = b[12] % 16;
            let completes = 4 <= tag <= 7 && v.params_sent;
            &&& b.len() < 13 ==> action == UploadAction::Fail(DeviceError::Protocol) && w == (
            UploadView { phase: UploadPhase::Failed, ..v })
            &&& b.len() >= 13 && tag == 2 ==> action is SendParameters && w == (UploadView {
                phase: UploadPhase::Parameters,
                ..v
            })
            &&& b.len() >= 13 && completes ==> action is Done && w == (UploadView {
                phase: UploadPhase::Done,
                ..v
            })
            &&& b.len() >= 13 && tag != 2 && !completes && v.round < 19 ==> action is Wait && w == (
            UploadView { round: (v.round + 1) as u32, ..v })
            &&& b.len() >= 13 && tag != 2 && !completes && v.round == 19 ==> action
                == UploadAction::Fail(DeviceError::Timeout) && w.phase is Failed
        }),
{
    crate::usb::transfer::law_event_bytes(b);
}

/// What the other replies lead to. That the weights were sent is remembered; it
/// uses up one of twenty rounds, and so does an interrupt.
pub proof fn law_upload_replies(v: UploadView, e: crate::usb::TransferError)
    requires
        v.round < 20,
    ensures
        upload_next(v, ReplyView::Interrupt) == if v.round < 19 {
            (
                UploadView { phase: UploadPhase::Waiting, round: (v.round + 1) as u32, ..v },
                UploadAction::Wait,
            )
        } else {
            (
                UploadView { phase: UploadPhase::Failed, round: 20, ..v },
                UploadAction::Fail(DeviceError::Timeout),
            )
        },
        v.phase is Parameters ==> upload_next(v, ReplyView::Sent) == upload_next(
            UploadView { params_sent: true, ..v },
            ReplyView::Interrupt,
        ),
        upload_next(v, ReplyView::TimedOut) == (
            UploadView { phase: UploadPhase::Failed, ..v },
            UploadAction::Fail(DeviceError::Timeout),
        ),
        upload_next(v, ReplyView::Failed(e)) == (
            UploadView { phase: UploadPhase::Failed, ..v },
            UploadAction::Fail(DeviceError::Usb(e)),
        ),
        forall|chunk: Seq<u8>|
            (#[trigger] upload_next(v, ReplyView::Received(chunk))).1 == UploadAction::Fail(
                DeviceError::Protocol,
            ),
{
}

/// An upload has as many instruction chunks as the first parameter-caching
/// executable, begins with the first of them and sends one after the other;
/// after the last one it waits.
pub proof fn law_upload_instructions(v: UploadView, i: nat, k: usize)
    requires
        v.round == 0,
        first_caching(v.loaded.runnable.executables) == Some(i),
        v.loaded.runnable.executables[i as int].instruction_chunks.len() <= usize::MAX,
        k < v.loaded.runnable.executables[i as int].instruction_chunks.len(),
    ensures
        ({
            let n = v.loaded.runnable.executables[i as int].instruction_chunks.len();
            &&& upload_start(v) == (
                UploadView { phase: UploadPhase::Instructions(0), ..v },
                UploadAction::SendInstructions(0),
            )
            &&& v.phase == UploadPhase::Instructions(k) ==> upload_next(v, ReplyView::Sent) == if k
                + 1 < n {
                (
                    UploadView { phase: UploadPhase::Instructions((k + 1) as usize), ..v },
                    UploadAction::SendInstructions((k + 1) as usize),
                )
            } else {
                (UploadView { phase: UploadPhase::Waiting, ..v }, UploadAction::Wait)
            }
        }),
{
}

/// Without any instruction chunks an upload waits at once if there is a
/// parameter-caching executable, and is done if there is none.
pub proof fn law_upload_without_instructions(v: UploadView)
    ensures
        first_caching(v.loaded.runnable.executables) matches Some(i)
            && v.loaded.runnable.executables[i as int].instruction_chunks.len() == 0
            ==> upload_start(v) == (
            UploadView { phase: UploadPhase::Waiting, round: 0, ..v },
            UploadAction::Wait,
        ),
        first_caching(v.loaded.runnable.executables) is None ==> upload_start(v) == (
            UploadView { phase: UploadPhase::Done, ..v },
            UploadAction::Done,
        ),
{
}

/// An upload that has not begun has used up no round and sent no weights.
pub proof fn law_upload_fresh(loaded: LoadedView)
    ensures
        upload_fresh(loaded).loaded == loaded,
        upload_fresh(loaded).phase is Ready,
        upload_fresh(loaded).round == 0,
        !upload_fresh(loaded).params_sent,
{
}

/// Which replies an upload takes: what was sent, where something was, and an
/// event, an interrupt or nothing where it waited. Every transfer can fail.
pub proof fn law_upload_takes_replies(phase: UploadPhase, reply: ReplyView)
    ensures
        upload_answers(phase, reply) <==> match reply {
            ReplyView::Sent => phase is Instructions || phase is Parameters,
            ReplyView::Event(_) | ReplyView::Interrupt | ReplyView::TimedOut => phase is Waiting,
            ReplyView::Received(_) => false,
            ReplyView::Failed(_) => phase is Instructions || phase is Parameters || phase is Waiting,
        },
{
}

/// The output of a model has a size where the output layers of the executable
/// that runs inferences do not exceed `usize` together.
pub proof fn law_output_is_sized(execs: Seq<ExecView>)
    ensures
        output_is_sized(execs) <==> match first_runnable(execs) {
            Some(i) => total_size(execs[i as int].output_layers) <= usize::MAX,
            None => true,
        },
{
}

} // verus!
