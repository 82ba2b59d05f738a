//! Loading a compiled model, one decoding request at a time.
//!
//! Decoding FlatBuffers and FlexBuffers is outside work. A [`ModelLoader`]
//! decides what has to be decoded next, checks what came back and, in the end,
//! holds the parsed model or the reason why there is none.

use vstd::prelude::*;

use crate::model::{
    bytes_or_empty, executable_of, parse_executable, ExecInfo, ExecView, ExecutableTable,
    TfliteModel,
};
use crate::text::{decimal, numeral, push_decimal};

verus! {

/// Contents of a TFLite `OperatorCode` table.
#[derive(Debug)]
pub struct OperatorCodeTable {
    pub custom_code: Option<String>,
}

/// Contents of a TFLite `Operator` table.
#[derive(Debug)]
pub struct OperatorTable {
    pub custom_options: Option<Vec<u8>>,
}

/// Contents of a TFLite `SubGraph` table.
#[derive(Debug)]
pub struct SubGraphTable {
    pub operators: Option<Vec<OperatorTable>>,
}

/// Contents of a TFLite `Model` table.
#[derive(Debug)]
pub struct ModelTable {
    pub subgraphs: Option<Vec<SubGraphTable>>,
    pub operator_codes: Option<Vec<OperatorCodeTable>>,
}

/// Contents of a DarwiNN `Package` table.
#[derive(Debug)]
pub struct PackageTable {
    pub serialized_multi_executable: Option<Vec<u8>>,
}

/// Contents of a DarwiNN `MultiExecutable` table.
#[derive(Debug)]
pub struct MultiExecutableTable {
    pub serialized_executables: Option<Vec<Vec<u8>>>,
}

/// Why a model could not be loaded. The variants that hold a string carry the
/// message of the read or decoding error.
#[derive(Debug)]
pub enum LoadError {
    Io(String),
    Model(String),
    SubgraphCount,
    OperatorCodeCount,
    CustomCode,
    OperatorCount,
    FlexBuffer(String),
    PackageAbsent,
    Package(String),
    MultiExecutableAbsent,
    ExecutablesAbsent,
    Executable { index: usize, message: String },
}

/// The message of a load error.
pub open spec fn load_error_text(e: LoadError) -> Seq<char> {
    match e {
        LoadError::Io(message) => message@,
        LoadError::Model(message) => message@,
        LoadError::SubgraphCount => "Expected exactly 1 subgraph in the TFLite model"@,
        LoadError::OperatorCodeCount => "Expected exactly 1 operator code in the TFLite model"@,
        LoadError::CustomCode => "Expected operator code with custom_code 'edgetpu-custom-op'"@,
        LoadError::OperatorCount => "Expected exactly 1 operator in the subgraph"@,
        LoadError::FlexBuffer(message) => "FlexBuffer parse error: "@ + message@,
        LoadError::PackageAbsent => "FlexBuffer key '4' (serialized Package) is absent or empty"@,
        LoadError::Package(message) => "Package parse error: "@ + message@,
        LoadError::MultiExecutableAbsent => "Package.serialized_multi_executable is absent"@,
        LoadError::ExecutablesAbsent => "MultiExecutable.serialized_executables is absent"@,
        LoadError::Executable { index, message } => "Executable["@ + decimal(index as nat)
            + "] parse error: "@ + message@,
    }
}

impl LoadError {
    /// The error message.
    pub fn to_string(&self) -> (r: String)
        ensures
            r@ == load_error_text(*self),
    {
        match self {
            LoadError::Io(message) => message.clone(),
            LoadError::Model(message) => message.clone(),
            LoadError::SubgraphCount => "Expected exactly 1 subgraph in the TFLite model".to_string(),
            LoadError::OperatorCodeCount => {
                "Expected exactly 1 operator code in the TFLite model".to_string()
            },
            LoadError::CustomCode => {
                "Expected operator code with custom_code 'edgetpu-custom-op'".to_string()
            },
            LoadError::OperatorCount => "Expected exactly 1 operator in the subgraph".to_string(),
            LoadError::FlexBuffer(message) => {
                let mut r = "FlexBuffer parse error: ".to_string();
                r.append(message.as_str());
                r
            },
            LoadError::PackageAbsent => {
                "FlexBuffer key '4' (serialized Package) is absent or empty".to_string()
            },
            LoadError::Package(message) => {
                let mut r = "Package parse error: ".to_string();
                r.append(message.as_str());
                r
            },
            LoadError::MultiExecutableAbsent => {
                "Package.serialized_multi_executable is absent".to_string()
            },
            LoadError::ExecutablesAbsent => {
                "MultiExecutable.serialized_executables is absent".to_string()
            },
            LoadError::Executable { index, message } => {
                let mut r = "Executable[".to_string();
                push_decimal(&mut r, *index as u64);
                r.append("] parse error: ");
                r.append(message.as_str());
                r
            },
        }
    }
}

/// What is wrong with the shape of a TFLite model, in the order in which it is
/// checked: subgraphs, operator codes, the custom code, operators.
pub open spec fn model_fault(t: ModelTable) -> Option<LoadError> {
    if !(t.subgraphs matches Some(s) && s@.len() == 1) {
        Some(LoadError::SubgraphCount)
    } else if !(t.operator_codes matches Some(c) && c@.len() == 1) {
        Some(LoadError::OperatorCodeCount)
    } else if !(t.operator_codes.unwrap()@[0].custom_code matches Some(code) && code@
        == "edgetpu-custom-op"@) {
        Some(LoadError::CustomCode)
    } else if !(t.subgraphs.unwrap()@[0].operators matches Some(o) && o@.len() == 1) {
        Some(LoadError::OperatorCount)
    } else {
        None
    }
}

/// The options of the only operator of a model.
pub open spec fn model_options(t: ModelTable) -> Seq<u8> {
    bytes_or_empty(t.subgraphs.unwrap()@[0].operators.unwrap()@[0].custom_options)
}

/// Checks that a TFLite model holds exactly one Edge TPU operator and takes out
/// that operator's options.
pub fn operator_options(model: &ModelTable) -> (r: Result<Vec<u8>, LoadError>)
    ensures
        match model_fault(*model) {
            Some(e) => r == Err::<Vec<u8>, LoadError>(e),
            None => r matches Ok(options) && options@ == model_options(*model),
        },
{
    let subgraph = match &model.subgraphs {
        Some(s) => {
            if s.len() != 1 {
                return Err(LoadError::SubgraphCount);
            }
            &s[0]
        },
        None => {
            return Err(LoadError::SubgraphCount);
        },
    };
    let opcode = match &model.operator_codes {
        Some(c) => {
            if c.len() != 1 {
                return Err(LoadError::OperatorCodeCount);
            }
            &c[0]
        },
        None => {
            return Err(LoadError::OperatorCodeCount);
        },
    };
    let is_edgetpu = match &opcode.custom_code {
        Some(code) => *code == "edgetpu-custom-op".to_string(),
        None => false,
    };
    if !is_edgetpu {
        return Err(LoadError::CustomCode);
    }
    let operator = match &subgraph.operators {
        Some(o) => {
            if o.len() != 1 {
                return Err(LoadError::OperatorCount);
            }
            &o[0]
        },
        None => {
            return Err(LoadError::OperatorCount);
        },
    };
    match &operator.custom_options {
        Some(v) => {
            let options = v.clone();
            assert(options@ =~= v@);
            Ok(options)
        },
        None => Ok(Vec::new()),
    }
}

/// What a [`ModelLoader`] waits for.
#[derive(Debug, Clone, Copy, PartialEq, Eq, Structural)]
pub enum LoadStage {
    File,
    Model,
    FlexString,
    Package,
    MultiExecutable,
    Executable,
    Finished,
}

/// What a [`ModelLoader`] asks for next, or how it ended.
#[derive(Debug)]
pub enum LoadStep {
    /// Decode these bytes, the whole file, as a TFLite `Model`.
    DecodeModel(Vec<u8>),
    /// Read these bytes as a FlexBuffer map and take the string bytes under the
    /// key `4`; a value that is absent or no string reads as no bytes.
    ReadFlexString(Vec<u8>),
    /// Decode these bytes as a DarwiNN `Package`.
    DecodePackage(Vec<u8>),
    /// Decode these bytes as a DarwiNN `MultiExecutable`.
    DecodeMultiExecutable(Vec<u8>),
    /// Decode these bytes as the DarwiNN `Executable` of this index.
    DecodeExecutable { index: usize, bytes: Vec<u8> },
    /// The model is complete.
    Loaded(TfliteModel),
    /// The model cannot be loaded.
    Failed(LoadError),
}

/// What came back from a request of a [`ModelLoader`]: the decoded contents, or
/// the message of the error.
#[derive(Debug)]
pub enum LoadReply {
    File(Result<Vec<u8>, String>),
    Model(Result<ModelTable, String>),
    FlexString(Result<Vec<u8>, String>),
    Package(Result<PackageTable, String>),
    MultiExecutable(MultiExecutableTable),
    Executable(Result<ExecutableTable, String>),
}

/// Mathematical view of [`LoadStep`].
pub enum StepView {
    DecodeModel(Seq<u8>),
    ReadFlexString(Seq<u8>),
    DecodePackage(Seq<u8>),
    DecodeMultiExecutable(Seq<u8>),
    DecodeExecutable { index: nat, bytes: Seq<u8> },
    Loaded(Seq<ExecView>),
    Failed(LoadError),
}

impl View for LoadStep {
    type V = StepView;

    open spec fn view(&self) -> StepView {
        match *self {
            LoadStep::DecodeModel(b) => StepView::DecodeModel(b@),
            LoadStep::ReadFlexString(b) => StepView::ReadFlexString(b@),
            LoadStep::DecodePackage(b) => StepView::DecodePackage(b@),
            LoadStep::DecodeMultiExecutable(b) => StepView::DecodeMultiExecutable(b@),
            LoadStep::DecodeExecutable { index, bytes } => StepView::DecodeExecutable {
                index: index as nat,
                bytes: bytes@,
            },
            LoadStep::Loaded(m) => StepView::Loaded(m@),
            LoadStep::Failed(e) => StepView::Failed(e),
        }
    }
}

/// A model being loaded.
pub struct ModelLoader {
    stage: LoadStage,
    /// The serialized executables, once they are known.
    blobs: Vec<Vec<u8>>,
    /// The executables parsed so far.
    executables: Vec<ExecInfo>,
}

/// Mathematical view of [`ModelLoader`].
pub struct LoaderView {
    pub stage: LoadStage,
    pub blobs: Seq<Seq<u8>>,
    pub executables: Seq<ExecView>,
}

impl View for ModelLoader {
    type V = LoaderView;

    closed spec fn view(&self) -> LoaderView {
        LoaderView {
            stage: self.stage,
            blobs: self.blobs@.map_values(|b: Vec<u8>| b@),
            executables: self.executables@.map_values(|e: ExecInfo| e@),
        }
    }
}

/// Whether `reply` answers what a loader in stage `stage` waits for.
pub open spec fn answers(stage: LoadStage, reply: LoadReply) -> bool {
    match reply {
        LoadReply::File(_) => stage == LoadStage::File,
        LoadReply::Model(_) => stage == LoadStage::Model,
        LoadReply::FlexString(_) => stage == LoadStage::FlexString,
        LoadReply::Package(_) => stage == LoadStage::Package,
        LoadReply::MultiExecutable(_) => stage == LoadStage::MultiExecutable,
        LoadReply::Executable(_) => stage == LoadStage::Executable,
    }
}

/// A loader that has failed.
pub open spec fn failed(v: LoaderView, e: LoadError) -> (LoaderView, StepView) {
    (LoaderView { stage: LoadStage::Finished, ..v }, StepView::Failed(e))
}

/// A loader that asks for its next executable, or is done when there is none.
pub open spec fn next_executable(v: LoaderView) -> (LoaderView, StepView) {
    if v.executables.len() < v.blobs.len() {
        (
            LoaderView { stage: LoadStage::Executable, ..v },
            StepView::DecodeExecutable {
                index: v.executables.len(),
                bytes: v.blobs[v.executables.len() as int],
            },
        )
    } else {
        (
            LoaderView { stage: LoadStage::Finished, executables: Seq::empty(), ..v },
            StepView::Loaded(v.executables),
        )
    }
}

/// What a loader does with a reply: its next state and its next step.
pub open spec fn load_step(v: LoaderView, reply: LoadReply) -> (LoaderView, StepView) {
    match reply {
        LoadReply::File(Err(m)) => failed(v, LoadError::Io(m)),
        LoadReply::File(Ok(bytes)) => (
            LoaderView { stage: LoadStage::Model, ..v },
            StepView::DecodeModel(bytes@),
        ),
        LoadReply::Model(Err(m)) => failed(v, LoadError::Model(m)),
        LoadReply::Model(Ok(t)) => match model_fault(t) {
            Some(e) => failed(v, e),
            None => (
                LoaderView { stage: LoadStage::FlexString, ..v },
                StepView::ReadFlexString(model_options(t)),
            ),
        },
        LoadReply::FlexString(Err(m)) => failed(v, LoadError::FlexBuffer(m)),
        LoadReply::FlexString(Ok(bytes)) => if bytes@.len() == 0 {
            failed(v, LoadError::PackageAbsent)
        } else {
            (LoaderView { stage: LoadStage::Package, ..v }, StepView::DecodePackage(bytes@))
        },
        LoadReply::Package(Err(m)) => failed(v, LoadError::Package(m)),
        LoadReply::Package(Ok(t)) => match t.serialized_multi_executable {
            Some(bytes) => (
                LoaderView { stage: LoadStage::MultiExecutable, ..v },
                StepView::DecodeMultiExecutable(bytes@),
            ),
            None => failed(v, LoadError::MultiExecutableAbsent),
        },
        LoadReply::MultiExecutable(t) => match t.serialized_executables {
            Some(blobs) => next_executable(
                LoaderView { blobs: blobs@.map_values(|b: Vec<u8>| b@), ..v },
            ),
            None => failed(v, LoadError::ExecutablesAbsent),
        },
        LoadReply::Executable(Err(message)) => failed(
            v,
            LoadError::Executable { index: v.executables.len() as usize, message },
        ),
        LoadReply::Executable(Ok(t)) => next_executable(
            LoaderView { executables: v.executables.push(executable_of(t)), ..v },
        ),
    }
}

/// A loader that waits for the bytes of the file.
pub open spec fn fresh() -> LoaderView {
    LoaderView { stage: LoadStage::File, blobs: Seq::empty(), executables: Seq::empty() }
}

/// Starts loading a model. `file` is the outcome of reading the `.tflite` file:
/// its bytes, or the message of the I/O error.
pub fn load_tflite_model(file: Result<Vec<u8>, String>) -> (r: (ModelLoader, LoadStep))
    ensures
        (r.0@, r.1@) == load_step(fresh(), LoadReply::File(file)),
{
    let mut loader = ModelLoader::new();
    let step = loader.next(LoadReply::File(file));
    (loader, step)
}

impl ModelLoader {
    /// A loader that waits for the bytes of the file.
    pub fn new() -> (r: ModelLoader)
        ensures
            r@ == fresh(),
    {
        let r = ModelLoader {
            stage: LoadStage::File,
            blobs: Vec::new(),
            executables: Vec::new(),
        };
        assert(r@.blobs =~= Seq::empty());
        assert(r@.executables =~= Seq::empty());
        r
    }

    /// What the loader waits for.
    pub fn stage(&self) -> (r: LoadStage)
        ensures
            r == self@.stage,
    {
        self.stage
    }

    /// Asks for the next executable, or ends with the model.
    fn advance(&mut self) -> (r: LoadStep)
        ensures
            (final(self)@, r@) == next_executable(old(self)@),
    {
        let index: usize = self.executables.len();
        if index < self.blobs.len() {
            self.stage = LoadStage::Executable;
            let bytes = self.blobs[index].clone();
            assert(bytes@ =~= self.blobs@[index as int]@);
            LoadStep::DecodeExecutable { index, bytes }
        } else {
            self.stage = LoadStage::Finished;
            let mut executables: Vec<ExecInfo> = Vec::new();
            std::mem::swap(&mut executables, &mut self.executables);
            assert(self@.executables =~= Seq::empty());
            LoadStep::Loaded(TfliteModel { executables })
        }
    }

    /// Ends with an error.
    fn fail(&mut self, e: LoadError) -> (r: LoadStep)
        ensures
            (final(self)@, r@) == failed(old(self)@, e),
    {
        self.stage = LoadStage::Finished;
        LoadStep::Failed(e)
    }

    /// Takes the reply to the last request and tells what to do next.
    pub fn next(&mut self, reply: LoadReply) -> (r: LoadStep)
        requires
            answers(old(self)@.stage, reply),
        ensures
            (final(self)@, r@) == load_step(old(self)@, reply),
    {
        match reply {
            LoadReply::File(Err(m)) => self.fail(LoadError::Io(m)),
            LoadReply::File(Ok(bytes)) => {
                self.stage = LoadStage::Model;
                LoadStep::DecodeModel(bytes)
            },
            LoadReply::Model(Err(m)) => self.fail(LoadError::Model(m)),
            LoadReply::Model(Ok(t)) => match operator_options(&t) {
                Ok(options) => {
                    self.stage = LoadStage::FlexString;
                    LoadStep::ReadFlexString(options)
                },
                Err(e) => self.fail(e),
            },
            LoadReply::FlexString(Err(m)) => self.fail(LoadError::FlexBuffer(m)),
            LoadReply::FlexString(Ok(bytes)) => {
                if bytes.len() == 0 {
                    self.fail(LoadError::PackageAbsent)
                } else {
                    self.stage = LoadStage::Package;
                    LoadStep::DecodePackage(bytes)
                }
            },
            LoadReply::Package(Err(m)) => self.fail(LoadError::Package(m)),
            LoadReply::Package(Ok(t)) => match t.serialized_multi_executable {
                Some(bytes) => {
                    self.stage = LoadStage::MultiExecutable;
                    LoadStep::DecodeMultiExecutable(bytes)
                },
                None => self.fail(LoadError::MultiExecutableAbsent),
            },
            LoadReply::MultiExecutable(t) => match t.serialized_executables {
                Some(blobs) => {
                    self.blobs = blobs;
                    self.advance()
                },
                None => self.fail(LoadError::ExecutablesAbsent),
            },
            LoadReply::Executable(Err(message)) => {
                let index: usize = self.executables.len();
                self.fail(LoadError::Executable { index, message })
            },
            LoadReply::Executable(Ok(t)) => {
                let ghost before = self@;
                self.executables.push(parse_executable(&t));
                assert(self@.executables =~= before.executables.push(executable_of(t)));
                self.advance()
            },
        }
    }
}

/// The state of a loader after a sequence of replies.
pub open spec fn state_after(v: LoaderView, replies: Seq<LoadReply>) -> LoaderView
    decreases replies.len(),
{
    if replies.len() == 0 {
        v
    } else {
        load_step(state_after(v, replies.drop_last()), replies.last()).0
    }
}

/// The step that a loader takes upon the last of a sequence of replies.
pub open spec fn step_after(v: LoaderView, replies: Seq<LoadReply>) -> StepView {
    load_step(state_after(v, replies.drop_last()), replies.last()).1
}

/// The stage in which a loader waits after a step.
pub open spec fn stage_of(step: StepView) -> LoadStage {
    match step {
        StepView::DecodeModel(_) => LoadStage::Model,
        StepView::ReadFlexString(_) => LoadStage::FlexString,
        StepView::DecodePackage(_) => LoadStage::Package,
        StepView::DecodeMultiExecutable(_) => LoadStage::MultiExecutable,
        StepView::DecodeExecutable { .. } => LoadStage::Executable,
        StepView::Loaded(_) => LoadStage::Finished,
        StepView::Failed(_) => LoadStage::Finished,
    }
}

/// After every step a loader waits for the reply to that very step, and for
/// nothing once it has ended.
pub proof fn law_step_names_stage(v: LoaderView, reply: LoadReply)
    ensures
        load_step(v, reply).0.stage == stage_of(load_step(v, reply).1),
{
}

/// The replies up to and with the decoded `MultiExecutable`.
pub open spec fn opening_replies(
    file: Vec<u8>,
    model: ModelTable,
    string: Vec<u8>,
    package: PackageTable,
    multi: MultiExecutableTable,
) -> Seq<LoadReply> {
    seq![
        LoadReply::File(Ok(file)),
        LoadReply::Model(Ok(model)),
        LoadReply::FlexString(Ok(string)),
        LoadReply::Package(Ok(package)),
        LoadReply::MultiExecutable(multi),
    ]
}

/// The replies that hand back decoded executables.
pub open spec fn executable_replies(tables: Seq<ExecutableTable>) -> Seq<LoadReply> {
    tables.map_values(|t: ExecutableTable| LoadReply::Executable(Ok(t)))
}

/// The executables that decoded tables describe.
pub open spec fn executables_of(tables: Seq<ExecutableTable>) -> Seq<ExecView> {
    tables.map_values(|t: ExecutableTable| executable_of(t))
}

/// The file, the model, its package and the list of executables are sound.
pub open spec fn opens(
    model: ModelTable,
    string: Vec<u8>,
    package: PackageTable,
    multi: MultiExecutableTable,
) -> bool {
    &&& model_fault(model) is None
    &&& string@.len() > 0
    &&& package.serialized_multi_executable is Some
    &&& multi.serialized_executables is Some
}

/// The loader after the opening replies: it goes on with the first executable.
proof fn lemma_opening(
    file: Vec<u8>,
    model: ModelTable,
    string: Vec<u8>,
    package: PackageTable,
    multi: MultiExecutableTable,
)
    requires
        opens(model, string, package, multi),
    ensures
        ({
            let opening = opening_replies(file, model, string, package, multi);
            (state_after(fresh(), opening), step_after(fresh(), opening)) == next_executable(
                LoaderView {
                    stage: LoadStage::MultiExecutable,
                    blobs: multi.serialized_executables.unwrap()@.map_values(|b: Vec<u8>| b@),
                    executables: Seq::empty(),
                },
            )
        }),
{
    let opening = opening_replies(file, model, string, package, multi);
    assert(opening.drop_last() =~= opening.take(4));
    assert(opening.take(4).drop_last() =~= opening.take(3));
    assert(opening.take(3).drop_last() =~= opening.take(2));
    assert(opening.take(2).drop_last() =~= opening.take(1));
    assert(opening.take(1).drop_last() =~= Seq::empty());
    reveal_with_fuel(state_after, 6);
}

/// The loader after the opening replies and some, but not all, executables.
proof fn lemma_state_midway(
    file: Vec<u8>,
    model: ModelTable,
    string: Vec<u8>,
    package: PackageTable,
    multi: MultiExecutableTable,
    tables: Seq<ExecutableTable>,
)
    requires
        opens(model, string, package, multi),
        tables.len() < multi.serialized_executables.unwrap()@.len(),
    ensures
        state_after(
            fresh(),
            opening_replies(file, model, string, package, multi) + executable_replies(tables),
        ) == (LoaderView {
            stage: LoadStage::Executable,
            blobs: multi.serialized_executables.unwrap()@.map_values(|b: Vec<u8>| b@),
            executables: executables_of(tables),
        }),
    decreases tables.len(),
{
    let opening = opening_replies(file, model, string, package, multi);
    let all = opening + executable_replies(tables);
    if tables.len() == 0 {
        assert(all =~= opening);
        lemma_opening(file, model, string, package, multi);
        assert(executables_of(tables) =~= Seq::empty());
    } else {
        let before = tables.drop_last();
        lemma_state_midway(file, model, string, package, multi, before);
        assert(all.drop_last() =~= opening + executable_replies(before));
        assert(all.last() == LoadReply::Executable(Ok(tables.last())));
        assert(executables_of(tables) =~= executables_of(before).push(
            executable_of(tables.last()),
        ));
    }
}

/// A model whose opening is sound and whose executables all decode is loaded,
/// with exactly those executables in their order.
pub proof fn law_loads_all_executables(
    file: Vec<u8>,
    model: ModelTable,
    string: Vec<u8>,
    package: PackageTable,
    multi: MultiExecutableTable,
    tables: Seq<ExecutableTable>,
)
    requires
        opens(model, string, package, multi),
        tables.len() == multi.serialized_executables.unwrap()@.len(),
    ensures
        step_after(
            fresh(),
            opening_replies(file, model, string, package, multi) + executable_replies(tables),
        ) == StepView::Loaded(executables_of(tables)),
{
    let opening = opening_replies(file, model, string, package, multi);
    let all = opening + executable_replies(tables);
    if tables.len() == 0 {
        assert(all =~= opening);
        lemma_opening(file, model, string, package, multi);
        assert(executables_of(tables) =~= Seq::empty());
    } else {
        let before = tables.drop_last();
        lemma_state_midway(file, model, string, package, multi, before);
        assert(all.drop_last() =~= opening + executable_replies(before));
        assert(all.last() == LoadReply::Executable(Ok(tables.last())));
        assert(executables_of(tables) =~= executables_of(before).push(
            executable_of(tables.last()),
        ));
    }
}

/// While executables are missing, the loader asks for the next one in order and
/// with its own bytes; if that one does not decode, loading fails and names its
/// index.
pub proof fn law_executables_in_order(
    file: Vec<u8>,
    model: ModelTable,
    string: Vec<u8>,
    package: PackageTable,
    multi: MultiExecutableTable,
    tables: Seq<ExecutableTable>,
    message: String,
)
    requires
        opens(model, string, package, multi),
        tables.len() < multi.serialized_executables.unwrap()@.len(),
    ensures
        step_after(
            fresh(),
            opening_replies(file, model, string, package, multi) + executable_replies(tables),
        ) == (StepView::DecodeExecutable {
            index: tables.len(),
            bytes: multi.serialized_executables.unwrap()@[tables.len() as int]@,
        }),
        load_step(
            state_after(
                fresh(),
                opening_replies(file, model, string, package, multi) + executable_replies(tables),
            ),
            LoadReply::Executable(Err(message)),
        ).1 == StepView::Failed(
            LoadError::Executable { index: tables.len() as usize, message },
        ),
{
    let opening = opening_replies(file, model, string, package, multi);
    let all = opening + executable_replies(tables);
    lemma_state_midway(file, model, string, package, multi, tables);
    if tables.len() == 0 {
        assert(all =~= opening);
        lemma_opening(file, model, string, package, multi);
    } else {
        let before = tables.drop_last();
        lemma_state_midway(file, model, string, package, multi, before);
        assert(all.drop_last() =~= opening + executable_replies(before));
        assert(all.last() == LoadReply::Executable(Ok(tables.last())));
    }
}

/// A model has the right shape exactly when it has one subgraph with one
/// operator and one operator code, the one for the Edge TPU. What is wrong is
/// reported in the order subgraphs, operator codes, custom code, operators.
pub proof fn law_model_shape(t: ModelTable)
    ensures
        ({
            let one_subgraph = t.subgraphs is Some && t.subgraphs.unwrap()@.len() == 1;
            let one_code = t.operator_codes is Some && t.operator_codes.unwrap()@.len() == 1;
            let code = t.operator_codes.unwrap()@[0].custom_code;
            let edge_tpu = code is Some && code.unwrap()@ == "edgetpu-custom-op"@;
            let operators = t.subgraphs.unwrap()@[0].operators;
            let one_operator = operators is Some && operators.unwrap()@.len() == 1;
            &&& model_fault(t) is None <==> one_subgraph && one_code && edge_tpu && one_operator
            &&& model_fault(t) == Some(LoadError::SubgraphCount) <==> !one_subgraph
            &&& model_fault(t) == Some(LoadError::OperatorCodeCount) <==> one_subgraph && !one_code
            &&& model_fault(t) == Some(LoadError::CustomCode) <==> one_subgraph && one_code
                && !edge_tpu
            &&& model_fault(t) == Some(LoadError::OperatorCount) <==> one_subgraph && one_code
                && edge_tpu && !one_operator
            &&& one_subgraph && one_operator && operators.unwrap()@[0].custom_options is Some
                ==> model_options(t) == operators.unwrap()@[0].custom_options.unwrap()@
            &&& one_subgraph && one_operator && operators.unwrap()@[0].custom_options is None
                ==> model_options(t) == Seq::<u8>::empty()
        }),
{
}

/// A loader asks for the decoding of exactly the bytes that the last reply
/// brought.
pub proof fn law_requests_pass_bytes_on(
    v: LoaderView,
    file: Vec<u8>,
    model: ModelTable,
    string: Vec<u8>,
    package: PackageTable,
    multi: MultiExecutableTable,
)
    ensures
        load_step(v, LoadReply::File(Ok(file))).1 == StepView::DecodeModel(file@),
        model_fault(model) is None ==> load_step(v, LoadReply::Model(Ok(model))).1
            == StepView::ReadFlexString(model_options(model)),
        string@.len() > 0 ==> load_step(v, LoadReply::FlexString(Ok(string))).1
            == StepView::DecodePackage(string@),
        package.serialized_multi_executable matches Some(b) ==> load_step(
            v,
            LoadReply::Package(Ok(package)),
        ).1 == StepView::DecodeMultiExecutable(b@),
        multi.serialized_executables matches Some(blobs) ==> {
            let (w, step) = load_step(v, LoadReply::MultiExecutable(multi));
            &&& w.blobs.len() == blobs@.len()
            &&& forall|i: int| 0 <= i < blobs@.len() ==> (#[trigger] w.blobs[i]) == blobs@[i]@
            &&& v.executables.len() < blobs@.len() ==> step == (StepView::DecodeExecutable {
                index: v.executables.len(),
                bytes: blobs@[v.executables.len() as int]@,
            })
        },
{
}

/// Whatever cannot be read, decoded or found ends the loading with its own
/// error.
pub proof fn law_faults_are_reported(
    v: LoaderView,
    message: String,
    model: ModelTable,
    string: Vec<u8>,
    package: PackageTable,
    multi: MultiExecutableTable,
)
    ensures
        load_step(v, LoadReply::File(Err(message))).1 == StepView::Failed(LoadError::Io(message)),
        load_step(v, LoadReply::Model(Err(message))).1 == StepView::Failed(
            LoadError::Model(message),
        ),
        model_fault(model) matches Some(e) ==> load_step(v, LoadReply::Model(Ok(model))).1
            == StepView::Failed(e),
        load_step(v, LoadReply::FlexString(Err(message))).1 == StepView::Failed(
            LoadError::FlexBuffer(message),
        ),
        string@.len() == 0 ==> load_step(v, LoadReply::FlexString(Ok(string))).1
            == StepView::Failed(LoadError::PackageAbsent),
        load_step(v, LoadReply::Package(Err(message))).1 == StepView::Failed(
            LoadError::Package(message),
        ),
        package.serialized_multi_executable is None ==> load_step(
            v,
            LoadReply::Package(Ok(package)),
        ).1 == StepView::Failed(LoadError::MultiExecutableAbsent),
        multi.serialized_executables is None ==> load_step(v, LoadReply::MultiExecutable(multi)).1
            == StepView::Failed(LoadError::ExecutablesAbsent),
        load_step(v, LoadReply::Executable(Err(message))).1 == StepView::Failed(
            LoadError::Executable { index: v.executables.len() as usize, message },
        ),
{
}

/// A decoded executable is added behind those before it; the model is complete
/// with the last one, and holds all of them.
pub proof fn law_executables_add_up(v: LoaderView, t: ExecutableTable)
    ensures
        ({
            let (w, step) = load_step(v, LoadReply::Executable(Ok(t)));
            let all = v.executables.push(executable_of(t));
            &&& w.blobs == v.blobs
            &&& v.executables.len() + 1 < v.blobs.len() ==> w.executables == all && step == (
            StepView::DecodeExecutable {
                index: v.executables.len() + 1,
                bytes: v.blobs[v.executables.len() as int + 1],
            })
            &&& v.executables.len() + 1 >= v.blobs.len() ==> step == StepView::Loaded(all)
        }),
{
}

/// A model that loads consists of what its executable tables describe.
pub proof fn law_loaded_model_follows_tables(tables: Seq<ExecutableTable>)
    ensures
        executables_of(tables).len() == tables.len(),
        forall|i: int|
            0 <= i < tables.len() ==> (#[trigger] executables_of(tables)[i]) == executable_of(
                tables[i],
            ),
{
}

/// Load errors say what went wrong.
pub proof fn law_load_error_texts(message: String, index: usize)
    ensures
        load_error_text(LoadError::Io(message)) == message@,
        load_error_text(LoadError::Model(message)) == message@,
        load_error_text(LoadError::SubgraphCount)
            == "Expected exactly 1 subgraph in the TFLite model"@,
        load_error_text(LoadError::OperatorCodeCount)
            == "Expected exactly 1 operator code in the TFLite model"@,
        load_error_text(LoadError::CustomCode)
            == "Expected operator code with custom_code 'edgetpu-custom-op'"@,
        load_error_text(LoadError::OperatorCount) == "Expected exactly 1 operator in the subgraph"@,
        load_error_text(LoadError::FlexBuffer(message)) == "FlexBuffer parse error: "@ + message@,
        load_error_text(LoadError::PackageAbsent)
            == "FlexBuffer key '4' (serialized Package) is absent or empty"@,
        load_error_text(LoadError::Package(message)) == "Package parse error: "@ + message@,
        load_error_text(LoadError::MultiExecutableAbsent)
            == "Package.serialized_multi_executable is absent"@,
        load_error_text(LoadError::ExecutablesAbsent)
            == "MultiExecutable.serialized_executables is absent"@,
        load_error_text(LoadError::Executable { index, message }) == "Executable["@ + numeral(
            index as nat,
            10,
            false,
        ) + "] parse error: "@ + message@,
{
}

/// A step and its mathematical view are the same thing.
pub proof fn law_step_view(s: LoadStep)
    ensures
        match s {
            LoadStep::DecodeModel(b) => s@ == StepView::DecodeModel(b@),
            LoadStep::ReadFlexString(b) => s@ == StepView::ReadFlexString(b@),
            LoadStep::DecodePackage(b) => s@ == StepView::DecodePackage(b@),
            LoadStep::DecodeMultiExecutable(b) => s@ == StepView::DecodeMultiExecutable(b@),
            LoadStep::DecodeExecutable { index, bytes } => s@ == (StepView::DecodeExecutable {
                index: index as nat,
                bytes: bytes@,
            }),
            LoadStep::Loaded(m) => s@ == StepView::Loaded(m@),
            LoadStep::Failed(e) => s@ == StepView::Failed(e),
        },
{
}

/// Each stage of a loader is answered by the reply of its own kind.
pub proof fn law_stages_have_their_replies(stage: LoadStage, reply: LoadReply)
    ensures
        answers(stage, reply) <==> match stage {
            LoadStage::File => reply is File,
            LoadStage::Model => reply is Model,
            LoadStage::FlexString => reply is FlexString,
            LoadStage::Package => reply is Package,
            LoadStage::MultiExecutable => reply is MultiExecutable,
            LoadStage::Executable => reply is Executable,
            LoadStage::Finished => false,
        },
{
}

} // verus!
