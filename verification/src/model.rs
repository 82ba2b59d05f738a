//! The DarwiNN executables of a compiled Edge TPU model.
//!
//! An Edge TPU `.tflite` file is a TFLite FlatBuffer with a single operator
//! whose `custom_code` is `edgetpu-custom-op`. The operator's `custom_options`
//! are a FlexBuffer map, and the value of its key `4` is a serialized DarwiNN
//! `Package`. The package embeds a `MultiExecutable`, which holds one or more
//! serialized `Executable` tables.
//!
//! This module works on the contents of those tables. The structures whose
//! names end in `Table` hold what a FlatBuffer table holds, with `None` for an
//! absent field; the structures whose names end in `Info` are the parsed model.

use vstd::prelude::*;

verus! {

/// Role of an executable within a model.
#[derive(Debug, Clone, Copy, PartialEq, Eq, Structural)]
pub enum ExecutableType {
    StandAlone,
    ParameterCaching,
    ExecutionOnly,
    Other(i16),
}

/// Which base address an instruction field refers to.
#[derive(Debug, Clone, Copy, PartialEq, Eq, Structural)]
pub enum Description {
    BaseAddressOutputActivation,
    BaseAddressInputActivation,
    BaseAddressParameter,
    BaseAddressScratch,
    Other(i16),
}

/// Which half of a 64-bit address an instruction field holds.
#[derive(Debug, Clone, Copy, PartialEq, Eq, Structural)]
pub enum Position {
    Lower32Bit,
    Upper32Bit,
    Other(i16),
}

/// A parsed model.
#[derive(Debug)]
pub struct TfliteModel {
    pub executables: Vec<ExecInfo>,
}

/// One executable of a model.
#[derive(Debug)]
pub struct ExecInfo {
    pub exec_type: ExecutableType,
    /// Weight parameters (may be empty for `ExecutionOnly`).
    pub parameters: Vec<u8>,
    pub instruction_chunks: Vec<ChunkInfo>,
    pub input_layers: Vec<LayerInfo>,
    pub output_layers: Vec<LayerInfo>,
    pub scratch_size_bytes: i32,
}

/// One instruction bitstream and the address fields to patch in it.
#[derive(Debug)]
pub struct ChunkInfo {
    pub bitstream: Vec<u8>,
    pub field_offsets: Vec<OffsetInfo>,
}

/// One address field of a bitstream.
#[derive(Debug)]
pub struct OffsetInfo {
    /// Bit position within the instruction bitstream to patch.
    pub offset_bit: i32,
    /// Which address type this field references.
    pub desc: Description,
    /// Whether this field holds the lower or upper 32 bits of the address.
    pub position: Position,
    /// Layer name (non-empty for input and output activation fields).
    pub name: String,
}

/// One input or output layer.
#[derive(Debug)]
pub struct LayerInfo {
    pub name: String,
    pub size_bytes: i32,
    pub zero_point: i32,
    /// Dequantization factor, as the bits of a single-precision number.
    pub dequantization_bits: u32,
}

/// Contents of a DarwiNN `NumericsConfiguration` table.
#[derive(Debug, Clone, Copy)]
pub struct NumericsTable {
    pub zero_point: i32,
    /// Dequantization factor, as the bits of a single-precision number.
    pub dequantization_bits: u32,
}

/// Contents of a DarwiNN `Layer` table.
#[derive(Debug)]
pub struct LayerTable {
    pub name: Option<String>,
    pub size_bytes: i32,
    pub numerics: Option<NumericsTable>,
}

/// Contents of a DarwiNN `Meta` table.
#[derive(Debug)]
pub struct MetaTable {
    pub desc: Description,
    pub position: Position,
    pub name: Option<String>,
}

/// Contents of a DarwiNN `FieldOffset` table.
#[derive(Debug)]
pub struct FieldOffsetTable {
    pub meta: Option<MetaTable>,
    pub offset_bit: i32,
}

/// Contents of a DarwiNN `InstructionBitstream` table.
#[derive(Debug)]
pub struct BitstreamTable {
    pub bitstream: Option<Vec<u8>>,
    pub field_offsets: Option<Vec<FieldOffsetTable>>,
}

/// Contents of a DarwiNN `Executable` table.
#[derive(Debug)]
pub struct ExecutableTable {
    pub exec_type: ExecutableType,
    pub parameters: Option<Vec<u8>>,
    pub instruction_bitstreams: Option<Vec<BitstreamTable>>,
    pub input_layers: Option<Vec<LayerTable>>,
    pub output_layers: Option<Vec<LayerTable>>,
    pub scratch_size_bytes: i32,
}

/// Mathematical view of [`LayerInfo`].
pub struct LayerView {
    pub name: Seq<char>,
    pub size_bytes: i32,
    pub zero_point: i32,
    pub dequantization_bits: u32,
}

/// Mathematical view of [`OffsetInfo`].
pub struct OffsetView {
    pub offset_bit: i32,
    pub desc: Description,
    pub position: Position,
    pub name: Seq<char>,
}

/// Mathematical view of [`ChunkInfo`].
pub struct ChunkView {
    pub bitstream: Seq<u8>,
    pub field_offsets: Seq<OffsetView>,
}

/// Mathematical view of [`ExecInfo`].
pub struct ExecView {
    pub exec_type: ExecutableType,
    pub parameters: Seq<u8>,
    pub instruction_chunks: Seq<ChunkView>,
    pub input_layers: Seq<LayerView>,
    pub output_layers: Seq<LayerView>,
    pub scratch_size_bytes: i32,
}

impl View for LayerInfo {
    type V = LayerView;

    open spec fn view(&self) -> LayerView {
        LayerView {
            name: self.name@,
            size_bytes: self.size_bytes,
            zero_point: self.zero_point,
            dequantization_bits: self.dequantization_bits,
        }
    }
}

impl View for OffsetInfo {
    type V = OffsetView;

    open spec fn view(&self) -> OffsetView {
        OffsetView {
            offset_bit: self.offset_bit,
            desc: self.desc,
            position: self.position,
            name: self.name@,
        }
    }
}

impl View for ChunkInfo {
    type V = ChunkView;

    open spec fn view(&self) -> ChunkView {
        ChunkView {
            bitstream: self.bitstream@,
            field_offsets: self.field_offsets@.map_values(|f: OffsetInfo| f@),
        }
    }
}

/// The layers of a list as mathematical values.
pub open spec fn layer_views(layers: Seq<LayerInfo>) -> Seq<LayerView> {
    layers.map_values(|l: LayerInfo| l@)
}

impl View for ExecInfo {
    type V = ExecView;

    open spec fn view(&self) -> ExecView {
        ExecView {
            exec_type: self.exec_type,
            parameters: self.parameters@,
            instruction_chunks: self.instruction_chunks@.map_values(|c: ChunkInfo| c@),
            input_layers: layer_views(self.input_layers@),
            output_layers: layer_views(self.output_layers@),
            scratch_size_bytes: self.scratch_size_bytes,
        }
    }
}

impl View for TfliteModel {
    type V = Seq<ExecView>;

    open spec fn view(&self) -> Seq<ExecView> {
        self.executables@.map_values(|e: ExecInfo| e@)
    }
}

/// An absent string reads as the empty one.
pub open spec fn text_or_empty(s: Option<String>) -> Seq<char> {
    match s {
        Some(t) => t@,
        None => Seq::empty(),
    }
}

/// An absent byte vector reads as the empty one.
pub open spec fn bytes_or_empty(b: Option<Vec<u8>>) -> Seq<u8> {
    match b {
        Some(v) => v@,
        None => Seq::empty(),
    }
}

/// The layer that a table describes; absent numerics read as zeros.
pub open spec fn layer_of(t: LayerTable) -> LayerView {
    LayerView {
        name: text_or_empty(t.name),
        size_bytes: t.size_bytes,
        zero_point: match t.numerics {
            Some(n) => n.zero_point,
            None => 0,
        },
        dequantization_bits: match t.numerics {
            Some(n) => n.dequantization_bits,
            None => 0,
        },
    }
}

/// The layers that an optional list of tables describes.
pub open spec fn layers_of(t: Option<Vec<LayerTable>>) -> Seq<LayerView> {
    match t {
        Some(v) => v@.map_values(|l: LayerTable| layer_of(l)),
        None => Seq::empty(),
    }
}

/// The address fields that a list of tables describes: those with metadata, in
/// their order.
pub open spec fn fields_of(t: Seq<FieldOffsetTable>) -> Seq<OffsetView>
    decreases t.len(),
{
    if t.len() == 0 {
        Seq::empty()
    } else {
        let before = fields_of(t.drop_last());
        match t.last().meta {
            Some(meta) => before.push(
                OffsetView {
                    offset_bit: t.last().offset_bit,
                    desc: meta.desc,
                    position: meta.position,
                    name: text_or_empty(meta.name),
                },
            ),
            None => before,
        }
    }
}

/// The chunk that a bitstream table describes.
pub open spec fn chunk_of(t: BitstreamTable) -> ChunkView {
    ChunkView {
        bitstream: bytes_or_empty(t.bitstream),
        field_offsets: match t.field_offsets {
            Some(v) => fields_of(v@),
            None => Seq::empty(),
        },
    }
}

/// The executable that a table describes.
pub open spec fn executable_of(t: ExecutableTable) -> ExecView {
    ExecView {
        exec_type: t.exec_type,
        parameters: bytes_or_empty(t.parameters),
        instruction_chunks: match t.instruction_bitstreams {
            Some(v) => v@.map_values(|b: BitstreamTable| chunk_of(b)),
            None => Seq::empty(),
        },
        input_layers: layers_of(t.input_layers),
        output_layers: layers_of(t.output_layers),
        scratch_size_bytes: t.scratch_size_bytes,
    }
}

/// A copy of an optional string, empty when absent.
fn copy_text(s: &Option<String>) -> (r: String)
    ensures
        r@ == text_or_empty(*s),
{
    match s {
        Some(t) => t.clone(),
        None => String::new(),
    }
}

/// A copy of an optional byte vector, empty when absent.
fn copy_bytes(b: &Option<Vec<u8>>) -> (r: Vec<u8>)
    ensures
        r@ == bytes_or_empty(*b),
{
    match b {
        Some(v) => {
            let r = v.clone();
            assert(r@ =~= v@);
            r
        },
        None => Vec::new(),
    }
}

/// Reads a layer out of its table.
pub fn parse_layer_info(layer: &LayerTable) -> (r: LayerInfo)
    ensures
        r@ == layer_of(*layer),
{
    let (zero_point, dequantization_bits): (i32, u32) = match layer.numerics {
        Some(n) => (n.zero_point, n.dequantization_bits),
        None => (0, 0),
    };
    LayerInfo {
        name: copy_text(&layer.name),
        size_bytes: layer.size_bytes,
        zero_point,
        dequantization_bits,
    }
}

/// Reads a list of layers out of its tables.
fn parse_layers(tables: &Option<Vec<LayerTable>>) -> (r: Vec<LayerInfo>)
    ensures
        layer_views(r@) == layers_of(*tables),
{
    let mut r: Vec<LayerInfo> = Vec::new();
    if let Some(v) = tables {
        let mut i: usize = 0;
        while i < v.len()
            invariant
                i <= v@.len(),
                r@.len() == i,
                forall|k: int| 0 <= k < i ==> (#[trigger] r@[k])@ == layer_of(v@[k]),
            decreases v@.len() - i,
        {
            r.push(parse_layer_info(&v[i]));
            i = i + 1;
        }
    }
    assert(layer_views(r@) =~= layers_of(*tables));
    r
}

/// Reads the address fields out of their tables, without those that lack
/// metadata.
fn parse_fields(v: &Vec<FieldOffsetTable>) -> (r: Vec<OffsetInfo>)
    ensures
        r@.map_values(|f: OffsetInfo| f@) == fields_of(v@),
{
    let mut r: Vec<OffsetInfo> = Vec::new();
    let mut i: usize = 0;
    assert(v@.take(0) =~= Seq::empty());
    assert(r@.map_values(|f: OffsetInfo| f@) =~= fields_of(v@.take(0)));
    while i < v.len()
        invariant
            i <= v@.len(),
            r@.map_values(|f: OffsetInfo| f@) == fields_of(v@.take(i as int)),
        decreases v@.len() - i,
    {
        assert(v@.take(i + 1).drop_last() =~= v@.take(i as int));
        assert(v@.take(i + 1).last() == v@[i as int]);
        let ghost before = r@;
        if let Some(meta) = &v[i].meta {
            let field = OffsetInfo {
                offset_bit: v[i].offset_bit,
                desc: meta.desc,
                position: meta.position,
                name: copy_text(&meta.name),
            };
            r.push(field);
            assert(r@.map_values(|f: OffsetInfo| f@) =~= before.map_values(
                |f: OffsetInfo| f@,
            ).push(field@));
        }
        i = i + 1;
    }
    assert(v@.take(i as int) =~= v@);
    r
}

/// Reads a chunk out of its bitstream table.
fn parse_chunk(bs: &BitstreamTable) -> (r: ChunkInfo)
    ensures
        r@ == chunk_of(*bs),
{
    let bitstream = copy_bytes(&bs.bitstream);
    let field_offsets: Vec<OffsetInfo> = match &bs.field_offsets {
        Some(v) => parse_fields(v),
        None => Vec::new(),
    };
    let r = ChunkInfo { bitstream, field_offsets };
    assert(r@.field_offsets =~= chunk_of(*bs).field_offsets);
    r
}

/// Reads an executable out of its table.
pub fn parse_executable(exec: &ExecutableTable) -> (r: ExecInfo)
    ensures
        r@ == executable_of(*exec),
{
    let parameters = copy_bytes(&exec.parameters);
    let mut instruction_chunks: Vec<ChunkInfo> = Vec::new();
    if let Some(bitstreams) = &exec.instruction_bitstreams {
        let mut i: usize = 0;
        while i < bitstreams.len()
            invariant
                i <= bitstreams@.len(),
                instruction_chunks@.len() == i,
                forall|k: int|
                    0 <= k < i ==> (#[trigger] instruction_chunks@[k])@ == chunk_of(bitstreams@[k]),
            decreases bitstreams@.len() - i,
        {
            instruction_chunks.push(parse_chunk(&bitstreams[i]));
            i = i + 1;
        }
    }
    let input_layers = parse_layers(&exec.input_layers);
    let output_layers = parse_layers(&exec.output_layers);
    let r = ExecInfo {
        exec_type: exec.exec_type,
        parameters,
        instruction_chunks,
        input_layers,
        output_layers,
        scratch_size_bytes: exec.scratch_size_bytes,
    };
    assert(r@.instruction_chunks =~= executable_of(*exec).instruction_chunks);
    r
}

/// A layer takes its name, size, zero point and dequantization factor from its
/// table. A name that is absent reads as empty, absent numerics as zeros.
pub proof fn law_layer_follows_table(t: LayerTable, r: LayerInfo)
    requires
        r@ == layer_of(t),
    ensures
        t.name matches Some(name) ==> r.name@ == name@,
        t.name is None ==> r.name@.len() == 0,
        r.size_bytes == t.size_bytes,
        t.numerics matches Some(n) ==> r.zero_point == n.zero_point && r.dequantization_bits
            == n.dequantization_bits,
        t.numerics is None ==> r.zero_point == 0 && r.dequantization_bits == 0,
{
}

/// A parsed executable has as many input and output layers as there are tables
/// for them, each in the place of its table and with what that table says.
pub proof fn law_layers_follow_tables(t: ExecutableTable, r: ExecInfo)
    requires
        r@ == executable_of(t),
    ensures
        t.input_layers is None ==> r.input_layers@.len() == 0,
        t.output_layers is None ==> r.output_layers@.len() == 0,
        t.input_layers matches Some(v) ==> r.input_layers@.len() == v@.len(),
        t.output_layers matches Some(v) ==> r.output_layers@.len() == v@.len(),
        t.input_layers matches Some(v) ==> forall|i: int|
            0 <= i < v@.len() ==> {
                let l = #[trigger] r.input_layers@[i];
                &&& v@[i].name matches Some(name) ==> l.name@ == name@
                &&& v@[i].name is None ==> l.name@.len() == 0
                &&& l.size_bytes == v@[i].size_bytes
                &&& v@[i].numerics matches Some(n) ==> l.zero_point == n.zero_point
                    && l.dequantization_bits == n.dequantization_bits
                &&& v@[i].numerics is None ==> l.zero_point == 0 && l.dequantization_bits == 0
            },
        t.output_layers matches Some(v) ==> forall|i: int|
            0 <= i < v@.len() ==> {
                let l = #[trigger] r.output_layers@[i];
                &&& v@[i].name matches Some(name) ==> l.name@ == name@
                &&& v@[i].name is None ==> l.name@.len() == 0
                &&& l.size_bytes == v@[i].size_bytes
                &&& v@[i].numerics matches Some(n) ==> l.zero_point == n.zero_point
                    && l.dequantization_bits == n.dequantization_bits
                &&& v@[i].numerics is None ==> l.zero_point == 0 && l.dequantization_bits == 0
            },
{
    let inputs = r@.input_layers;
    let outputs = r@.output_layers;
    assert(inputs.len() == r.input_layers@.len());
    assert(outputs.len() == r.output_layers@.len());
    if let Some(v) = t.input_layers {
        assert forall|i: int| 0 <= i < v@.len() implies {
            let l = #[trigger] r.input_layers@[i];
            l@ == layer_of(v@[i])
        } by {
            assert(inputs[i] == r.input_layers@[i]@);
        }
    }
    if let Some(v) = t.output_layers {
        assert forall|i: int| 0 <= i < v@.len() implies {
            let l = #[trigger] r.output_layers@[i];
            l@ == layer_of(v@[i])
        } by {
            assert(outputs[i] == r.output_layers@[i]@);
        }
    }
}

/// A parsed executable has the type, the parameters and the scratch size of its
/// table, and one chunk per bitstream table, in order, with that table's bytes
/// and address fields.
pub proof fn law_executable_follows_table(t: ExecutableTable, r: ExecInfo)
    requires
        r@ == executable_of(t),
    ensures
        r.exec_type == t.exec_type,
        r.scratch_size_bytes == t.scratch_size_bytes,
        t.parameters matches Some(v) ==> r.parameters@ == v@,
        t.parameters is None ==> r.parameters@.len() == 0,
        t.instruction_bitstreams is None ==> r.instruction_chunks@.len() == 0,
        t.instruction_bitstreams matches Some(v) ==> r.instruction_chunks@.len() == v@.len(),
        t.instruction_bitstreams matches Some(v) ==> forall|i: int|
            0 <= i < v@.len() ==> {
                let c = #[trigger] r.instruction_chunks@[i];
                &&& v@[i].bitstream matches Some(b) ==> c.bitstream@ == b@
                &&& v@[i].bitstream is None ==> c.bitstream@.len() == 0
                &&& v@[i].field_offsets is None ==> c.field_offsets@.len() == 0
                &&& v@[i].field_offsets matches Some(f) ==> c.field_offsets@.len() == fields_of(
                    f@,
                ).len()
                &&& v@[i].field_offsets matches Some(f) ==> forall|k: int|
                    0 <= k < c.field_offsets@.len() ==> {
                        let o = #[trigger] c.field_offsets@[k];
                        &&& o.offset_bit == fields_of(f@)[k].offset_bit
                        &&& o.desc == fields_of(f@)[k].desc
                        &&& o.position == fields_of(f@)[k].position
                        &&& o.name@ == fields_of(f@)[k].name
                    }
            },
{
    let chunks = r@.instruction_chunks;
    assert(chunks.len() == r.instruction_chunks@.len());
    if let Some(v) = t.instruction_bitstreams {
        assert forall|i: int| 0 <= i < v@.len() implies {
            let c = #[trigger] r.instruction_chunks@[i];
            &&& c@ == chunk_of(v@[i])
            &&& c@.field_offsets.len() == c.field_offsets@.len()
            &&& forall|k: int|
                0 <= k < c.field_offsets@.len() ==> (#[trigger] c.field_offsets@[k])@
                    == c@.field_offsets[k]
        } by {
            assert(chunks[i] == r.instruction_chunks@[i]@);
            let c = r.instruction_chunks@[i];
            assert forall|k: int| 0 <= k < c.field_offsets@.len() implies (
            #[trigger] c.field_offsets@[k])@ == c@.field_offsets[k] by {}
        }
    }
}

/// The address fields of a bitstream are those of its tables that have
/// metadata: all of them, in their order, with what the tables say. The result
/// tells which table each field comes from.
pub proof fn law_fields_follow_tables(t: Seq<FieldOffsetTable>) -> (from: Seq<int>)
    ensures
        from.len() == fields_of(t).len(),
        forall|k: int|
            0 <= k < from.len() ==> {
                &&& 0 <= #[trigger] from[k] < t.len()
                &&& t[from[k]].meta is Some
                &&& fields_of(t)[k].offset_bit == t[from[k]].offset_bit
                &&& fields_of(t)[k].desc == t[from[k]].meta.unwrap().desc
                &&& fields_of(t)[k].position == t[from[k]].meta.unwrap().position
                &&& t[from[k]].meta.unwrap().name matches Some(name) ==> fields_of(t)[k].name
                    == name@
                &&& t[from[k]].meta.unwrap().name is None ==> fields_of(t)[k].name.len() == 0
            },
        forall|j: int, k: int|
            0 <= j < k < from.len() ==> #[trigger] from[j] < #[trigger] from[k],
        forall|i: int|
            0 <= i < t.len() && (#[trigger] t[i]).meta is Some ==> from.contains(i),
    decreases t.len(),
{
    if t.len() == 0 {
        Seq::empty()
    } else {
        let before = t.drop_last();
        let start = law_fields_follow_tables(before);
        let last = t.len() - 1;
        let from = if t.last().meta is Some {
            start.push(last)
        } else {
            start
        };
        assert forall|k: int| 0 <= k < start.len() implies t[#[trigger] start[k]]
            == before[start[k]] by {}
        assert forall|i: int| 0 <= i < t.len() && (
        #[trigger] t[i]).meta is Some implies from.contains(i) by {
            if i < last {
                assert(before[i].meta is Some);
                let k = choose|k: int| 0 <= k < start.len() && start[k] == i;
                assert(from[k] == i);
            } else {
                assert(from[from.len() - 1] == i);
            }
        }
        from
    }
}

/// The mathematical view of a model shows the executables themselves.
pub proof fn law_model_view(m: TfliteModel, i: int)
    requires
        0 <= i < m.executables@.len(),
    ensures
        m@.len() == m.executables@.len(),
        m@[i].exec_type == m.executables@[i].exec_type,
        m@[i].parameters == m.executables@[i].parameters@,
        m@[i].scratch_size_bytes == m.executables@[i].scratch_size_bytes,
        m@[i].instruction_chunks.len() == m.executables@[i].instruction_chunks@.len(),
        m@[i].input_layers.len() == m.executables@[i].input_layers@.len(),
        m@[i].output_layers.len() == m.executables@[i].output_layers@.len(),
        forall|k: int|
            0 <= k < m@[i].input_layers.len() ==> {
                let l = m.executables@[i].input_layers@[k];
                #[trigger] m@[i].input_layers[k] == (LayerView {
                    name: l.name@,
                    size_bytes: l.size_bytes,
                    zero_point: l.zero_point,
                    dequantization_bits: l.dequantization_bits,
                })
            },
        forall|k: int|
            0 <= k < m@[i].output_layers.len() ==> {
                let l = m.executables@[i].output_layers@[k];
                #[trigger] m@[i].output_layers[k] == (LayerView {
                    name: l.name@,
                    size_bytes: l.size_bytes,
                    zero_point: l.zero_point,
                    dequantization_bits: l.dequantization_bits,
                })
            },
        forall|k: int|
            0 <= k < m@[i].instruction_chunks.len() ==> (
            #[trigger] m@[i].instruction_chunks[k]).bitstream
                == m.executables@[i].instruction_chunks@[k].bitstream@,
        forall|k: int, f: int|
            0 <= k < m@[i].instruction_chunks.len() && 0 <= f
                < m.executables@[i].instruction_chunks@[k].field_offsets@.len() ==> {
                let o = m.executables@[i].instruction_chunks@[k].field_offsets@[f];
                &&& m@[i].instruction_chunks[k].field_offsets.len()
                    == m.executables@[i].instruction_chunks@[k].field_offsets@.len()
                &&& #[trigger] m@[i].instruction_chunks[k].field_offsets[f] == (OffsetView {
                    offset_bit: o.offset_bit,
                    desc: o.desc,
                    position: o.position,
                    name: o.name@,
                })
            },
{
}

} // verus!
