use reef_infer::loader::{
    load_tflite_model, operator_options, LoadError, LoadReply, LoadStage, LoadStep, ModelLoader,
    ModelTable, MultiExecutableTable, OperatorCodeTable, OperatorTable, PackageTable,
    SubGraphTable,
};
use reef_infer::model::{
    parse_executable, parse_layer_info, BitstreamTable, Description, ExecutableTable,
    ExecutableType, FieldOffsetTable, LayerTable, MetaTable, NumericsTable, Position, TfliteModel,
};

fn code(custom_code: &str) -> OperatorCodeTable {
    OperatorCodeTable { custom_code: Some(custom_code.to_string()) }
}

fn model_table() -> ModelTable {
    ModelTable {
        subgraphs: Some(vec![SubGraphTable {
            operators: Some(vec![OperatorTable { custom_options: Some(vec![1, 2, 3]) }]),
        }]),
        operator_codes: Some(vec![code("edgetpu-custom-op")]),
    }
}

fn layer(name: Option<&str>, size_bytes: i32) -> LayerTable {
    LayerTable {
        name: name.map(|n| n.to_string()),
        size_bytes,
        numerics: Some(NumericsTable { zero_point: 128, dequantization_bits: 0x3f00_0000 }),
    }
}

fn executable(exec_type: ExecutableType) -> ExecutableTable {
    ExecutableTable {
        exec_type,
        parameters: Some(vec![4, 5]),
        instruction_bitstreams: Some(vec![BitstreamTable {
            bitstream: Some(vec![0; 8]),
            field_offsets: Some(vec![
                FieldOffsetTable {
                    meta: Some(MetaTable {
                        desc: Description::BaseAddressOutputActivation,
                        position: Position::Upper32Bit,
                        name: Some("out".to_string()),
                    }),
                    offset_bit: 17,
                },
                FieldOffsetTable { meta: None, offset_bit: 99 },
            ]),
        }]),
        input_layers: Some(vec![layer(Some("in"), 2)]),
        output_layers: Some(vec![layer(None, 8)]),
        scratch_size_bytes: 7,
    }
}

fn empty_executable() -> ExecutableTable {
    ExecutableTable {
        exec_type: ExecutableType::Other(-4),
        parameters: None,
        instruction_bitstreams: None,
        input_layers: None,
        output_layers: None,
        scratch_size_bytes: 0,
    }
}

fn failure(step: LoadStep) -> String {
    match step {
        LoadStep::Failed(e) => e.to_string(),
        other => panic!("unexpected step {other:?}"),
    }
}

/// A loader that waits for the FlexBuffer string.
fn at_flex_string() -> ModelLoader {
    let (mut loader, _) = load_tflite_model(Ok(vec![9]));
    loader.next(LoadReply::Model(Ok(model_table())));
    assert_eq!(loader.stage(), LoadStage::FlexString);
    loader
}

/// A loader that waits for the package.
fn at_package() -> ModelLoader {
    let mut loader = at_flex_string();
    loader.next(LoadReply::FlexString(Ok(vec![1])));
    assert_eq!(loader.stage(), LoadStage::Package);
    loader
}

/// A loader that waits for the multi-executable.
fn at_multi_executable() -> ModelLoader {
    let mut loader = at_package();
    loader.next(LoadReply::Package(Ok(PackageTable {
        serialized_multi_executable: Some(vec![2]),
    })));
    assert_eq!(loader.stage(), LoadStage::MultiExecutable);
    loader
}

fn loaded(executables: Vec<ExecutableTable>) -> TfliteModel {
    let mut loader = at_multi_executable();
    let blobs: Vec<Vec<u8>> = (0..executables.len()).map(|i| vec![i as u8]).collect();
    let mut step = loader.next(LoadReply::MultiExecutable(MultiExecutableTable {
        serialized_executables: Some(blobs),
    }));
    for (i, table) in executables.into_iter().enumerate() {
        match step {
            LoadStep::DecodeExecutable { index, bytes } => {
                assert_eq!(index, i);
                assert_eq!(bytes, vec![i as u8]);
            }
            other => panic!("unexpected step {other:?}"),
        }
        step = loader.next(LoadReply::Executable(Ok(table)));
    }
    assert_eq!(loader.stage(), LoadStage::Finished);
    match step {
        LoadStep::Loaded(model) => model,
        other => panic!("unexpected step {other:?}"),
    }
}

#[test]
fn requests_follow_the_nesting_of_the_file() {
    let (mut loader, step) = load_tflite_model(Ok(vec![9, 9]));
    assert!(matches!(step, LoadStep::DecodeModel(b) if b == vec![9, 9]));
    let step = loader.next(LoadReply::Model(Ok(model_table())));
    assert!(matches!(step, LoadStep::ReadFlexString(b) if b == vec![1, 2, 3]));
    let step = loader.next(LoadReply::FlexString(Ok(vec![7])));
    assert!(matches!(step, LoadStep::DecodePackage(b) if b == vec![7]));
    let step = loader.next(LoadReply::Package(Ok(PackageTable {
        serialized_multi_executable: Some(vec![6]),
    })));
    assert!(matches!(step, LoadStep::DecodeMultiExecutable(b) if b == vec![6]));
}

#[test]
fn loads_all_executables_in_order() {
    let model = loaded(vec![
        executable(ExecutableType::ParameterCaching),
        executable(ExecutableType::ExecutionOnly),
        empty_executable(),
    ]);
    let types: Vec<ExecutableType> = model.executables.iter().map(|e| e.exec_type).collect();
    assert_eq!(
        types,
        vec![
            ExecutableType::ParameterCaching,
            ExecutableType::ExecutionOnly,
            ExecutableType::Other(-4),
        ]
    );
}

#[test]
fn loads_a_model_without_executables() {
    assert_eq!(loaded(vec![]).executables.len(), 0);
}

#[test]
fn executable_keeps_its_contents() {
    let e = parse_executable(&executable(ExecutableType::StandAlone));
    assert_eq!(e.exec_type, ExecutableType::StandAlone);
    assert_eq!(e.parameters, vec![4, 5]);
    assert_eq!(e.scratch_size_bytes, 7);
    assert_eq!(e.instruction_chunks.len(), 1);
    let chunk = &e.instruction_chunks[0];
    assert_eq!(chunk.bitstream, vec![0; 8]);
    assert_eq!(chunk.field_offsets.len(), 1);
    assert_eq!(chunk.field_offsets[0].offset_bit, 17);
    assert_eq!(chunk.field_offsets[0].desc, Description::BaseAddressOutputActivation);
    assert_eq!(chunk.field_offsets[0].position, Position::Upper32Bit);
    assert_eq!(chunk.field_offsets[0].name, "out");
    assert_eq!(e.input_layers[0].name, "in");
    assert_eq!(e.input_layers[0].size_bytes, 2);
    assert_eq!(e.input_layers[0].zero_point, 128);
    assert_eq!(f32::from_bits(e.input_layers[0].dequantization_bits), 0.5);
    assert_eq!(e.output_layers[0].name, "");
}

#[test]
fn absent_contents_read_as_empty() {
    let e = parse_executable(&empty_executable());
    assert!(e.parameters.is_empty());
    assert!(e.instruction_chunks.is_empty());
    assert!(e.input_layers.is_empty());
    assert!(e.output_layers.is_empty());
    let l = parse_layer_info(&LayerTable { name: None, size_bytes: -1, numerics: None });
    assert_eq!((l.size_bytes, l.zero_point, l.dequantization_bits), (-1, 0, 0));
}

#[test]
fn takes_the_options_of_the_only_operator() {
    assert_eq!(operator_options(&model_table()).unwrap(), vec![1, 2, 3]);
    let mut table = model_table();
    table.subgraphs = Some(vec![SubGraphTable {
        operators: Some(vec![OperatorTable { custom_options: None }]),
    }]);
    assert_eq!(operator_options(&table).unwrap(), Vec::<u8>::new());
}

#[test]
fn reports_unreadable_files() {
    let (_, step) = load_tflite_model(Err("gone".to_string()));
    assert_eq!(failure(step), "gone");
}

#[test]
fn reports_undecodable_models() {
    let (mut loader, _) = load_tflite_model(Ok(vec![]));
    assert_eq!(failure(loader.next(LoadReply::Model(Err("bad root".to_string())))), "bad root");
}

#[test]
fn reports_wrong_model_structure() {
    let check = |table: ModelTable, message: &str| {
        let (mut loader, _) = load_tflite_model(Ok(vec![]));
        assert_eq!(failure(loader.next(LoadReply::Model(Ok(table)))), message);
    };
    let subgraphs = "Expected exactly 1 subgraph in the TFLite model";
    check(ModelTable { subgraphs: None, ..model_table() }, subgraphs);
    check(ModelTable { subgraphs: Some(vec![]), ..model_table() }, subgraphs);
    let codes = "Expected exactly 1 operator code in the TFLite model";
    check(ModelTable { operator_codes: None, ..model_table() }, codes);
    check(
        ModelTable { operator_codes: Some(vec![code("a"), code("b")]), ..model_table() },
        codes,
    );
    let custom = "Expected operator code with custom_code 'edgetpu-custom-op'";
    check(ModelTable { operator_codes: Some(vec![code("other")]), ..model_table() }, custom);
    check(
        ModelTable {
            operator_codes: Some(vec![OperatorCodeTable { custom_code: None }]),
            ..model_table()
        },
        custom,
    );
    let operators = "Expected exactly 1 operator in the subgraph";
    check(
        ModelTable { subgraphs: Some(vec![SubGraphTable { operators: None }]), ..model_table() },
        operators,
    );
    check(
        ModelTable {
            subgraphs: Some(vec![SubGraphTable { operators: Some(vec![]) }]),
            ..model_table()
        },
        operators,
    );
}

#[test]
fn reports_flexbuffer_faults() {
    let mut loader = at_flex_string();
    assert_eq!(
        failure(loader.next(LoadReply::FlexString(Err("no root".to_string())))),
        "FlexBuffer parse error: no root"
    );
    let mut loader = at_flex_string();
    assert_eq!(
        failure(loader.next(LoadReply::FlexString(Ok(vec![])))),
        "FlexBuffer key '4' (serialized Package) is absent or empty"
    );
}

#[test]
fn reports_package_faults() {
    let mut loader = at_package();
    assert_eq!(
        failure(loader.next(LoadReply::Package(Err("short".to_string())))),
        "Package parse error: short"
    );
    let mut loader = at_package();
    let absent = PackageTable { serialized_multi_executable: None };
    assert_eq!(
        failure(loader.next(LoadReply::Package(Ok(absent)))),
        "Package.serialized_multi_executable is absent"
    );
}

#[test]
fn reports_executable_faults() {
    let mut loader = at_multi_executable();
    let absent = MultiExecutableTable { serialized_executables: None };
    assert_eq!(
        failure(loader.next(LoadReply::MultiExecutable(absent))),
        "MultiExecutable.serialized_executables is absent"
    );
    let mut loader = at_multi_executable();
    loader.next(LoadReply::MultiExecutable(MultiExecutableTable {
        serialized_executables: Some(vec![vec![0], vec![1]]),
    }));
    loader.next(LoadReply::Executable(Ok(empty_executable())));
    let step = loader.next(LoadReply::Executable(Err("odd".to_string())));
    assert!(matches!(step, LoadStep::Failed(LoadError::Executable { index: 1, .. })));
    assert_eq!(failure(step), "Executable[1] parse error: odd");
}
