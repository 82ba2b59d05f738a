use reef_infer::bench::{bench_model, latency, BenchStep, Latency};
use reef_infer::cli::{parse_args, parse_count, WARMUP_REPS};
use reef_infer::model::{ExecInfo, ExecutableType, LayerInfo, TfliteModel};
use reef_infer::runner::DeviceError;

fn args(list: &[&str]) -> Vec<String> {
    list.iter().map(|s| s.to_string()).collect()
}

#[test]
fn reads_the_command_line() {
    let o = parse_args(&args(&[
        "reef-infer", "m.tflite", "--input", "in.bin", "--output", "out.bin",
    ]));
    assert_eq!(o.model.as_deref(), Some("m.tflite"));
    assert_eq!(o.bench, None);
    assert_eq!(o.input.as_deref(), Some("in.bin"));
    assert_eq!(o.output.as_deref(), Some("out.bin"));
    let o = parse_args(&args(&["reef-infer"]));
    assert!(o.model.is_none() && o.input.is_none() && o.output.is_none());
    let o = parse_args(&[]);
    assert!(o.model.is_none() && o.bench.is_none());
}

#[test]
fn the_first_flag_with_a_value_counts() {
    let o = parse_args(&args(&["p", "m", "--input", "a", "--input", "b", "--output"]));
    assert_eq!(o.input.as_deref(), Some("a"));
    assert_eq!(o.output, None);
}

#[test]
fn reads_the_benchmark_count() {
    assert_eq!(parse_args(&args(&["p", "m", "--bench", "1000"])).bench, Some(1000));
    assert_eq!(parse_args(&args(&["p", "m", "--bench"])).bench, Some(50));
    assert_eq!(parse_args(&args(&["p", "m", "--bench", "--input", "f"])).bench, Some(50));
    assert_eq!(parse_args(&args(&["p", "m", "--bench", "x", "--bench", "7"])).bench, Some(7));
    assert_eq!(parse_args(&args(&["p", "m", "--bench", "0"])).bench, Some(0));
    assert_eq!(parse_args(&args(&["p", "m", "1000"])).bench, None);
}

#[test]
fn reads_counts() {
    for text in ["0", "7", "+12", "007", "18446744073709551615", "18446744073709551616", "", "+",
        "-1", "1a", " 1", "++1", "1_000"]
    {
        assert_eq!(parse_count(text), text.parse::<usize>().ok(), "{}", text);
    }
    assert_eq!(parse_count("+12"), Some(12));
    assert_eq!(parse_count("12b"), None);
}

#[test]
fn summarizes_latencies() {
    assert_eq!(latency(&[5, 2, 9, 4]), Latency { min: 2, avg: 5, max: 9 });
    assert_eq!(latency(&[7]), Latency { min: 7, avg: 7, max: 7 });
    assert_eq!(latency(&[1, 2]), Latency { min: 1, avg: 1, max: 2 });
}

#[test]
fn benchmarks_time_only_the_last_runs() {
    assert_eq!(WARMUP_REPS, 3);
    let (mut bench, mut step) = bench_model(WARMUP_REPS, 2);
    for i in 0..3 {
        assert!(matches!(step, BenchStep::WarmUp(n) if n == i));
        step = bench.next(Ok(1000));
    }
    for i in 0..2 {
        assert!(matches!(step, BenchStep::Timed(n) if n == i));
        step = bench.next(Ok(10 + i as u128));
    }
    match step {
        BenchStep::Done(times) => assert_eq!(times, vec![10, 11]),
        other => panic!("unexpected step {other:?}"),
    }
    assert!(matches!(bench_model(0, 0).1, BenchStep::Done(times) if times.is_empty()));
}

#[test]
fn benchmarks_stop_at_the_first_error() {
    let (mut bench, _) = bench_model(1, 5);
    bench.next(Ok(1));
    bench.next(Ok(2));
    let step = bench.next(Err(DeviceError::Timeout));
    assert!(matches!(step, BenchStep::Failed(DeviceError::Timeout)));
}

fn layer(size_bytes: i32, zero_point: i32, scale: f32) -> LayerInfo {
    LayerInfo {
        name: String::new(),
        size_bytes,
        zero_point,
        dequantization_bits: scale.to_bits(),
    }
}

fn executable(input_layers: Vec<LayerInfo>, output_layers: Vec<LayerInfo>) -> ExecInfo {
    ExecInfo {
        exec_type: ExecutableType::StandAlone,
        parameters: vec![],
        instruction_chunks: vec![],
        input_layers,
        output_layers,
        scratch_size_bytes: 0,
    }
}

#[test]
fn describes_a_model() {
    let m = TfliteModel {
        executables: vec![
            executable(vec![], vec![]),
            executable(
                vec![layer(150, 127, 0.25), layer(7, 1, 2.0)],
                vec![layer(4, 3, 0.125), layer(6, 5, 4.0)],
            ),
            executable(vec![layer(1, 2, 3.0)], vec![layer(10, 0, 1.5)]),
        ],
    };
    assert_eq!(m.input_size(), 150);
    assert_eq!(m.output_size(), Some(20));
    assert_eq!(m.input_zero_point(), 127);
    assert_eq!(f32::from_bits(m.input_scale()), 0.25);
    assert_eq!(m.output_zero_point(), 3);
    assert_eq!(f32::from_bits(m.output_scale()), 0.125);
    assert_eq!(m.repr().as_deref(), Some("Model(input=150B, output=20B, executables=3)"));
    assert_eq!(m.default_input(), vec![1u8; 150]);
}

#[test]
fn describes_an_empty_model() {
    let m = TfliteModel { executables: vec![] };
    assert_eq!(m.input_size(), 0);
    assert_eq!(m.output_size(), Some(0));
    assert_eq!((m.input_zero_point(), m.output_zero_point()), (0, 0));
    assert_eq!(f32::from_bits(m.input_scale()), 1.0);
    assert_eq!(f32::from_bits(m.output_scale()), 1.0);
    assert_eq!(m.repr().as_deref(), Some("Model(input=0B, output=0B, executables=0)"));
    assert_eq!(m.default_input(), vec![1u8; 8]);
}

#[test]
fn output_sizes_can_exceed_the_address_space() {
    let m = TfliteModel {
        executables: vec![
            executable(vec![], vec![layer(-1, 0, 1.0)]),
            executable(vec![], vec![layer(1, 0, 1.0)]),
        ],
    };
    assert_eq!(m.output_size(), None);
    assert_eq!(m.repr(), None);
}
