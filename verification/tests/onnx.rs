use aura_lang::onnx::{onnx_io_shapes, OnnxDim, OnnxIoShapes};

fn varint(mut v: u64) -> Vec<u8> {
    let mut out = Vec::new();
    loop {
        let b = (v & 0x7f) as u8;
        v >>= 7;
        if v == 0 {
            out.push(b);
            return out;
        }
        out.push(b | 0x80);
    }
}

fn key(field: u64, wire: u64) -> Vec<u8> {
    varint((field << 3) | wire)
}

fn ld(field: u64, payload: &[u8]) -> Vec<u8> {
    let mut out = key(field, 2);
    out.extend(varint(payload.len() as u64));
    out.extend_from_slice(payload);
    out
}

fn dim_value(v: u64) -> Vec<u8> {
    let mut d = key(1, 0);
    d.extend(varint(v));
    ld(1, &d)
}

fn dim_param(p: &[u8]) -> Vec<u8> {
    ld(1, &ld(2, p))
}

fn value_info(name: &str, dims: &[Vec<u8>]) -> Vec<u8> {
    let shape: Vec<u8> = dims.concat();
    let mut tensor = key(1, 0);
    tensor.extend(varint(1));
    tensor.extend(ld(2, &shape));
    let ty = ld(1, &tensor);
    let mut vi = ld(1, name.as_bytes());
    vi.extend(ld(2, &ty));
    vi
}

fn model(graph: &[u8]) -> Vec<u8> {
    let mut m = key(1, 0);
    m.extend(varint(7));
    m.extend(ld(7, graph));
    m
}

#[test]
fn shapes_of_input_and_output_are_read() {
    let mut graph = ld(1, b"node");
    graph.extend(ld(11, &value_info("x", &[dim_param(b"N"), dim_value(3), dim_value(224)])));
    graph.extend(ld(12, &value_info("y", &[dim_value(1), dim_value(1000)])));
    let shapes = onnx_io_shapes(&model(&graph)).unwrap();
    assert_eq!(
        shapes,
        OnnxIoShapes {
            input: vec![OnnxDim::Symbolic("N".to_string()), OnnxDim::Known(3), OnnxDim::Known(224)],
            output: vec![OnnxDim::Known(1), OnnxDim::Known(1000)],
        }
    );
}

#[test]
fn value_wins_over_parameter_and_wraps_to_signed() {
    let mut both = key(2, 2);
    both.extend(varint(1));
    both.push(b'B');
    both.extend(key(1, 0));
    both.extend(varint(7));
    let mut graph = ld(11, &value_info("x", &[ld(1, &both), dim_value(u64::MAX)]));
    graph.extend(ld(12, &value_info("y", &[])));
    let shapes = onnx_io_shapes(&model(&graph)).unwrap();
    assert_eq!(shapes.input, vec![OnnxDim::Known(7), OnnxDim::Known(-1)]);
    assert!(shapes.output.is_empty());
}

#[test]
fn dimensions_that_do_not_parse_are_skipped() {
    // not UTF-8, and a dimension with neither value nor parameter
    let mut graph = ld(11, &value_info("x", &[dim_param(&[0xff, 0xfe]), ld(1, &[]), dim_value(5)]));
    graph.extend(ld(12, &value_info("y", &[dim_value(2)])));
    let shapes = onnx_io_shapes(&model(&graph)).unwrap();
    assert_eq!(shapes.input, vec![OnnxDim::Known(5)]);
    assert_eq!(shapes.output, vec![OnnxDim::Known(2)]);
}

#[test]
fn missing_parts_are_reported() {
    assert_eq!(onnx_io_shapes(&[]), Err("ONNX model missing graph field".to_string()));
    let only_input = ld(11, &value_info("x", &[dim_value(1)]));
    assert_eq!(onnx_io_shapes(&model(&[])), Err("ONNX graph missing input".to_string()));
    assert_eq!(onnx_io_shapes(&model(&only_input)), Err("ONNX graph missing output".to_string()));
    let mut no_shape = ld(11, &ld(1, b"x"));
    no_shape.extend(ld(12, &value_info("y", &[dim_value(1)])));
    assert_eq!(
        onnx_io_shapes(&model(&no_shape)),
        Err("ONNX input type missing tensor shape".to_string())
    );
    let mut no_out_shape = ld(11, &value_info("x", &[dim_value(1)]));
    no_out_shape.extend(ld(12, &ld(1, b"y")));
    assert_eq!(
        onnx_io_shapes(&model(&no_out_shape)),
        Err("ONNX output type missing tensor shape".to_string())
    );
}

#[test]
fn unknown_wire_types_are_skipped_and_bad_varints_stop_the_scan() {
    // a fixed64 and a fixed32 field before the graph
    let mut m = key(3, 1);
    m.extend([0u8; 8]);
    m.extend(key(4, 5));
    m.extend([0u8; 4]);
    let mut graph = ld(11, &value_info("x", &[dim_value(9)]));
    graph.extend(ld(12, &value_info("y", &[dim_value(8)])));
    m.extend(ld(7, &graph));
    let shapes = onnx_io_shapes(&m).unwrap();
    assert_eq!(shapes.input, vec![OnnxDim::Known(9)]);
    // a varint key of eleven bytes cannot be read
    let mut bad = vec![0x80u8; 10];
    bad.push(0x01);
    bad.extend(ld(7, &graph));
    assert_eq!(onnx_io_shapes(&bad), Err("ONNX model missing graph field".to_string()));
    // a group start (wire type 3) cannot be skipped
    let mut group = key(2, 3);
    group.extend(ld(7, &graph));
    assert_eq!(onnx_io_shapes(&group), Err("ONNX model missing graph field".to_string()));
}
