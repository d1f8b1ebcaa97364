use qwen3_5_rs::chat::{choose_mode, next_action, trim, Action, Input, Mode};
use qwen3_5_rs::half::{bf16_to_f32, f16_to_f32};
use qwen3_5_rs::launch::{matmul_cells, matmul_grid, Grid};
use qwen3_5_rs::safetensors::{
    assemble_header, read_entry, read_header, read_safetensors, read_safetensors_as_tensors, read_shards_as_tensors, is_weight_shard,
    read_tensors, split_file,
    SafeTensorEntry, SafetensorsError, TensorHeader,
};
use qwen3_5_rs::scalar::Scalar;
use qwen3_5_rs::tensor::Tensor;

/// Single-precision numbers.
#[derive(Clone, Copy, Debug, PartialEq)]
struct F(f32);

impl Scalar for F {
    type Wide = f64;

    fn zero() -> F {
        F(0.0)
    }
    fn one() -> F {
        F(1.0)
    }
    fn lowest() -> F {
        F(f32::NEG_INFINITY)
    }
    fn from_count(n: u64) -> F {
        F(n as f32)
    }
    fn from_bits(bits: u32) -> F {
        F(f32::from_bits(bits))
    }
    fn narrow(wide: f64) -> F {
        F(wide as f32)
    }
    fn negated(self) -> F {
        F(-self.0)
    }
    fn exp(self) -> F {
        F(self.0.exp())
    }
    fn sqrt(self) -> F {
        F(self.0.sqrt())
    }
    fn cos(self) -> F {
        F(self.0.cos())
    }
    fn sin(self) -> F {
        F(self.0.sin())
    }
    fn plus(self, rhs: F) -> F {
        F(self.0 + rhs.0)
    }
    fn minus(self, rhs: F) -> F {
        F(self.0 - rhs.0)
    }
    fn times(self, rhs: F) -> F {
        F(self.0 * rhs.0)
    }
    fn over(self, rhs: F) -> F {
        F(self.0 / rhs.0)
    }
    fn powf(self, rhs: F) -> F {
        F(self.0.powf(rhs.0))
    }
    fn larger(self, rhs: F) -> F {
        F(self.0.max(rhs.0))
    }
    fn less_than(self, rhs: F) -> bool {
        self.0 < rhs.0
    }
    fn at_least(self, rhs: F) -> bool {
        self.0 >= rhs.0
    }
    fn same_as(self, rhs: F) -> bool {
        self.0 == rhs.0
    }
}

fn vals(t: &Tensor<F>) -> Vec<f32> {
    t.data().iter().map(|v| v.0).collect()
}

/// The bytes of a file with the given header and data.
fn write_test_safetensors(header_json: &str, data: &[u8]) -> Vec<u8> {
    let header_bytes = header_json.as_bytes();
    let json_len = header_bytes.len();
    let aligned_len = ((json_len + 7) / 8) * 8;
    let padding = aligned_len - json_len;
    let header_size = aligned_len as u64;

    let mut file_data = Vec::new();
    file_data.extend_from_slice(&header_size.to_le_bytes());
    file_data.extend_from_slice(header_bytes);
    file_data.extend_from_slice(&vec![b' '; padding]);
    file_data.extend_from_slice(data);
    file_data
}

/// The value, or a panic with the error in words.
fn expect<V>(result: Result<V, SafetensorsError>, what: &str) -> V {
    match result {
        Ok(value) => value,
        Err(e) => panic!("{}: {}", what, e.message()),
    }
}

/// The elements of a tensor of a file.
fn floats(entry: &SafeTensorEntry) -> Vec<f32> {
    entry.data.iter().map(|&bits| f32::from_bits(bits)).collect()
}

#[test]
fn test_read_single_f32_tensor() {
    // Build a safetensors file with one 2x3 F32 tensor.
    // 6 f32 values = 24 bytes of data.
    let values = [1.0f32, 2.0, 3.0, 4.0, 5.0, 6.0];
    let mut data_bytes = Vec::new();
    for v in &values {
        data_bytes.extend_from_slice(&v.to_le_bytes());
    }

    let header_json = r#"{"test_tensor":{"dtype":"F32","shape":[2,3],"data_offsets":[0,24]}}"#;
    let file = write_test_safetensors(header_json, &data_bytes);

    let result = expect(read_safetensors(&file), "reading safetensors should succeed");
    let entry = result.get("test_tensor").unwrap();

    assert_eq!(entry.shape, vec![2, 3]);
    assert_eq!(entry.dtype, "F32");
    assert_eq!(floats(entry), vec![1.0, 2.0, 3.0, 4.0, 5.0, 6.0]);
}

#[test]
fn test_read_multiple_tensors() {
    // Build a file with two tensors.
    // Tensor A: shape [2], 2 f32 values = 8 bytes, offsets [0, 8].
    // Tensor B: shape [3], 3 f32 values = 12 bytes, offsets [8, 20].
    let a_values = [10.0f32, 20.0];
    let b_values = [1.0f32, 2.0, 3.0];

    let mut data_bytes = Vec::new();
    for v in &a_values {
        data_bytes.extend_from_slice(&v.to_le_bytes());
    }
    for v in &b_values {
        data_bytes.extend_from_slice(&v.to_le_bytes());
    }

    // Note: JSON keys are sorted in the header for determinism, but
    // safetensors does not require sorted keys. We use explicit ordering.
    let header_json = r#"{"tensor_a":{"dtype":"F32","shape":[2],"data_offsets":[0,8]},"tensor_b":{"dtype":"F32","shape":[3],"data_offsets":[8,20]}}"#;
    let file = write_test_safetensors(header_json, &data_bytes);

    let result = expect(read_safetensors(&file), "reading safetensors should succeed");

    let a = result.get("tensor_a").unwrap();
    assert_eq!(a.shape, vec![2]);
    assert_eq!(floats(a), vec![10.0, 20.0]);

    let b = result.get("tensor_b").unwrap();
    assert_eq!(b.shape, vec![3]);
    assert_eq!(floats(b), vec![1.0, 2.0, 3.0]);
}

#[test]
fn test_skip_metadata_key() {
    // The __metadata__ key should be silently skipped.
    let values = [42.0f32];
    let mut data_bytes = Vec::new();
    for v in &values {
        data_bytes.extend_from_slice(&v.to_le_bytes());
    }

    let header_json = r#"{"__metadata__":{"format":"pt"},"my_tensor":{"dtype":"F32","shape":[1],"data_offsets":[0,4]}}"#;
    let file = write_test_safetensors(header_json, &data_bytes);

    let result = expect(read_safetensors(&file), "reading safetensors should succeed");

    // Only the real tensor should appear, not __metadata__.
    assert_eq!(result.len(), 1);
    assert!(result.contains_key("my_tensor"));
    assert!(!result.contains_key("__metadata__"));

    let entry = result.get("my_tensor").unwrap();
    assert_eq!(floats(entry), vec![42.0]);
}

#[test]
fn test_read_f16_tensor() {
    // F16 tensor with known values.
    // F16 representation of 1.0: sign=0, exp=15 (0x0F), mant=0
    // bits = 0_01111_0000000000 = 0x3C00
    // F16 representation of 2.0: sign=0, exp=16 (0x10), mant=0
    // bits = 0_10000_0000000000 = 0x4000
    let f16_1_0 = 0x3C00u16; // 1.0 in F16
    let f16_2_0 = 0x4000u16; // 2.0 in F16

    let mut data_bytes = Vec::new();
    data_bytes.extend_from_slice(&f16_1_0.to_le_bytes());
    data_bytes.extend_from_slice(&f16_2_0.to_le_bytes());

    let header_json = r#"{"f16_tensor":{"dtype":"F16","shape":[2],"data_offsets":[0,4]}}"#;
    let file = write_test_safetensors(header_json, &data_bytes);

    let result = expect(read_safetensors(&file), "reading F16 tensor should succeed");
    let entry = result.get("f16_tensor").unwrap();

    assert_eq!(entry.shape, vec![2]);
    assert_eq!(entry.dtype, "F16");
    assert!((floats(entry)[0] - 1.0f32).abs() < 1e-6, "F16 1.0 should convert to f32 1.0, got {}", floats(entry)[0]);
    assert!((floats(entry)[1] - 2.0f32).abs() < 1e-6, "F16 2.0 should convert to f32 2.0, got {}", floats(entry)[1]);
}

#[test]
fn test_read_bf16_tensor() {
    // BF16 tensor with known values.
    // BF16 representation of 1.0: same exponent as F32 (0x7F), mantissa=0
    // F32 bits for 1.0 = 0x3F800000
    // BF16 = top 16 bits = 0x3F80
    // BF16 representation of -2.0:
    // F32 bits for -2.0 = 0xC0000000
    // BF16 = top 16 bits = 0xC000
    let bf16_1_0 = 0x3F80u16; // 1.0 in BF16
    let bf16_neg_2_0 = 0xC000u16; // -2.0 in BF16

    let mut data_bytes = Vec::new();
    data_bytes.extend_from_slice(&bf16_1_0.to_le_bytes());
    data_bytes.extend_from_slice(&bf16_neg_2_0.to_le_bytes());

    let header_json = r#"{"bf16_tensor":{"dtype":"BF16","shape":[2],"data_offsets":[0,4]}}"#;
    let file = write_test_safetensors(header_json, &data_bytes);

    let result = expect(read_safetensors(&file), "reading BF16 tensor should succeed");
    let entry = result.get("bf16_tensor").unwrap();

    assert_eq!(entry.shape, vec![2]);
    assert_eq!(entry.dtype, "BF16");
    assert!((floats(entry)[0] - 1.0f32).abs() < 1e-6, "BF16 1.0 should convert to f32 1.0, got {}", floats(entry)[0]);
    assert!((floats(entry)[1] - (-2.0f32)).abs() < 1e-6, "BF16 -2.0 should convert to f32 -2.0, got {}", floats(entry)[1]);
}

#[test]
fn test_unsupported_dtype() {
    // A tensor with an unsupported dtype should produce a clear error.
    let header_json = r#"{"bad_tensor":{"dtype":"U8","shape":[2],"data_offsets":[0,2]}}"#;
    let file = write_test_safetensors(header_json, &[0u8; 2]);

    let result = read_safetensors(&file);
    let err_msg = match result {
        Ok(_) => panic!("reading should fail"),
        Err(e) => e.message(),
    };

    assert!(
        err_msg.contains("Unsupported dtype U8 for tensor bad_tensor"),
        "error message should mention the dtype and tensor name, got: {}",
        err_msg,
    );
    assert!(
        err_msg.contains("only F32, BF16, and F16 are supported"),
        "error message should list supported dtypes, got: {}",
        err_msg,
    );
}

#[test]
fn test_data_size_mismatch() {
    // A tensor whose data_offsets span doesn't match the shape * sizeof(f32)
    // should produce an error.
    // Shape [2, 3] with F32 should be 24 bytes, but data_offsets say [0, 10].
    let header_json = r#"{"mismatch":{"dtype":"F32","shape":[2,3],"data_offsets":[0,10]}}"#;
    let file = write_test_safetensors(header_json, &[0u8; 10]);

    let result = read_safetensors(&file);
    let err_msg = match result {
        Ok(_) => panic!("reading should fail"),
        Err(e) => e.message(),
    };

    assert!(
        err_msg.contains("Data size mismatch for tensor mismatch"),
        "error should mention data size mismatch, got: {}",
        err_msg,
    );
}

#[test]
fn test_read_as_tensors() {
    // Verify that read_safetensors_as_tensors correctly converts entries
    // to our Tensor type.
    let values = [1.0f32, 2.0, 3.0, 4.0, 5.0, 6.0];
    let mut data_bytes = Vec::new();
    for v in &values {
        data_bytes.extend_from_slice(&v.to_le_bytes());
    }

    let header_json = r#"{"weight":{"dtype":"F32","shape":[2,3],"data_offsets":[0,24]}}"#;
    let file = write_test_safetensors(header_json, &data_bytes);

    let tensors = expect(read_safetensors_as_tensors::<F>(&file), "reading safetensors as tensors should succeed");

    let t = tensors.get("weight").unwrap();
    assert_eq!(t.shape(), &[2, 3]);
    assert_eq!(vals(t), &[1.0, 2.0, 3.0, 4.0, 5.0, 6.0]);
}

#[test]
fn shards_are_read_together_and_the_last_one_wins() {
    let one = |name: &str, value: f32| {
        let header = format!(
            "{{\"{}\":{{\"dtype\":\"F32\",\"shape\":[1],\"data_offsets\":[0,4]}}}}",
            name
        );
        write_test_safetensors(&header, &value.to_le_bytes())
    };
    let files = vec![one("a", 1.0), one("b", 2.0), one("a", 3.0)];
    let tensors = expect(read_shards_as_tensors::<F>(&files), "shards should be read");
    assert_eq!(vals(tensors.get("a").unwrap()), &[3.0]);
    assert_eq!(vals(tensors.get("b").unwrap()), &[2.0]);
    assert!(tensors.get("c").is_none());

    let broken = vec![one("a", 1.0), vec![1, 2, 3]];
    let error = match read_shards_as_tensors::<F>(&broken) {
        Ok(_) => panic!("a broken shard was read"),
        Err(e) => e.message(),
    };
    let alone = match read_safetensors_as_tensors::<F>(&[1, 2, 3]) {
        Ok(_) => panic!("a broken file was read"),
        Err(e) => e.message(),
    };
    assert_eq!(error, alone);
    assert!(read_shards_as_tensors::<F>(&Vec::new()).is_ok());
}

#[test]
fn shards_are_known_by_their_names() {
    assert!(is_weight_shard("model-00001-of-00002.safetensors"));
    assert!(is_weight_shard("model-.safetensors"));
    assert!(!is_weight_shard("model.safetensors"));
    assert!(!is_weight_shard("model-00001-of-00002.bin"));
    assert!(!is_weight_shard("other-00001-of-00002.safetensors"));
    assert!(!is_weight_shard(""));
}

#[test]
fn test_1d_tensor() {
    // A 1-D tensor (vector).
    let values = [0.5f32, -1.0, 2.5];
    let mut data_bytes = Vec::new();
    for v in &values {
        data_bytes.extend_from_slice(&v.to_le_bytes());
    }

    let header_json = r#"{"bias":{"dtype":"F32","shape":[3],"data_offsets":[0,12]}}"#;
    let file = write_test_safetensors(header_json, &data_bytes);

    let result = expect(read_safetensors(&file), "reading 1-D tensor should succeed");
    let entry = result.get("bias").unwrap();

    assert_eq!(entry.shape, vec![3]);
    assert_eq!(floats(entry), vec![0.5, -1.0, 2.5]);
}

#[test]
fn test_zero_element_tensor() {
    // A tensor with a zero dimension (0 elements, 0 bytes of data).
    let header_json = r#"{"empty":{"dtype":"F32","shape":[0,4],"data_offsets":[0,0]}}"#;
    let file = write_test_safetensors(header_json, &[]);

    let result = expect(read_safetensors(&file), "reading zero-element tensor should succeed");
    let entry = result.get("empty").unwrap();

    assert_eq!(entry.shape, vec![0, 4]);
    assert!(entry.data.is_empty());
}

#[test]
fn test_negative_f32_values() {
    // Ensure negative and special f32 values round-trip correctly.
    let values = [-0.0f32, -1.5, f32::MIN_POSITIVE, 0.0];
    let mut data_bytes = Vec::new();
    for v in &values {
        data_bytes.extend_from_slice(&v.to_le_bytes());
    }

    let header_json = r#"{"negatives":{"dtype":"F32","shape":[4],"data_offsets":[0,16]}}"#;
    let file = write_test_safetensors(header_json, &data_bytes);

    let result = expect(read_safetensors(&file), "reading negative values should succeed");
    let entry = result.get("negatives").unwrap();

    assert_eq!(entry.data.len(), 4);
    assert_eq!(floats(entry)[0].to_bits(), (-0.0f32).to_bits()); // -0.0 preserved
    assert!((floats(entry)[1] - (-1.5)).abs() < 1e-6);
    assert!((floats(entry)[2] - f32::MIN_POSITIVE).abs() < 1e-30);
}

fn error_of(file: &[u8]) -> String {
    match read_safetensors(file) {
        Ok(_) => panic!("reading should fail"),
        Err(e) => e.message(),
    }
}

#[test]
fn files_that_are_no_files_of_tensors_are_refused() {
    assert_eq!(error_of(&[1, 2, 3]), "file ends inside its header");
    assert_eq!(error_of(&[9, 0, 0, 0, 0, 0, 0, 0, b'{']), "file ends inside its header");
    assert_eq!(error_of(&[0xff; 16]), "file ends inside its header");
    assert_eq!(error_of(&[1, 0, 0, 0, 0, 0, 0, 0, 0xff]), "header is not UTF-8");
    assert_eq!(error_of(&write_test_safetensors("[1, 2]", &[])), "header is not a JSON object");
    assert_eq!(
        error_of(&write_test_safetensors(r#"{"t":{"dtype":"F32"}}"#, &[])),
        "Invalid header for tensor t"
    );
}

#[test]
fn ranges_that_do_not_fit_are_refused() {
    let backwards = r#"{"t":{"dtype":"F32","shape":[1],"data_offsets":[4,0]}}"#;
    assert_eq!(
        error_of(&write_test_safetensors(backwards, &[0; 4])),
        "Invalid byte range for tensor t: 4 to 0"
    );
    let beyond = r#"{"t":{"dtype":"F32","shape":[2],"data_offsets":[0,8]}}"#;
    assert_eq!(
        error_of(&write_test_safetensors(beyond, &[0; 4])),
        "Byte range for tensor t ends at 8, beyond the file"
    );
    let huge = r#"{"t":{"dtype":"F32","shape":[4294967296,4294967296],"data_offsets":[0,8]}}"#;
    assert_eq!(
        error_of(&write_test_safetensors(huge, &[0; 8])),
        "Too many bytes for tensor t: shape [4294967296, 4294967296]"
    );
    let short = r#"{"t":{"dtype":"F16","shape":[2,3],"data_offsets":[0,10]}}"#;
    assert_eq!(
        error_of(&write_test_safetensors(short, &[0; 10])),
        "Data size mismatch for tensor t: expected 12 bytes (shape [2, 3] with F16), got 10 bytes \
         from data_offsets"
    );
}

#[test]
fn headers_are_read_in_parts() {
    let file = write_test_safetensors("{}", &[7, 8]);
    let (header, data_start) = match split_file(&file) {
        Ok(parts) => parts,
        Err(e) => panic!("{}", e.message()),
    };
    assert_eq!(header, "{}      ");
    assert_eq!(data_start, 16);
    assert_eq!(&file[data_start..], &[7, 8]);

    let header = read_header(r#"{"dtype":"BF16","shape":[3,1],"data_offsets":[2,8]}"#).unwrap();
    assert_eq!(header.dtype, "BF16");
    assert_eq!(header.shape, vec![3, 1]);
    assert_eq!((header.start, header.end), (2, 8));
    assert!(read_header(r#"{"dtype":"F32","shape":[3],"data_offsets":[2]}"#).is_none());
    assert!(read_header(r#"{"dtype":7,"shape":[3],"data_offsets":[2,8]}"#).is_none());
    assert!(read_header("12").is_none());
}

#[test]
fn entries_are_read_where_their_header_says() {
    let header = |dtype: &str, start: usize, end: usize| {
        Some(TensorHeader { dtype: dtype.to_string(), shape: vec![1], start, end })
    };
    let file = [0, 0, 0, 0x80, 0x3f, 0, 0x3c];
    let entry = read_entry("x", header("F32", 0, 4), &file, 1).unwrap();
    assert_eq!(entry.name, "x");
    assert_eq!(entry.dtype, "F32");
    assert_eq!(entry.data, vec![0x3f80_0000]);
    let entry = read_entry("y", header("BF16", 2, 4), &file, 1).unwrap();
    assert_eq!(entry.data, vec![0x3f80_0000]);
    let entry = read_entry("z", header("F16", 4, 6), &file, 1).unwrap();
    assert_eq!(entry.data, vec![0x3f80_0000]);
    assert!(read_entry("n", None, &file, 1).is_err());
}

#[test]
fn half_precision_numbers_keep_their_value() {
    assert_eq!(f32::from_bits(f16_to_f32(0x0000)).to_bits(), 0.0f32.to_bits());
    assert_eq!(f32::from_bits(f16_to_f32(0x8000)).to_bits(), (-0.0f32).to_bits());
    assert_eq!(f32::from_bits(f16_to_f32(0x0001)), 5.9604645e-8);
    assert_eq!(f32::from_bits(f16_to_f32(0x03ff)), 6.0975552e-5);
    assert_eq!(f32::from_bits(f16_to_f32(0x0400)), 6.103515625e-5);
    assert_eq!(f32::from_bits(f16_to_f32(0x3555)), 0.33325195);
    assert_eq!(f32::from_bits(f16_to_f32(0xc000)), -2.0);
    assert_eq!(f32::from_bits(f16_to_f32(0x7bff)), 65504.0);
    assert_eq!(f32::from_bits(f16_to_f32(0x7c00)), f32::INFINITY);
    assert_eq!(f32::from_bits(f16_to_f32(0xfc00)), f32::NEG_INFINITY);
    assert!(f32::from_bits(f16_to_f32(0x7e00)).is_nan());
}

#[test]
fn every_small_half_is_a_multiple_of_the_smallest() {
    for half in 0..1024u16 {
        let value = f32::from_bits(f16_to_f32(half));
        assert_eq!(value, half as f32 / 16777216.0);
    }
}

#[test]
fn brain_floats_are_the_upper_halves() {
    assert_eq!(bf16_to_f32(0x3f80), 0x3f80_0000);
    assert_eq!(f32::from_bits(bf16_to_f32(0x4049)), 3.140625);
    assert_eq!(f32::from_bits(bf16_to_f32(0xff80)), f32::NEG_INFINITY);
}

#[test]
fn grids_cover_the_product() {
    assert_eq!(matmul_grid(16, 16), Grid { rows: 1, columns: 1 });
    assert_eq!(matmul_grid(17, 1), Grid { rows: 2, columns: 1 });
    assert_eq!(matmul_grid(0, 33), Grid { rows: 0, columns: 3 });
    assert_eq!(matmul_grid(u32::MAX, 1), Grid { rows: 268435456, columns: 1 });
}

#[test]
fn products_need_factors_of_their_size() {
    assert_eq!(matmul_cells(6, 12, 2, 4, 3), Some(8));
    assert_eq!(matmul_cells(5, 12, 2, 4, 3), None);
    assert_eq!(matmul_cells(6, 11, 2, 4, 3), None);
    assert_eq!(matmul_cells(0, 0, usize::MAX, 2, 0), None);
}

#[test]
fn a_conversation_comes_before_a_prompt() {
    assert!(matches!(choose_mode(true, Some("hi".to_string())), Mode::Interactive));
    assert!(matches!(choose_mode(false, Some("hi".to_string())), Mode::Single(p) if p == "hi"));
    assert!(matches!(choose_mode(false, None), Mode::Unclear));
}

#[test]
fn lines_are_commands_or_prompts() {
    let line = |s: &str| next_action(Input::Line(s.to_string()));
    assert!(matches!(line("  \t\n"), Action::Continue));
    assert!(matches!(line("quit\n"), Action::Quit));
    assert!(matches!(line(" exit "), Action::Quit));
    assert!(matches!(line("/reset\n"), Action::Reset));
    assert!(matches!(line(" tell me \n"), Action::Generate(p) if p == "tell me"));
    assert!(matches!(next_action(Input::End), Action::Quit));
    assert!(matches!(next_action(Input::Failed), Action::Quit));
}

#[test]
fn trimming_takes_whitespace_off_both_ends() {
    assert_eq!(trim("\u{3000} a b\t\u{a0}"), "a b");
    assert_eq!(trim("   "), "");
}

#[test]
fn headers_need_all_three_parts() {
    let header = assemble_header(
        Some("F16".to_string()),
        Some(vec![2, 3]),
        Some(vec![4, 16]),
    )
    .unwrap();
    assert_eq!(header.dtype, "F16");
    assert_eq!(header.shape, vec![2, 3]);
    assert_eq!((header.start, header.end), (4, 16));
    assert!(assemble_header(None, Some(vec![]), Some(vec![0, 0])).is_none());
    assert!(assemble_header(Some("F16".to_string()), None, Some(vec![0, 0])).is_none());
    assert!(assemble_header(Some("F16".to_string()), Some(vec![]), None).is_none());
    assert!(assemble_header(Some("F16".to_string()), Some(vec![]), Some(vec![1])).is_none());
}

#[test]
fn tensors_are_read_up_to_the_first_fault() {
    let header = |dtype: &str, end: usize| {
        Some(TensorHeader { dtype: dtype.to_string(), shape: vec![1], start: 0, end })
    };
    let file = [0, 0, 0x80, 0x3f];
    let headers = vec![
        ("a".to_string(), header("F32", 4)),
        ("__metadata__".to_string(), None),
        ("b".to_string(), header("BF16", 2)),
    ];
    let list = read_tensors(&headers, &file, 0).unwrap();
    let names: Vec<&str> = list.iter().map(|e| e.name.as_str()).collect();
    assert_eq!(names, vec!["a", "b"]);
    assert_eq!(list[0].data, vec![0x3f80_0000]);
    assert_eq!(list[1].data, vec![0]);

    let headers = vec![
        ("a".to_string(), header("F32", 4)),
        ("c".to_string(), header("U8", 1)),
        ("d".to_string(), None),
    ];
    let error = match read_tensors(&headers, &file, 0) {
        Ok(_) => panic!("reading should fail"),
        Err(e) => e.message(),
    };
    assert!(error.starts_with("Unsupported dtype U8 for tensor c"));
}
