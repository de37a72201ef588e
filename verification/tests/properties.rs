//! What holds of all headers, on some of them.
use gguf_rs::grammar::Dialect;
use gguf_rs::reader::CountingReader;
use gguf_rs::{
    detect_magic, ggml_type_layout, human_number, ByteOrder, FileRequest, GGMLType, GGUFContainer,
    GGUFError, GGUFModel, InputBounds, MetadataScalar, MetadataValue, MetadataValueType, ReadError,
    StringContext, FILE_MAGIC_GGJT, FILE_MAGIC_GGLA, FILE_MAGIC_GGMF, FILE_MAGIC_GGML,
};
use std::collections::BTreeMap;

/// Writes headers in one byte order and version.
struct Writer {
    big: bool,
    version: u32,
    bytes: Vec<u8>,
}

impl Writer {
    fn put(&mut self, le: &[u8]) {
        let mut bytes = le.to_vec();
        if self.big {
            bytes.reverse();
        }
        self.bytes.extend_from_slice(&bytes);
    }

    fn size(&mut self, n: u64) {
        if self.version == 1 {
            self.put(&(n as u32).to_le_bytes());
        } else {
            self.put(&n.to_le_bytes());
        }
    }

    fn string(&mut self, s: &str) {
        self.size(s.len() as u64);
        self.bytes.extend_from_slice(s.as_bytes());
    }

    fn scalar(&mut self, v: &MetadataScalar) {
        match v {
            MetadataScalar::Uint8(n) => self.put(&n.to_le_bytes()),
            MetadataScalar::Int8(n) => self.put(&n.to_le_bytes()),
            MetadataScalar::Uint16(n) => self.put(&n.to_le_bytes()),
            MetadataScalar::Int16(n) => self.put(&n.to_le_bytes()),
            MetadataScalar::Uint32(n) => self.put(&n.to_le_bytes()),
            MetadataScalar::Int32(n) => self.put(&n.to_le_bytes()),
            MetadataScalar::Float32(n) => self.put(&n.to_le_bytes()),
            MetadataScalar::Bool(b) => self.put(&[*b as u8]),
            MetadataScalar::String(s) => self.string(s),
            MetadataScalar::Uint64(n) => self.put(&n.to_le_bytes()),
            MetadataScalar::Int64(n) => self.put(&n.to_le_bytes()),
            MetadataScalar::Float64(n) => self.put(&n.to_le_bytes()),
        }
    }

    fn value(&mut self, v: &MetadataValue) {
        self.put(&v.value_type().code().to_le_bytes());
        match v {
            MetadataValue::Scalar(scalar) => self.scalar(scalar),
            MetadataValue::Array(items) => {
                self.put(&items[0].value_type().code().to_le_bytes());
                self.size(items.len() as u64);
                for item in items {
                    self.scalar(item);
                }
            }
        }
    }

    fn tensor(&mut self, name: &str, dims: &[u64], kind: u32, offset: u64) {
        self.string(name);
        self.put(&(dims.len() as u32).to_le_bytes());
        for dim in dims {
            self.put(&dim.to_le_bytes());
        }
        self.put(&kind.to_le_bytes());
        self.put(&offset.to_le_bytes());
    }
}

fn scalars() -> Vec<MetadataScalar> {
    vec![
        MetadataScalar::Uint8(0xfe),
        MetadataScalar::Int8(-2),
        MetadataScalar::Uint16(0xfedc),
        MetadataScalar::Int16(-0x1234),
        MetadataScalar::Uint32(0xfedc_ba98),
        MetadataScalar::Int32(-0x1234_5678),
        MetadataScalar::Float32(1.5f32.to_bits()),
        MetadataScalar::Bool(true),
        MetadataScalar::Bool(false),
        MetadataScalar::String("h\u{e4}t, \u{20ac}, \u{1f600}".to_string()),
        MetadataScalar::String(String::new()),
        MetadataScalar::Uint64(0xfedc_ba98_7654_3210),
        MetadataScalar::Int64(-0x1234_5678_9abc_def0),
        MetadataScalar::Float64((-2.25f64).to_bits()),
        MetadataScalar::Int8(i8::MAX),
        MetadataScalar::Int8(i8::MIN),
        MetadataScalar::Int64(i64::MAX),
        MetadataScalar::Int64(i64::MIN),
    ]
}

/// Values of all types, single and in arrays of five.
fn values() -> Vec<(String, MetadataValue)> {
    let mut all = Vec::new();
    for (i, scalar) in scalars().into_iter().enumerate() {
        let items = vec![scalar.clone(); 5];
        all.push((format!("single.{i}"), MetadataValue::Scalar(scalar)));
        all.push((format!("array.{i}"), MetadataValue::Array(items)));
    }
    all
}

fn full_header(big: bool, version: u32) -> Vec<u8> {
    let values = values();
    let mut w = Writer { big, version, bytes: Vec::new() };
    w.put(&version.to_le_bytes());
    w.size(2);
    w.size(values.len() as u64);
    for (key, value) in &values {
        w.string(key);
        w.value(value);
    }
    w.tensor("a", &[256, 3], 12, 0);
    w.tensor("b", &[5, 7, 2, 3], 1, 448);
    w.bytes
}

fn order(big: bool) -> ByteOrder {
    if big {
        ByteOrder::BE
    } else {
        ByteOrder::LE
    }
}

fn decode(big: bool, bytes: Vec<u8>, max_array_size: u64) -> Result<GGUFModel, GGUFError> {
    GGUFContainer::new_after_magic(order(big), bytes, max_array_size)
        .allow_unbounded_input()
        .decode()
}

fn assert_full(model: &GGUFModel, version: u32) {
    let values = values();
    assert_eq!(model.get_version(), format!("v{version}"));
    assert_eq!(model.num_kv(), values.len() as u64);
    assert_eq!(model.num_tensor(), 2);
    assert_eq!(model.metadata().len(), values.len());
    assert!(!model.metadata().is_empty());
    for (key, value) in &values {
        assert_eq!(model.metadata().get(key), Some(value));
    }
    let map: BTreeMap<String, MetadataValue> = values.into_iter().collect();
    assert_eq!(model.metadata().entries().len(), map.len());
    for (entry, (key, value)) in model.metadata().entries().iter().zip(&map) {
        assert_eq!(&entry.key, key);
        assert_eq!(&entry.value, value);
    }
    assert_eq!(model.metadata().get("missing"), None);
    let tensors = model.tensors();
    assert_eq!(tensors.len(), 2);
    assert_eq!(tensors[0].name, "a");
    assert_eq!(tensors[0].kind, 12);
    assert_eq!(tensors[0].offset, 0);
    assert_eq!(tensors[0].size, 144 * 3);
    assert_eq!(tensors[0].shape, vec![256, 3, 1, 1]);
    assert_eq!(tensors[1].name, "b");
    assert_eq!(tensors[1].kind, 1);
    assert_eq!(tensors[1].offset, 448);
    assert_eq!(tensors[1].size, 2 * 5 * 7 * 2 * 3);
    assert_eq!(tensors[1].shape, vec![5, 7, 2, 3]);
    assert_eq!(model.model_parameters(), "978");
}

#[test]
fn headers_are_read_back() {
    for version in [1, 2, 3] {
        for big in [false, true] {
            let model = decode(big, full_header(big, version), 5).unwrap();
            assert_full(&model, version);
        }
    }
}

#[test]
fn files_are_read_back() {
    for (magic, big) in [(b"GGUF", false), (b"FUGG", true)] {
        let mut file = magic.to_vec();
        file.extend_from_slice(&full_header(big, 3));
        file.resize(file.len().div_ceil(32) * 32 + 448 + 420, 0);
        let len = file.len() as u64;
        let mut container = GGUFContainer::new(file, u64::MAX).unwrap().with_input_len(len);
        assert_full(&container.decode().unwrap(), 3);
        assert_eq!(container.num_kv(), values().len() as u64);
        assert_eq!(container.num_tensor(), 2);
    }
}

#[test]
fn the_wrong_byte_order_is_refused() {
    assert!(decode(true, full_header(false, 3), 5).is_err());
    assert!(decode(false, full_header(true, 3), 5).is_err());
}

#[test]
fn magics() {
    assert_eq!(detect_magic(*b"GGUF").unwrap(), ByteOrder::LE);
    assert_eq!(detect_magic(*b"FUGG").unwrap(), ByteOrder::BE);
    for other in [*b"GGML", *b"GGMF", *b"tjgg", [0; 4], [0xff; 4]] {
        assert_eq!(detect_magic(other).err().unwrap(), GGUFError::InvalidMagic);
    }
    for other in [FILE_MAGIC_GGML, FILE_MAGIC_GGMF, FILE_MAGIC_GGJT, FILE_MAGIC_GGLA] {
        assert!(detect_magic(other.to_le_bytes()).is_err());
        assert!(detect_magic(other.to_be_bytes()).is_err());
    }
}

#[test]
fn pieces_give_the_same_as_the_whole() {
    let header = full_header(false, 3);
    let mut tail = header.clone();
    tail.extend_from_slice(&[9; 2000]);
    for step in [1usize, 7, 100, 5000] {
        let mut container =
            GGUFContainer::new_after_magic(ByteOrder::LE, Vec::new(), 5).allow_unbounded_input();
        let mut pos = 0;
        let model = loop {
            if let Some(result) = container.try_decode() {
                break result.unwrap();
            }
            assert!(pos < header.len());
            let end = tail.len().min(pos + step);
            container.extend_input(&tail[pos..end]);
            pos = end;
        };
        assert_full(&model, 3);
        assert_eq!(container.get_version(), "v3");
    }
}

#[test]
fn no_prefix_of_a_header_is_one() {
    let header = full_header(true, 2);
    for n in 0..header.len() {
        let err = decode(true, header[..n].to_vec(), 5).err().unwrap();
        assert!(err.is_eof());
        let mut container = GGUFContainer::new_after_magic(ByteOrder::BE, header[..n].to_vec(), 5)
            .with_input_len(n as u64 + 4);
        assert!(container.try_decode().is_some());
        let mut container = GGUFContainer::new_after_magic(ByteOrder::BE, header[..n].to_vec(), 5)
            .with_input_len(n as u64 + 5);
        assert!(container.try_decode().is_none());
    }
}

#[test]
fn nothing_behind_the_length_is_read() {
    let header = full_header(false, 3);
    let mut container =
        GGUFContainer::new_after_magic(ByteOrder::LE, header, 5).with_input_len(50);
    let err = container.decode().err().unwrap();
    assert_eq!(err, GGUFError::Read(ReadError::UnexpectedEof));
    assert_eq!(container.get_version(), "v3");
}

#[test]
fn the_length_only_refuses() {
    let header = full_header(false, 3);
    let end = (header.len() as u64 + 4).div_ceil(32) * 32 + 448 + 420;
    for (len, accepted) in [(end, true), (end - 1, false), (end + 1, true)] {
        let mut container =
            GGUFContainer::new_after_magic(ByteOrder::LE, header.clone(), 5).with_input_len(len);
        let result = container.decode();
        assert_eq!(result.is_ok(), accepted);
        if let Ok(model) = result {
            assert_full(&model, 3);
        }
    }
    assert_ne!(InputBounds::Known(end), InputBounds::TrustedUnbounded);
}

#[test]
fn decoding_uses_up_the_input() {
    let mut container = GGUFContainer::new_after_magic(ByteOrder::LE, full_header(false, 2), 5)
        .allow_unbounded_input();
    assert!(container.decode().is_ok());
    assert_eq!(container.get_version(), "v2");
    let err = container.decode().err().unwrap();
    assert_eq!(err, GGUFError::Read(ReadError::UnexpectedEof));
    assert_eq!(container.get_version(), "v2");
}

#[test]
fn without_bounds_nothing_is_used_up() {
    let mut container = GGUFContainer::new_after_magic(ByteOrder::LE, full_header(false, 2), 5);
    assert_eq!(container.decode().err().unwrap(), GGUFError::InputLengthRequired);
    assert!(container.try_decode().unwrap().is_err());
    assert_eq!(container.get_version(), "v1");
    assert_full(&container.allow_unbounded_input().decode().unwrap(), 2);
}

#[test]
fn arrays_are_cut_and_nothing_else() {
    let whole = decode(false, full_header(false, 3), u64::MAX).unwrap();
    for n in 0..7u64 {
        let cut = decode(false, full_header(false, 3), n).unwrap();
        let pairs = cut.metadata().entries().into_iter().zip(whole.metadata().entries());
        for (short, long) in pairs {
            assert_eq!(short.key, long.key);
            match (&short.value, &long.value) {
                (MetadataValue::Array(x), MetadataValue::Array(y)) => {
                    assert_eq!(x[..], y[..y.len().min(n as usize)]);
                }
                (x, y) => assert_eq!(x, y),
            }
        }
        assert_eq!(cut.tensors().len(), whole.tensors().len());
    }
}

#[test]
fn skipping_refuses_what_reading_refuses() {
    let mut w = Writer { big: false, version: 3, bytes: Vec::new() };
    w.put(&3u32.to_le_bytes());
    w.size(0);
    w.size(1);
    w.string("key");
    w.put(&9u32.to_le_bytes());
    w.put(&7u32.to_le_bytes());
    w.size(3);
    w.bytes.extend_from_slice(&[1, 0, 2]);
    let read = decode(false, w.bytes.clone(), 3).err().unwrap();
    assert_eq!(read, GGUFError::Read(ReadError::InvalidBool(2)));
    let skipped = decode(false, w.bytes, 2).err().unwrap();
    assert_eq!(
        skipped,
        GGUFError::Read(ReadError::SkippedArrayItem(2, Box::new(ReadError::InvalidBool(2))))
    );
}

#[test]
fn a_snapshot_is_opened_with_its_length() {
    let mut file = b"GGUF".to_vec();
    file.extend_from_slice(&full_header(false, 3));
    file.resize(file.len().div_ceil(32) * 32 + 448 + 420, 0);
    let request = FileRequest::asynchronous("f", Some(1 << 20)).with_max_array_size(5);
    let sized = request.expecting(ByteOrder::LE).found(Some(file.len() as u64)).unwrap();
    let mut container = sized.magic(*b"GGUF").unwrap().snapshot(file).unwrap();
    assert_full(&container.decode().unwrap(), 3);
}

#[test]
fn descriptions_of_models() {
    let described = |kvs: &[(&str, MetadataScalar)]| {
        let mut w = Writer { big: false, version: 3, bytes: Vec::new() };
        w.put(&3u32.to_le_bytes());
        w.size(0);
        w.size(kvs.len() as u64);
        for (key, v) in kvs {
            w.string(key);
            w.put(&v.value_type().code().to_le_bytes());
            w.scalar(v);
        }
        decode(false, w.bytes, 3).unwrap()
    };
    let model = described(&[]);
    assert_eq!(model.model_family(), "unknown");
    assert_eq!(model.file_type(), "unknown");
    assert_eq!(model.model_parameters(), "unknown");
    let text = MetadataScalar::String("phi".to_string());
    assert_eq!(described(&[("general.architecture", text)]).model_family(), "phi");
    let number = MetadataScalar::Uint32(1);
    assert_eq!(described(&[("general.architecture", number)]).model_family(), "unknown");
    for v in [
        MetadataScalar::Uint8(7),
        MetadataScalar::Int8(7),
        MetadataScalar::Uint16(7),
        MetadataScalar::Int16(7),
        MetadataScalar::Uint32(7),
        MetadataScalar::Int32(7),
        MetadataScalar::Uint64(7),
        MetadataScalar::Int64(7),
    ] {
        assert_eq!(described(&[("general.file_type", v)]).file_type(), "Mostly Q8_0");
    }
    for v in [
        MetadataScalar::Int8(-1),
        MetadataScalar::Int16(-1),
        MetadataScalar::Int32(-1),
        MetadataScalar::Int64(-1),
        MetadataScalar::Float32(7.0f32.to_bits()),
        MetadataScalar::Bool(true),
        MetadataScalar::Uint8(25),
    ] {
        assert_eq!(described(&[("general.file_type", v)]).file_type(), "unknown");
    }
}

#[test]
fn numbers_for_human_readers_follow_double_precision() {
    let shown = |value: u64| {
        if value > 1_000_000_000 {
            format!("{:.0}B", value as f64 / 1_000_000_000f64)
        } else if value > 1_000_000 {
            format!("{:.0}M", value as f64 / 1_000_000f64)
        } else if value > 1000 {
            format!("{:.0}K", value as f64 / 1000f64)
        } else {
            format!("{}", value)
        }
    };
    let mut value = 1u64;
    while value < u64::MAX / 3 {
        for v in [value - 1, value, value + 1, value * 2 + value / 2] {
            assert_eq!(human_number(v), shown(v));
        }
        value = value * 3 / 2 + 1;
    }
    for k in 0..2000u64 {
        let half = k * 1_000_000_000 + 500_000_000;
        for v in [half - 1, half, half + 1] {
            assert_eq!(human_number(v), shown(v));
        }
        let large = (1u64 << 53) + k * 123_456_789_123_457;
        assert_eq!(human_number(large), shown(large));
    }
    assert_eq!(human_number(u64::MAX), shown(u64::MAX));
    assert_eq!(human_number(2_500_000_000), "2B");
    assert_eq!(human_number(0), "0");
}

#[test]
fn numbers_of_types() {
    for code in 0..50u32 {
        assert_eq!(MetadataValueType::try_from(code).is_ok(), code <= 12);
        if let Ok(t) = MetadataValueType::try_from(code) {
            assert_eq!(t.code(), code);
        }
        let readable = code < 40 && code != 4 && code != 5;
        assert_eq!(GGMLType::try_from(code).is_ok(), readable);
        if let Ok(t) = GGMLType::try_from(code) {
            assert_eq!(t.code(), code);
        }
    }
}

#[test]
fn layouts_of_types() {
    let layouts = [
        (0u32, 1u64, 4u64),
        (1, 1, 2),
        (2, 32, 18),
        (3, 32, 20),
        (6, 32, 22),
        (7, 32, 24),
        (8, 32, 34),
        (9, 32, 40),
        (10, 256, 84),
        (11, 256, 110),
        (12, 256, 144),
        (13, 256, 176),
        (14, 256, 210),
        (15, 256, 292),
        (16, 256, 66),
        (17, 256, 74),
        (18, 256, 98),
        (19, 256, 50),
        (20, 32, 18),
        (21, 256, 110),
        (22, 256, 82),
        (23, 256, 136),
        (24, 1, 1),
        (25, 1, 2),
        (26, 1, 4),
        (27, 1, 8),
        (28, 1, 8),
        (29, 256, 56),
        (30, 1, 2),
        (34, 256, 54),
        (35, 256, 66),
        (39, 32, 17),
    ];
    for (code, block, bytes) in layouts {
        let kind = GGMLType::try_from(code).unwrap();
        assert_eq!(ggml_type_layout(kind).unwrap(), (block, bytes));
    }
    for kind in [GGMLType::Q4_2, GGMLType::Q4_3, GGMLType::Count, GGMLType::IQ4_NL_8_8] {
        assert_eq!(ggml_type_layout(kind).err().unwrap(), GGUFError::UnsupportedTensorType);
    }
}

#[test]
fn names_of_types() {
    assert_eq!(GGMLType::F32.name(), "F32");
    assert_eq!(GGMLType::Q4_2.name(), "Q4_2 (UNSUPPORTED)");
    assert_eq!(GGMLType::IQ4_NL_4_8.name(), "IQ4_NL_4_8 (UNSUPPORTED)");
    assert_eq!(GGMLType::MXFP4.name(), "MXFP4");
    assert_eq!(GGMLType::Count.name(), "Count");
}

#[test]
fn pairs_come_in_the_order_of_their_keys() {
    let keys = ["b", "a.b", "\u{e4}", "a", "B", "\u{1f600}", "\u{ffff}", "ab", "a\u{0}"];
    let mut w = Writer { big: false, version: 3, bytes: Vec::new() };
    w.put(&3u32.to_le_bytes());
    w.size(0);
    w.size(keys.len() as u64);
    for (i, key) in keys.iter().enumerate() {
        w.string(key);
        w.value(&MetadataValue::Scalar(MetadataScalar::Uint8(i as u8)));
    }
    let model = decode(false, w.bytes, 3).unwrap();
    let mut sorted = keys.to_vec();
    sorted.sort();
    let entries = model.metadata().entries();
    let found: Vec<&str> = entries.iter().map(|entry| entry.key.as_str()).collect();
    assert_eq!(found, sorted);
    for (i, key) in keys.iter().enumerate() {
        let value = MetadataValue::Scalar(MetadataScalar::Uint8(i as u8));
        assert_eq!(model.metadata().get(key), Some(&value));
    }
}

#[test]
fn both_byte_orders_are_refused_for_the_same_reason() {
    let wrong = |big: bool, fault: usize, version: u32| {
        let mut w = Writer { big, version, bytes: Vec::new() };
        w.put(&(if fault == 0 { 7 } else { version }).to_le_bytes());
        w.size(1);
        w.size(2);
        w.string(if fault == 1 { "" } else { "one" });
        w.put(&(if fault == 2 { 77u32 } else { 7 }).to_le_bytes());
        w.put(&[if fault == 3 { 5 } else { 1 }]);
        w.string(if fault == 4 { "one" } else { "two" });
        w.put(&9u32.to_le_bytes());
        w.put(&(if fault == 5 { 9u32 } else { 2 }).to_le_bytes());
        w.size(if fault == 6 { 1_000_001 } else { 2 });
        w.put(&258u16.to_le_bytes());
        w.put(&772u16.to_le_bytes());
        let dims: &[u64] = match fault {
            7 => &[],
            8 => &[0],
            9 => &[1 << 31],
            10 => &[1 << 30, 1 << 30, 16],
            11 => &[1 << 30, 1 << 11],
            _ => &[32],
        };
        let kind = if fault == 12 { 40 } else if fault == 13 { 31 } else { 2 };
        let offset = if fault == 14 { 1 } else { 0 };
        w.tensor("t", dims, kind, offset);
        if fault == 15 {
            w.bytes.pop();
        }
        decode(big, w.bytes, 1)
    };
    for version in [1, 2, 3] {
        for fault in 0..16 {
            let little = wrong(false, fault, version).err().unwrap();
            assert_eq!(wrong(true, fault, version).err().unwrap(), little);
        }
        assert!(wrong(false, 16, version).is_ok());
        assert!(wrong(true, 16, version).is_ok());
    }
}

#[test]
fn only_the_header_is_read() {
    let header = full_header(false, 3);
    let end = (header.len() as u64 + 4).div_ceil(32) * 32 + 448 + 420;
    for tail in [0usize, 1, 500] {
        let mut bytes = header.clone();
        bytes.resize(header.len() + tail, 0xff);
        let mut container =
            GGUFContainer::new_after_magic(ByteOrder::LE, bytes, 5).with_input_len(end);
        assert_full(&container.try_decode().unwrap().unwrap(), 3);
    }
    let mut short = header;
    short.pop();
    let mut container =
        GGUFContainer::new_after_magic(ByteOrder::LE, short, 5).with_input_len(end);
    assert!(container.try_decode().is_none());
}

#[test]
fn how_far_refused_reads_get() {
    let d = Dialect { order: ByteOrder::LE, wide: false, max_array_size: 3 };
    let mut reader = CountingReader::new(&[2, 1, 0]);
    assert_eq!(d.read_bool(&mut reader).unwrap_err(), ReadError::InvalidBool(2));
    assert_eq!(reader.bytes_read(), 1);
    assert_eq!(d.read_bool(&mut reader), Ok(true));
    assert_eq!(d.read_bool(&mut reader), Ok(false));
    assert_eq!(reader.bytes_read(), 3);
    assert_eq!(d.read_bool(&mut reader).unwrap_err(), ReadError::UnexpectedEof);
    let mut reader = CountingReader::new(&[0, 0, 0, 0, 9]);
    assert!(d.read_string_limited(&mut reader, StringContext::MetadataKey).is_err());
    assert_eq!(reader.bytes_read(), 4);
    let mut reader = CountingReader::new(&[1, 0, 0, 0, 0xff, 9]);
    assert!(d.read_string_limited(&mut reader, StringContext::MetadataKey).is_err());
    assert_eq!(reader.bytes_read(), 5);
    let mut reader = CountingReader::new(&[1, 0, 0]);
    assert_eq!(d.read_u32(&mut reader).unwrap_err(), ReadError::UnexpectedEof);
    assert_eq!(reader.bytes_read(), 3);
    let bytes = [7, 0, 0, 0, 5, 0, 0, 0, 1, 0, 1, 0, 2, 1, 1];
    let mut reader = CountingReader::new(&bytes);
    assert!(d.read_array(&mut reader).is_err());
    assert_eq!(reader.bytes_read(), 13);
    let mut reader = CountingReader::new(&[1, 1]);
    let nested = d.skip_array_value(&mut reader, MetadataValueType::Array);
    assert_eq!(nested.unwrap_err(), ReadError::NestedArray);
    assert_eq!(reader.bytes_read(), 0);
}
