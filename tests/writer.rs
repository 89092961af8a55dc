use flatgeobuf::property::{Column, ColumnType, Property, PropertyValue};
use flatgeobuf::writer::{encode_feature, encode_header, FeatureSource, GeometryType, WriteError, Writer};

const MAGIC: [u8; 8] = [0x66, 0x67, 0x62, 0x03, 0x66, 0x67, 0x62, 0x00];

fn u16_at(b: &[u8], p: usize) -> u16 {
    u16::from_le_bytes([b[p], b[p + 1]])
}

fn u32_at(b: &[u8], p: usize) -> u32 {
    u32::from_le_bytes([b[p], b[p + 1], b[p + 2], b[p + 3]])
}

/// A table inside one flatbuffer `buf`, found at `pos`.
#[derive(Clone, Copy)]
struct Table<'a> {
    buf: &'a [u8],
    pos: usize,
}

impl<'a> Table<'a> {
    fn root(buf: &'a [u8]) -> Self {
        Table { buf, pos: u32_at(buf, 0) as usize }
    }

    fn field(&self, slot: u16) -> Option<usize> {
        let soff = u32_at(self.buf, self.pos) as i32;
        let vt = (self.pos as i64 - soff as i64) as usize;
        let vt_len = u16_at(self.buf, vt);
        if slot >= vt_len {
            return None;
        }
        match u16_at(self.buf, vt + slot as usize) {
            0 => None,
            off => Some(self.pos + off as usize),
        }
    }

    fn u8_field(&self, slot: u16, default: u8) -> u8 {
        self.field(slot).map(|p| self.buf[p]).unwrap_or(default)
    }

    fn u16_field(&self, slot: u16, default: u16) -> u16 {
        self.field(slot).map(|p| u16_at(self.buf, p)).unwrap_or(default)
    }

    fn u64_field(&self, slot: u16, default: u64) -> u64 {
        self.field(slot)
            .map(|p| u32_at(self.buf, p) as u64 | (u32_at(self.buf, p + 4) as u64) << 32)
            .unwrap_or(default)
    }

    fn target(&self, slot: u16) -> Option<usize> {
        self.field(slot).map(|p| p + u32_at(self.buf, p) as usize)
    }

    fn table(&self, slot: u16) -> Option<Table<'a>> {
        self.target(slot).map(|pos| Table { buf: self.buf, pos })
    }

    fn byte_vector(&self, slot: u16) -> Option<&'a [u8]> {
        self.target(slot).map(|p| {
            let n = u32_at(self.buf, p) as usize;
            &self.buf[p + 4..p + 4 + n]
        })
    }

    fn f64s(&self, slot: u16) -> Option<Vec<f64>> {
        self.target(slot).map(|p| {
            let n = u32_at(self.buf, p) as usize;
            (0..n)
                .map(|i| {
                    let q = p + 4 + 8 * i;
                    f64::from_bits(u32_at(self.buf, q) as u64 | (u32_at(self.buf, q + 4) as u64) << 32)
                })
                .collect()
        })
    }

    fn tables(&self, slot: u16) -> Option<Vec<Table<'a>>> {
        self.target(slot).map(|p| {
            let n = u32_at(self.buf, p) as usize;
            (0..n)
                .map(|i| {
                    let q = p + 4 + 4 * i;
                    Table { buf: self.buf, pos: q + u32_at(self.buf, q) as usize }
                })
                .collect()
        })
    }
}

/// Splits a container into its header flatbuffer and its feature flatbuffers,
/// each without its size prefix.
fn records(out: &[u8]) -> (&[u8], Vec<&[u8]>) {
    assert_eq!(&out[0..8], &MAGIC);
    let mut pos = 8;
    let mut recs = vec![];
    while pos < out.len() {
        let n = u32_at(out, pos) as usize;
        recs.push(&out[pos + 4..pos + 4 + n]);
        pos += 4 + n;
    }
    assert_eq!(pos, out.len());
    let header = recs.remove(0);
    (header, recs)
}

/// The properties of a feature by column name, as text, decoded with the
/// feature's own columns.
fn bool_props(feature: &Table) -> Option<Vec<(String, String)>> {
    let columns = feature.tables(8)?;
    let props = feature.byte_vector(6)?;
    let mut out = vec![];
    let mut i = 0;
    while i + 2 <= props.len() {
        let idx = u16_at(props, i) as usize;
        i += 2;
        let col = columns[idx];
        let name = std::str::from_utf8(col.byte_vector(4).unwrap()).unwrap().to_string();
        assert_eq!(col.u8_field(6, 0), 2);
        out.push((name, if props[i] != 0 { "true".to_string() } else { "false".to_string() }));
        // the byte after a boolean
        i += 2;
    }
    Some(out)
}

fn point(x: f64, y: f64, my_prop: bool) -> FeatureSource {
    FeatureSource {
        geometry_type: GeometryType::Point,
        xy: vec![x.to_bits(), y.to_bits()],
        columns: Some(vec![Column { name: "my_prop".to_string(), column_type: ColumnType::Bool }]),
        properties: Some(vec![Property { column_index: 0, value: PropertyValue::Bool(my_prop) }]),
    }
}

fn line_string(coords: &[(f64, f64)]) -> FeatureSource {
    let mut xy = vec![];
    for (x, y) in coords {
        xy.push(x.to_bits());
        xy.push(y.to_bits());
    }
    FeatureSource { geometry_type: GeometryType::LineString, xy, columns: None, properties: None }
}

fn check_empty_header(header: &Table, count: u64) {
    assert_eq!(None, header.field(4)); // name
    assert_eq!(None, header.field(6)); // envelope
    assert_eq!(0, header.u8_field(8, 0)); // geometry type Unknown
    assert_eq!(0, header.u8_field(10, 0)); // hasZ
    assert_eq!(0, header.u8_field(12, 0)); // hasM
    assert_eq!(0, header.u8_field(14, 0)); // hasT
    assert_eq!(0, header.u8_field(16, 0)); // hasTM
    assert!(header.field(18).is_none()); // columns
    assert_eq!(count, header.u64_field(20, 0));
    assert_eq!(0, header.u16_field(22, 16));
    assert_eq!(None, header.field(24)); // crs
    assert_eq!(None, header.field(26)); // title
    assert_eq!(None, header.field(28)); // description
    assert_eq!(None, header.field(30)); // metadata
}

#[test]
fn test_write_features() {
    let input: Vec<FeatureSource> = vec![
        point(1.0, 2.0, true),
        line_string(&[(5.0, 6.0), (7.0, 8.0), (9.0, 10.0)]),
        point(3.0, 4.0, false),
    ];

    let mut writer = Writer::new(vec![]);
    let result = writer.write(&input);
    assert!(result.is_ok());
    let output = writer.into_inner();

    let (header_buf, features) = records(&output);
    let header = Table::root(header_buf);
    check_empty_header(&header, 3);
    assert_eq!(3, features.len());

    let mut types = vec![];
    let mut coords = vec![];
    let mut props = vec![];
    for buf in &features {
        let feature = Table::root(buf);
        let geometry = feature.table(4).unwrap();
        types.push(geometry.u8_field(16, 0));
        coords.push(geometry.f64s(6).unwrap());
        props.push(bool_props(&feature).and_then(|ps| {
            match ps.iter().find(|(n, _)| n == "my_prop").map(|(_, v)| v.as_str()) {
                Some("true") => Some(true),
                Some("false") => Some(false),
                Some(other) => panic!("unexpected: {}", other),
                None => None,
            }
        }));
    }

    assert_eq!(vec![GeometryType::Point.code(), GeometryType::LineString.code(), GeometryType::Point.code()], types);
    assert_eq!(vec![vec![1.0, 2.0], vec![5.0, 6.0, 7.0, 8.0, 9.0, 10.0], vec![3.0, 4.0]], coords);
    assert_eq!(vec![Some(true), None, Some(false)], props)
}

#[test]
fn test_write_empty() {
    let input: Vec<FeatureSource> = vec![];

    let mut writer = Writer::new(vec![]);
    let result = writer.write(&input);
    assert!(result.is_ok());
    let output = writer.into_inner();

    let (header_buf, features) = records(&output);
    let header = Table::root(header_buf);
    check_empty_header(&header, 0);
    assert_eq!(0, features.len());
}

#[test]
fn write_counts_bytes_and_keeps_earlier_sink_bytes() {
    let mut writer = Writer::new(vec![9, 9]);
    writer.write(&[point(0.5, -0.5, true)]).unwrap();
    let n = writer.bytes_written();
    let out = writer.into_inner();
    assert_eq!(&out[0..2], &[9, 9]);
    assert_eq!(n, out.len() - 2);
    let (_, features) = records(&out[2..]);
    assert_eq!(1, features.len());
}

#[test]
fn record_prefix_matches_payload_length() {
    let header = encode_header(7);
    assert_eq!(u32_at(&header, 0) as usize, header.len() - 4);
    let with_schema = encode_feature(&point(1.0, 2.0, true)).unwrap();
    assert_eq!(u32_at(&with_schema, 0) as usize, with_schema.len() - 4);
    let without = encode_feature(&line_string(&[(0.0, 0.0), (1.0, 1.0)])).unwrap();
    assert_eq!(u32_at(&without, 0) as usize, without.len() - 4);
    let polygon = FeatureSource {
        geometry_type: GeometryType::Polygon,
        xy: [0.0f64, 0.0, 1.0, 0.0, 1.0, 1.0, 0.0, 0.0].iter().map(|c| c.to_bits()).collect(),
        columns: None,
        properties: None,
    };
    let rec = encode_feature(&polygon).unwrap();
    assert_eq!(u32_at(&rec, 0) as usize, rec.len() - 4);
    let geometry = Table::root(&rec[4..]).table(4).unwrap();
    assert_eq!(3, geometry.u8_field(16, 0));
}

#[test]
fn mixed_kinds_keep_their_own_type() {
    let kinds = [GeometryType::MultiPoint, GeometryType::Point, GeometryType::LineString, GeometryType::MultiPolygon];
    let input: Vec<FeatureSource> = kinds
        .iter()
        .map(|k| FeatureSource { geometry_type: *k, xy: vec![1.5f64.to_bits(), 2.5f64.to_bits()], columns: None, properties: None })
        .collect();
    let mut writer = Writer::new(vec![]);
    writer.write(&input).unwrap();
    let out = writer.into_inner();
    let (header_buf, features) = records(&out);
    assert_eq!(0, Table::root(header_buf).u8_field(8, 0));
    let types: Vec<u8> = features.iter().map(|f| Table::root(f).table(4).unwrap().u8_field(16, 0)).collect();
    assert_eq!(vec![4, 1, 2, 6], types);
}

#[test]
fn unknown_geometry_is_a_schema_error() {
    let f = FeatureSource { geometry_type: GeometryType::Unknown, xy: vec![], columns: None, properties: None };
    assert_eq!(Err(WriteError::Schema), encode_feature(&f).map(|_| ()));
}

#[test]
fn odd_coordinate_count_is_a_schema_error() {
    let f = FeatureSource { geometry_type: GeometryType::Point, xy: vec![1.0f64.to_bits()], columns: None, properties: None };
    assert_eq!(Err(WriteError::Schema), encode_feature(&f).map(|_| ()));
}

#[test]
fn failed_feature_leaves_earlier_records() {
    let bad = FeatureSource {
        geometry_type: GeometryType::Point,
        xy: vec![0, 0],
        columns: Some(vec![Column { name: "n".to_string(), column_type: ColumnType::Int }]),
        properties: Some(vec![Property { column_index: 0, value: PropertyValue::Bool(true) }]),
    };
    let good = line_string(&[(1.0, 2.0)]);
    let mut writer = Writer::new(vec![]);
    assert_eq!(Err(WriteError::Schema), writer.write(&[good.clone(), bad, good]));
    let out = writer.into_inner();
    let (header_buf, features) = records(&out);
    assert_eq!(3, Table::root(header_buf).u64_field(20, 0));
    assert_eq!(1, features.len());
}

#[test]
fn geometry_kind_codes() {
    assert_eq!(0, GeometryType::Unknown.code());
    assert_eq!(7, GeometryType::GeometryCollection.code());
    assert_eq!(17, GeometryType::Triangle.code());
}
