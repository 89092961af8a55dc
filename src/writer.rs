//! The container writer: magic bytes, a size-prefixed header, then one
//! size-prefixed feature record per input feature, in input order.
use vstd::prelude::*;
use vstd::utf8::encode_utf8;
use crate::builder::{
    TableBuilder, BuildCall, finished_buffer, made, created, lemma_created_push, MAX_BUILDER_BYTES,
    vector_cost, string_cost, slot_cost, offset_slot_cost, end_table_cost, finish_cost,
};
use crate::property::{Column, Property, encode_properties, properties_ok, properties_bytes};
use crate::wire::{concat, magic_bytes, framed_records, is_framed, magic, push_all, lemma_framed_cons, lemma_framed_append};

verus! {

/// The kind of a geometry. `Unknown` stands for "mixed or not declared" in a
/// header and never stands on a feature.
#[derive(Clone, Copy, Debug, PartialEq, Eq, Structural)]
pub enum GeometryType {
    Unknown,
    Point,
    LineString,
    Polygon,
    MultiPoint,
    MultiLineString,
    MultiPolygon,
    GeometryCollection,
    CircularString,
    CompoundCurve,
    CurvePolygon,
    MultiCurve,
    MultiSurface,
    Curve,
    Surface,
    PolyhedralSurface,
    Tin,
    Triangle,
}

impl GeometryType {
    /// The tag that the format stores for this kind.
    pub open spec fn spec_code(self) -> u8 {
        match self {
            GeometryType::Unknown => 0,
            GeometryType::Point => 1,
            GeometryType::LineString => 2,
            GeometryType::Polygon => 3,
            GeometryType::MultiPoint => 4,
            GeometryType::MultiLineString => 5,
            GeometryType::MultiPolygon => 6,
            GeometryType::GeometryCollection => 7,
            GeometryType::CircularString => 8,
            GeometryType::CompoundCurve => 9,
            GeometryType::CurvePolygon => 10,
            GeometryType::MultiCurve => 11,
            GeometryType::MultiSurface => 12,
            GeometryType::Curve => 13,
            GeometryType::Surface => 14,
            GeometryType::PolyhedralSurface => 15,
            GeometryType::Tin => 16,
            GeometryType::Triangle => 17,
        }
    }

    pub fn code(&self) -> (r: u8)
        ensures
            r == self.spec_code(),
    {
        match self {
            GeometryType::Unknown => 0,
            GeometryType::Point => 1,
            GeometryType::LineString => 2,
            GeometryType::Polygon => 3,
            GeometryType::MultiPoint => 4,
            GeometryType::MultiLineString => 5,
            GeometryType::MultiPolygon => 6,
            GeometryType::GeometryCollection => 7,
            GeometryType::CircularString => 8,
            GeometryType::CompoundCurve => 9,
            GeometryType::CurvePolygon => 10,
            GeometryType::MultiCurve => 11,
            GeometryType::MultiSurface => 12,
            GeometryType::Curve => 13,
            GeometryType::Surface => 14,
            GeometryType::PolyhedralSurface => 15,
            GeometryType::Tin => 16,
            GeometryType::Triangle => 17,
        }
    }
}

/// One feature to write: a two-dimensional geometry, and optionally its own
/// column schema and its property values.
///
/// Coordinates are interleaved `x, y` pairs, each the IEEE-754 bit pattern of
/// an `f64` (`f64::to_bits`); the format stores them as 8 little-endian bytes,
/// which is what a vector of `u64` bit patterns lays out.
#[derive(Clone, Debug)]
pub struct FeatureSource {
    pub geometry_type: GeometryType,
    pub xy: Vec<u64>,
    pub columns: Option<Vec<Column>>,
    pub properties: Option<Vec<Property>>,
}

/// Why a container could not be written.
#[derive(Clone, Copy, Debug, PartialEq, Eq, Structural)]
pub enum WriteError {
    /// A feature breaks the schema rules (see `feature_ok`).
    Schema,
    /// A feature holds a vector too large for one builder call.
    TooLarge,
}

/// Field positions in the format's tables (byte offsets into a vtable).
pub const HEADER_FEATURES_COUNT: u16 = 20;
pub const HEADER_INDEX_NODE_SIZE: u16 = 22;
pub const INDEX_NODE_SIZE_DEFAULT: u16 = 16;
pub const GEOMETRY_XY: u16 = 6;
pub const GEOMETRY_TYPE: u16 = 16;
pub const COLUMN_NAME: u16 = 4;
pub const COLUMN_TYPE: u16 = 6;
pub const FEATURE_GEOMETRY: u16 = 4;
pub const FEATURE_PROPERTIES: u16 = 6;
pub const FEATURE_COLUMNS: u16 = 8;

pub open spec fn column_seq(f: FeatureSource) -> Option<Seq<Column>> {
    match f.columns {
        Some(cs) => Some(cs@),
        None => None,
    }
}

/// A feature that may be written: a declared geometry kind, whole `x, y` pairs,
/// and properties that fit its schema.
pub open spec fn feature_ok(f: FeatureSource) -> bool {
    &&& f.geometry_type != GeometryType::Unknown
    &&& f.xy@.len() % 2 == 0
    &&& match f.properties {
        Some(ps) => properties_ok(ps@, column_seq(f)),
        None => true,
    }
}

/// Most bytes a builder holds after the geometry table of `n` coordinates.
pub open spec fn geometry_cost(n: nat) -> nat {
    vector_cost(n, 8) + offset_slot_cost() + slot_cost() + end_table_cost()
}

/// Most bytes one column table adds.
pub open spec fn column_cost(c: Column) -> nat {
    string_cost(encode_utf8(c.name@).len()) + offset_slot_cost() + slot_cost() + end_table_cost()
}

pub open spec fn columns_cost(cs: Seq<Column>) -> nat
    decreases cs.len(),
{
    if cs.len() == 0 {
        0
    } else {
        columns_cost(cs.drop_last()) + column_cost(cs.last())
    }
}

/// Most bytes the builder holds once the record of `f` is finished: the
/// geometry, the columns and their vector, the property buffer, and the
/// feature table with one offset field per part.
pub open spec fn feature_cost(f: FeatureSource) -> nat {
    geometry_cost(f.xy@.len()) + match f.columns {
        Some(cs) => columns_cost(cs@) + vector_cost(cs@.len(), 4) + offset_slot_cost(),
        None => 0,
    } + match f.properties {
        Some(ps) => vector_cost(properties_bytes(ps@).len(), 1) + offset_slot_cost(),
        None => 0,
    } + offset_slot_cost() + end_table_cost() + finish_cost()
}

/// The record of the feature fits one builder.
pub open spec fn feature_fits(f: FeatureSource) -> bool {
    feature_cost(f) <= MAX_BUILDER_BYTES
}

/// The error a feature gives, if any; schema errors come first.
pub open spec fn feature_error(f: FeatureSource) -> Option<WriteError> {
    if !feature_ok(f) {
        Some(WriteError::Schema)
    } else if !feature_fits(f) {
        Some(WriteError::TooLarge)
    } else {
        None
    }
}

/// Offsets the builder handed back for one column: its name, the start of its
/// table and the finished table.
pub struct ColumnOffsets {
    pub name: u32,
    pub start: u32,
    pub table: u32,
}

/// Offsets the builder handed back while building one feature record.
pub struct FeatureOffsets {
    pub xy: u32,
    pub geometry_start: u32,
    pub geometry: u32,
    pub columns: Seq<ColumnOffsets>,
    pub column_vector: u32,
    pub properties: u32,
    pub feature_start: u32,
    pub feature: u32,
}

/// The calls that build the geometry table of `f`: its coordinate vector, then
/// a table whose coordinate field points at that vector, with the geometry kind.
pub open spec fn geometry_calls(f: FeatureSource, xy: u32, start: u32, geometry: u32) -> Seq<BuildCall> {
    seq![
        BuildCall::CreateVectorU64(f.xy@, xy),
        BuildCall::StartTable(start),
        BuildCall::PushSlotOffset(GEOMETRY_XY, xy),
        BuildCall::PushSlotU8(GEOMETRY_TYPE, f.geometry_type.spec_code(), 0),
        BuildCall::EndTable(start, geometry),
    ]
}

/// The calls that build one column table: its name, then a table whose name
/// field points at that name, with the column type.
pub open spec fn column_calls(c: Column, o: ColumnOffsets) -> Seq<BuildCall> {
    seq![
        BuildCall::CreateString(c.name@, o.name),
        BuildCall::StartTable(o.start),
        BuildCall::PushSlotOffset(COLUMN_NAME, o.name),
        BuildCall::PushSlotU8(COLUMN_TYPE, c.column_type.spec_code(), 0),
        BuildCall::EndTable(o.start, o.table),
    ]
}

/// The column tables of `cs`, in order.
pub open spec fn columns_calls(cs: Seq<Column>, os: Seq<ColumnOffsets>) -> Seq<BuildCall>
    decreases cs.len(),
{
    if cs.len() == 0 || os.len() == 0 {
        Seq::empty()
    } else {
        columns_calls(cs.drop_last(), os.drop_last()) + column_calls(cs.last(), os.last())
    }
}

/// The finished column tables.
pub open spec fn column_tables(os: Seq<ColumnOffsets>) -> Seq<u32> {
    os.map_values(|o: ColumnOffsets| o.table)
}

/// The column tables of `f`'s own schema and the vector of them, if it has one.
pub open spec fn columns_part(f: FeatureSource, o: FeatureOffsets) -> Seq<BuildCall> {
    match f.columns {
        Some(cs) => columns_calls(cs@, o.columns)
            + seq![BuildCall::CreateVectorTables(column_tables(o.columns), o.column_vector)],
        None => Seq::empty(),
    }
}

/// The property buffer of `f`, if it has properties.
pub open spec fn properties_part(f: FeatureSource, o: FeatureOffsets) -> Seq<BuildCall> {
    match f.properties {
        Some(ps) => seq![BuildCall::CreateVectorU8(properties_bytes(ps@), o.properties)],
        None => Seq::empty(),
    }
}

/// The feature table: its geometry field, then its properties and columns
/// fields where given, each pointing at its part; finished with a size prefix
/// and the table as root.
pub open spec fn feature_table_calls(
    geometry: u32,
    properties: Option<u32>,
    columns: Option<u32>,
    start: u32,
    feature: u32,
) -> Seq<BuildCall> {
    seq![BuildCall::StartTable(start), BuildCall::PushSlotOffset(FEATURE_GEOMETRY, geometry)]
        + match properties {
        Some(p) => seq![BuildCall::PushSlotOffset(FEATURE_PROPERTIES, p)],
        None => Seq::empty(),
    } + match columns {
        Some(c) => seq![BuildCall::PushSlotOffset(FEATURE_COLUMNS, c)],
        None => Seq::empty(),
    } + seq![BuildCall::EndTable(start, feature), BuildCall::FinishSizePrefixed(feature)]
}

/// The calls that build the record of `f`, in build order, each field wired to
/// the offset the builder handed back for its part.
pub open spec fn feature_calls(f: FeatureSource, o: FeatureOffsets) -> Seq<BuildCall> {
    geometry_calls(f, o.xy, o.geometry_start, o.geometry) + columns_part(f, o) + properties_part(f, o)
        + feature_table_calls(
        o.geometry,
        if f.properties is Some { Some(o.properties) } else { None },
        if f.columns is Some { Some(o.column_vector) } else { None },
        o.feature_start,
        o.feature,
    )
}

/// The calls that build the header of a container of `n` features: a table
/// with the feature count and an index node size of zero, finished as root.
pub open spec fn header_calls(n: u64, start: u32, header: u32) -> Seq<BuildCall> {
    seq![
        BuildCall::StartTable(start),
        BuildCall::PushSlotU64(HEADER_FEATURES_COUNT, n, 0),
        BuildCall::PushSlotU16(HEADER_INDEX_NODE_SIZE, 0, INDEX_NODE_SIZE_DEFAULT),
        BuildCall::EndTable(start, header),
        BuildCall::FinishSizePrefixed(header),
    ]
}

/// `rec` is the record of feature `f`: the buffer a fresh builder finishes
/// after exactly `f`'s calls, wired to the offsets it handed back.
pub open spec fn is_feature_record(rec: Seq<u8>, f: FeatureSource) -> bool {
    exists|o: FeatureOffsets|
        (f.columns matches Some(cs) ==> o.columns.len() == cs@.len())
        && rec == finished_buffer(#[trigger] feature_calls(f, o))
}

/// `rec` is the header record of a container of `n` features.
pub open spec fn is_header_record(rec: Seq<u8>, n: u64) -> bool {
    exists|start: u32, header: u32| rec == finished_buffer(#[trigger] header_calls(n, start, header))
}

proof fn lemma_created_append(a: Seq<BuildCall>, b: Seq<BuildCall>, o: u32)
    requires
        created(a, o),
    ensures
        created(a + b, o),
{
    let i = choose|i: int| 0 <= i < a.len() && made(#[trigger] a[i], o);
    assert((a + b)[i] == a[i]);
}

proof fn lemma_columns_cost_prefix(cs: Seq<Column>, i: int)
    requires
        0 <= i <= cs.len(),
    ensures
        columns_cost(cs.take(i)) <= columns_cost(cs),
    decreases cs.len(),
{
    if i < cs.len() {
        assert(cs.drop_last().take(i) =~= cs.take(i));
        lemma_columns_cost_prefix(cs.drop_last(), i);
    } else {
        assert(cs.take(i) =~= cs);
    }
}

/// Whether the record of `f` fits one builder (see `feature_cost`);
/// `props_len` is the length of its property buffer, if it has one.
fn fits_builder(f: &FeatureSource, props_len: usize) -> (r: bool)
    requires
        f.properties matches Some(ps) ==> props_len == properties_bytes(ps@).len(),
    ensures
        r == feature_fits(*f),
{
    let max: u64 = MAX_BUILDER_BYTES as u64;
    let n = f.xy.len() as u64;
    if n > max {
        return false;
    }
    let mut total: u64 = 8 * n + 16 + 8 + 16 + 280 + 8 + 280 + 32;
    if f.properties.is_some() {
        if props_len as u64 > max {
            return false;
        }
        total = total + props_len as u64 + 16 + 8;
    }
    if total > max {
        return false;
    }
    match &f.columns {
        Some(cs) => {
            if cs.len() as u64 > max {
                return false;
            }
            total = total + 4 * (cs.len() as u64) + 16 + 8;
            if total > max {
                return false;
            }
            let ghost base = total as nat;
            let mut i: usize = 0;
            assert(cs@.take(0) =~= Seq::<Column>::empty());
            while i < cs.len()
                invariant
                    f.columns == Some(*cs),
                    i <= cs@.len(),
                    total as nat == base + columns_cost(cs@.take(i as int)),
                    total <= max,
                    max == MAX_BUILDER_BYTES,
                    feature_cost(*f) == base + columns_cost(cs@),
                decreases cs@.len() - i,
            {
                let b = cs[i].name.as_str().as_bytes().len() as u64;
                assert(cs@.take(i + 1).drop_last() =~= cs@.take(i as int));
                proof {
                    lemma_columns_cost_prefix(cs@, i + 1);
                }
                if b > max {
                    return false;
                }
                total = total + b + 16 + 8 + 16 + 280;
                i = i + 1;
                if total > max {
                    return false;
                }
            }
            assert(cs@.take(i as int) =~= cs@);
        },
        None => {},
    }
    true
}

/// The geometry table of `f`; the offsets of its coordinate vector, of its
/// table start and of the finished table.
fn build_geometry(fbb: &mut TableBuilder, f: &FeatureSource) -> (r: (u32, u32, u32))
    requires
        old(fbb).idle(),
        old(fbb).fits(geometry_cost(f.xy@.len())),
    ensures
        final(fbb).idle(),
        final(fbb).calls@ == old(fbb).calls@ + geometry_calls(*f, r.0, r.1, r.2),
        final(fbb).used@ == old(fbb).used@ + geometry_cost(f.xy@.len()),
{
    let xy = fbb.create_vector_u64(f.xy.as_slice());
    assert(made(fbb.calls@[fbb.calls@.len() - 1], xy));
    let start = fbb.start_table();
    proof {
        lemma_created_push(old(fbb).calls@.push(BuildCall::CreateVectorU64(f.xy@, xy)), BuildCall::StartTable(start), xy);
    }
    fbb.push_slot_offset(GEOMETRY_XY, xy);
    fbb.push_slot_u8(GEOMETRY_TYPE, f.geometry_type.code(), 0);
    let geometry = fbb.end_table(start);
    assert(fbb.calls@ =~= old(fbb).calls@ + geometry_calls(*f, xy, start, geometry));
    (xy, start, geometry)
}

/// The column tables of a feature's own schema and the vector of them; the
/// offset of the vector and the offsets of each column.
fn build_columns(fbb: &mut TableBuilder, columns: &Vec<Column>) -> (r: (u32, Ghost<Seq<ColumnOffsets>>))
    requires
        old(fbb).idle(),
        old(fbb).fits(columns_cost(columns@) + vector_cost(columns@.len(), 4)),
    ensures
        final(fbb).idle(),
        r.1@.len() == columns@.len(),
        final(fbb).calls@ == old(fbb).calls@ + columns_calls(columns@, r.1@)
            + seq![BuildCall::CreateVectorTables(column_tables(r.1@), r.0)],
        final(fbb).used@ == old(fbb).used@ + columns_cost(columns@) + vector_cost(columns@.len(), 4),
{
    let mut tables: Vec<u32> = Vec::new();
    let ghost mut offs: Seq<ColumnOffsets> = Seq::empty();
    let mut i: usize = 0;
    assert(columns@.take(0) =~= Seq::<Column>::empty());
    assert(old(fbb).calls@ + columns_calls(columns@.take(0), offs) =~= old(fbb).calls@);
    while i < columns.len()
        invariant
            fbb.idle(),
            i <= columns@.len(),
            offs.len() == i,
            tables@ == column_tables(offs),
            fbb.calls@ == old(fbb).calls@ + columns_calls(columns@.take(i as int), offs),
            fbb.used@ == old(fbb).used@ + columns_cost(columns@.take(i as int)),
            old(fbb).fits(columns_cost(columns@) + vector_cost(columns@.len(), 4)),
            forall|j: int| 0 <= j < i ==> created(fbb.calls@, #[trigger] tables@[j]),
        decreases columns@.len() - i,
    {
        proof {
            assert(columns@.take(i + 1).drop_last() =~= columns@.take(i as int));
            lemma_columns_cost_prefix(columns@, i + 1);
        }
        let ghost before = fbb.calls@;
        let name = columns[i].name.as_str();
        let name_offset = fbb.create_string(name);
        assert(made(fbb.calls@[fbb.calls@.len() - 1], name_offset));
        let start = fbb.start_table();
        proof {
            lemma_created_push(before.push(BuildCall::CreateString(name@, name_offset)), BuildCall::StartTable(start), name_offset);
        }
        fbb.push_slot_offset(COLUMN_NAME, name_offset);
        fbb.push_slot_u8(COLUMN_TYPE, columns[i].column_type.code(), 0);
        let t = fbb.end_table(start);
        let ghost o = ColumnOffsets { name: name_offset, start: start, table: t };
        proof {
            let added = column_calls(columns@[i as int], o);
            assert(fbb.calls@ =~= before + added);
            assert forall|j: int| 0 <= j < i implies created(fbb.calls@, #[trigger] tables@[j]) by {
                lemma_created_append(before, added, tables@[j]);
            }
            assert(made(fbb.calls@[fbb.calls@.len() - 1], t));
            assert(offs.push(o).drop_last() =~= offs);
            assert(columns_calls(columns@.take(i + 1), offs.push(o)) == columns_calls(columns@.take(i as int), offs) + added);
            assert(old(fbb).calls@ + columns_calls(columns@.take(i + 1), offs.push(o)) =~= fbb.calls@);
            assert(column_tables(offs.push(o)) =~= column_tables(offs).push(t));
            offs = offs.push(o);
        }
        tables.push(t);
        i = i + 1;
    }
    assert(columns@.take(i as int) =~= columns@);
    let ghost before = fbb.calls@;
    let v = fbb.create_vector_tables(tables.as_slice());
    assert(fbb.calls@ =~= old(fbb).calls@ + columns_calls(columns@, offs)
        + seq![BuildCall::CreateVectorTables(column_tables(offs), v)]);
    (v, Ghost(offs))
}

/// The feature table over the given parts, finished with a size prefix; the
/// offsets of its start and of the finished table.
fn build_feature_table(fbb: &mut TableBuilder, geometry: u32, properties: Option<u32>, columns: Option<u32>) -> (r: (u32, u32))
    requires
        old(fbb).idle(),
        created(old(fbb).calls@, geometry),
        properties matches Some(p) ==> created(old(fbb).calls@, p),
        columns matches Some(c) ==> created(old(fbb).calls@, c),
        old(fbb).fits(offset_slot_cost() + (if properties is Some { offset_slot_cost() } else { 0 })
            + (if columns is Some { offset_slot_cost() } else { 0 }) + end_table_cost() + finish_cost()),
    ensures
        final(fbb).phase@ is Finished,
        final(fbb).used@ == old(fbb).used@ + offset_slot_cost() + (if properties is Some { offset_slot_cost() } else { 0 })
            + (if columns is Some { offset_slot_cost() } else { 0 }) + end_table_cost() + finish_cost(),
        final(fbb).calls@ == old(fbb).calls@ + feature_table_calls(geometry, properties, columns, r.0, r.1),
{
    let ghost c0 = fbb.calls@;
    let start = fbb.start_table();
    proof {
        lemma_created_push(c0, BuildCall::StartTable(start), geometry);
        if let Some(p) = properties {
            lemma_created_push(c0, BuildCall::StartTable(start), p);
        }
        if let Some(c) = columns {
            lemma_created_push(c0, BuildCall::StartTable(start), c);
        }
    }
    let ghost c1 = fbb.calls@;
    fbb.push_slot_offset(FEATURE_GEOMETRY, geometry);
    proof {
        if let Some(p) = properties {
            lemma_created_push(c1, BuildCall::PushSlotOffset(FEATURE_GEOMETRY, geometry), p);
        }
        if let Some(c) = columns {
            lemma_created_push(c1, BuildCall::PushSlotOffset(FEATURE_GEOMETRY, geometry), c);
        }
    }
    let ghost c2 = fbb.calls@;
    if let Some(p) = properties {
        fbb.push_slot_offset(FEATURE_PROPERTIES, p);
        proof {
            if let Some(c) = columns {
                lemma_created_push(c2, BuildCall::PushSlotOffset(FEATURE_PROPERTIES, p), c);
            }
        }
    }
    if let Some(c) = columns {
        fbb.push_slot_offset(FEATURE_COLUMNS, c);
    }
    let feature = fbb.end_table(start);
    assert(made(fbb.calls@[fbb.calls@.len() - 1], feature));
    fbb.finish_size_prefixed(feature);
    assert(fbb.calls@ =~= c0 + feature_table_calls(geometry, properties, columns, start, feature));
    (start, feature)
}

/// One feature record: the size-prefixed table holding the feature's geometry
/// and, when present, its own columns and its property buffer.
pub fn encode_feature(f: &FeatureSource) -> (r: Result<Vec<u8>, WriteError>)
    ensures
        match r {
            Ok(rec) => feature_error(*f) is None && is_framed(rec@) && is_feature_record(rec@, *f),
            Err(e) => feature_error(*f) == Some(e),
        },
{
    if f.geometry_type == GeometryType::Unknown || f.xy.len() % 2 != 0 {
        return Err(WriteError::Schema);
    }
    let properties = match &f.properties {
        Some(ps) => match encode_properties(ps, f.columns.as_ref()) {
            Some(b) => Some(b),
            None => {
                return Err(WriteError::Schema);
            },
        },
        None => None,
    };
    let props_len = match &properties {
        Some(b) => b.len(),
        None => 0,
    };
    if !fits_builder(f, props_len) {
        return Err(WriteError::TooLarge);
    }
    let mut fbb = TableBuilder::new();
    let (xy, geometry_start, geometry) = build_geometry(&mut fbb, f);
    let ghost c1 = fbb.calls@;
    assert(made(c1[4], geometry));
    let (column_vector, column_offsets) = match &f.columns {
        Some(cs) => {
            let (v, offs) = build_columns(&mut fbb, cs);
            (Some(v), offs)
        },
        None => (None, Ghost(Seq::empty())),
    };
    let ghost c2 = fbb.calls@;
    proof {
        lemma_created_append(c1, c2.skip(c1.len() as int), geometry);
        assert(c1 + c2.skip(c1.len() as int) =~= c2);
        if let Some(v) = column_vector {
            assert(made(c2[c2.len() - 1], v));
        }
    }
    let properties_offset = match properties {
        Some(b) => Some(fbb.create_vector_u8(b.as_slice())),
        None => None,
    };
    let ghost c3 = fbb.calls@;
    proof {
        if let Some(p) = properties_offset {
            lemma_created_push(c2, c3.last(), geometry);
            assert(c2.push(c3.last()) =~= c3);
            assert(made(c3[c3.len() - 1], p));
            if let Some(v) = column_vector {
                lemma_created_push(c2, c3.last(), v);
            }
        }
    }
    let (feature_start, feature) = build_feature_table(&mut fbb, geometry, properties_offset, column_vector);
    let ghost o = FeatureOffsets {
        xy: xy,
        geometry_start: geometry_start,
        geometry: geometry,
        columns: column_offsets@,
        column_vector: match column_vector { Some(v) => v, None => 0 },
        properties: match properties_offset { Some(p) => p, None => 0 },
        feature_start: feature_start,
        feature: feature,
    };
    let rec = fbb.finished_data();
    proof {
        assert(c2 =~= c1 + columns_part(*f, o));
        assert(c3 =~= c2 + properties_part(*f, o));
        assert(fbb.calls@ =~= feature_calls(*f, o));
    }
    Ok(rec)
}

/// The header record: the size-prefixed header table with the feature count
/// and an index node size of zero (no spatial index follows).
pub fn encode_header(features_count: u64) -> (r: Vec<u8>)
    ensures
        is_framed(r@),
        is_header_record(r@, features_count),
{
    let mut fbb = TableBuilder::new();
    let start = fbb.start_table();
    fbb.push_slot_u64(HEADER_FEATURES_COUNT, features_count, 0);
    fbb.push_slot_u16(HEADER_INDEX_NODE_SIZE, 0, INDEX_NODE_SIZE_DEFAULT);
    let header = fbb.end_table(start);
    assert(made(fbb.calls@[fbb.calls@.len() - 1], header));
    fbb.finish_size_prefixed(header);
    assert(fbb.calls@ =~= header_calls(features_count, start, header));
    fbb.finished_data()
}

/// Writes one container into an in-memory byte sink. The sink may already
/// hold bytes; the container is appended after them.
#[derive(Debug)]
pub struct Writer {
    include_index: bool,
    inner: Vec<u8>,
    bytes_written: usize,
}

impl View for Writer {
    type V = Seq<u8>;

    /// Everything the sink holds.
    closed spec fn view(&self) -> Seq<u8> {
        self.inner@
    }
}

impl Writer {
    /// The number of bytes this writer has appended to its sink.
    pub closed spec fn spec_bytes_written(&self) -> nat {
        self.bytes_written as nat
    }

    /// Whether the writer reserves a spatial index; never, here.
    pub closed spec fn spec_include_index(&self) -> bool {
        self.include_index
    }

    pub closed spec fn wf(&self) -> bool {
        self.bytes_written <= self.inner@.len()
    }

    pub fn new(writer: Vec<u8>) -> (r: Writer)
        ensures
            r.wf(),
            r@ == writer@,
            r.spec_bytes_written() == 0,
            !r.spec_include_index(),
    {
        Writer { include_index: false, inner: writer, bytes_written: 0 }
    }

    pub fn bytes_written(&self) -> (r: usize)
        ensures
            r == self.spec_bytes_written(),
    {
        self.bytes_written
    }

    /// The sink, with everything written to it.
    pub fn into_inner(self) -> (r: Vec<u8>)
        ensures
            r@ == self@,
    {
        self.inner
    }

    /// Appends `buf` to the sink and counts it.
    pub fn write_buf(&mut self, buf: &[u8])
        requires
            old(self).wf(),
        ensures
            final(self).wf(),
            final(self)@ == old(self)@ + buf@,
            final(self).spec_bytes_written() == old(self).spec_bytes_written() + buf@.len(),
            final(self).spec_include_index() == old(self).spec_include_index(),
    {
        push_all(&mut self.inner, buf);
        let total = self.inner.len();
        self.bytes_written = self.bytes_written + buf.len();
        assert(self.bytes_written <= total);
    }

    /// Appends the format's magic bytes.
    pub fn write_magic_bytes(&mut self)
        requires
            old(self).wf(),
        ensures
            final(self).wf(),
            final(self)@ == old(self)@ + magic_bytes(),
            final(self).spec_bytes_written() == old(self).spec_bytes_written() + 8,
            final(self).spec_include_index() == old(self).spec_include_index(),
    {
        let m = magic();
        self.write_buf(m.as_slice());
    }

    /// Appends the header record for `features_count` features.
    pub fn write_header(&mut self, features_count: usize)
        requires
            old(self).wf(),
        ensures
            final(self).wf(),
            final(self)@.len() >= old(self)@.len(),
            final(self)@.subrange(0, old(self)@.len() as int) == old(self)@,
            is_framed(final(self)@.skip(old(self)@.len() as int)),
            is_header_record(final(self)@.skip(old(self)@.len() as int), features_count as u64),
            final(self).spec_bytes_written() == old(self).spec_bytes_written() + (final(self)@.len() - old(self)@.len()),
            final(self).spec_include_index() == old(self).spec_include_index(),
    {
        let header = encode_header(features_count as u64);
        self.write_buf(header.as_slice());
        assert(self@.subrange(0, old(self)@.len() as int) =~= old(self)@);
        assert(self@.skip(old(self)@.len() as int) =~= header@);
    }

    /// Appends one record per feature, in order, stopping at the first feature
    /// that cannot be written; the records of the features before it stay in
    /// the sink.
    pub fn write_features(&mut self, features: &[FeatureSource]) -> (r: Result<(), WriteError>)
        requires
            old(self).wf(),
        ensures
            final(self).wf(),
            final(self)@.len() >= old(self)@.len(),
            final(self)@.subrange(0, old(self)@.len() as int) == old(self)@,
            final(self).spec_bytes_written() == old(self).spec_bytes_written() + (final(self)@.len() - old(self)@.len()),
            final(self).spec_include_index() == old(self).spec_include_index(),
            r is Ok <==> forall|i: int| 0 <= i < features@.len() ==> feature_error(#[trigger] features@[i]) is None,
            r is Ok ==> framed_records(final(self)@.skip(old(self)@.len() as int), features@.len()),
            r is Ok ==> features_recorded(final(self)@.skip(old(self)@.len() as int), features@, features@.len()),
            r matches Err(e) ==> exists|k: int|
                0 <= k < features@.len()
                && (forall|j: int| 0 <= j < k ==> feature_error(#[trigger] features@[j]) is None)
                && feature_error(features@[k]) == Some(e)
                && framed_records(final(self)@.skip(old(self)@.len() as int), k as nat)
                && features_recorded(final(self)@.skip(old(self)@.len() as int), features@, k as nat),
    {
        let ghost start = self@.len() as int;
        let ghost mut recs: Seq<Seq<u8>> = Seq::empty();
        let mut i: usize = 0;
        assert(self@.skip(start) =~= Seq::<u8>::empty());
        while i < features.len()
            invariant
                self.wf(),
                start == old(self)@.len(),
                i <= features@.len(),
                self@.len() >= start,
                self@.subrange(0, start) == old(self)@,
                self.spec_bytes_written() == old(self).spec_bytes_written() + (self@.len() - start),
                self.spec_include_index() == old(self).spec_include_index(),
                forall|j: int| 0 <= j < i ==> feature_error(#[trigger] features@[j]) is None,
                framed_records(self@.skip(start), i as nat),
                recs.len() == i,
                self@.skip(start) == concat(recs),
                forall|j: int| 0 <= j < i ==> is_feature_record(#[trigger] recs[j], features@[j]),
            decreases features@.len() - i,
        {
            match encode_feature(&features[i]) {
                Ok(rec) => {
                    let ghost before = self@;
                    self.write_buf(rec.as_slice());
                    proof {
                        assert(framed_records(Seq::<u8>::empty(), 0));
                        lemma_framed_cons(rec@, Seq::<u8>::empty(), 0);
                        assert(rec@ + Seq::<u8>::empty() =~= rec@);
                        lemma_framed_append(before.skip(start), i as nat, rec@, 1);
                        assert(self@.skip(start) =~= before.skip(start) + rec@);
                        assert(self@.subrange(0, start) =~= before.subrange(0, start));
                        assert(recs.push(rec@).drop_last() =~= recs);
                        recs = recs.push(rec@);
                    }
                },
                Err(e) => {
                    assert(features_recorded(self@.skip(start), features@, i as nat));
                    return Err(e);
                },
            }
            i = i + 1;
        }
        assert(features_recorded(self@.skip(start), features@, i as nat));
        Ok(())
    }

    /// Writes a whole container for `features`: magic bytes, the header with
    /// `features.len()` as feature count, then the feature records.
    pub fn write(&mut self, features: &[FeatureSource]) -> (r: Result<(), WriteError>)
        requires
            old(self).wf(),
        ensures
            final(self).wf(),
            container_written(old(self)@, final(self)@, features@, r),
            final(self).spec_bytes_written() == old(self).spec_bytes_written() + (final(self)@.len() - old(self)@.len()),
    {
        self.write_magic_bytes();
        let ghost after_magic = self@;
        self.write_header(features.len());
        let ghost after_header = self@;
        let r = self.write_features(features);
        proof {
            let s = old(self)@.len() as int;
            assert(after_magic.subrange(0, s) =~= old(self)@);
            assert(self@.subrange(0, s) =~= old(self)@) by {
                assert(self@.subrange(0, s) =~= self@.subrange(0, after_header.len() as int).subrange(0, s));
                assert(after_header.subrange(0, s) =~= after_header.subrange(0, after_magic.len() as int).subrange(0, s));
            }
            assert(self@.subrange(s, s + 8) =~= magic_bytes()) by {
                assert(self@.subrange(s, s + 8) =~= self@.subrange(0, after_header.len() as int).subrange(s, s + 8));
                assert(after_header.subrange(s, s + 8) =~= after_header.subrange(0, after_magic.len() as int).subrange(s, s + 8));
            }
            let hdr = after_header.skip(after_magic.len() as int);
            let recs = self@.skip(after_header.len() as int);
            assert(self@.skip(s + 8) =~= hdr + recs) by {
                assert(after_header =~= after_header.subrange(0, after_magic.len() as int) + hdr);
                assert(self@ =~= self@.subrange(0, after_header.len() as int) + recs);
            }
            assert(is_header_record(hdr, features@.len() as u64));
            match r {
                Ok(_) => {
                    lemma_framed_cons(hdr, recs, features@.len() as nat);
                    assert(self@.skip(s + 8) == hdr + recs && is_header_record(hdr, features@.len() as u64)
                        && features_recorded(recs, features@, features@.len() as nat));
                },
                Err(e) => {
                    let k = choose|k: int|
                        0 <= k < features@.len()
                        && (forall|j: int| 0 <= j < k ==> feature_error(#[trigger] features@[j]) is None)
                        && feature_error(features@[k]) == Some(e)
                        && framed_records(recs, k as nat)
                        && features_recorded(recs, features@, k as nat);
                    lemma_framed_cons(hdr, recs, k as nat);
                    assert(self@.skip(s + 8) == hdr + recs && is_header_record(hdr, features@.len() as u64)
                        && features_recorded(recs, features@, k as nat));
                },
            }
        }
        r
    }
}

/// What `Writer::write` leaves in the sink: the bytes that were there, the
/// magic bytes, then the header record followed by one record per feature.
/// When a feature cannot be written, the sink ends after the records of the
/// features before it, and the error is that feature's.
pub open spec fn container_written(
    before: Seq<u8>,
    after: Seq<u8>,
    features: Seq<FeatureSource>,
    r: Result<(), WriteError>,
) -> bool {
    let s = before.len() as int;
    &&& after.len() >= s + 8
    &&& after.subrange(0, s) == before
    &&& after.subrange(s, s + 8) == magic_bytes()
    &&& (r is Ok <==> forall|i: int| 0 <= i < features.len() ==> feature_error(#[trigger] features[i]) is None)
    &&& (r is Ok ==> container_records(after.skip(s + 8), features, features.len()))
    &&& (r matches Err(e) ==> exists|k: int|
        0 <= k < features.len()
        && (forall|j: int| 0 <= j < k ==> feature_error(#[trigger] features[j]) is None)
        && feature_error(features[k]) == Some(e)
        && container_records(after.skip(s + 8), features, k as nat))
}

/// `data` is the records of the first `k` of `features`, laid end to end.
pub open spec fn features_recorded(data: Seq<u8>, features: Seq<FeatureSource>, k: nat) -> bool {
    exists|recs: Seq<Seq<u8>>|
        recs.len() == k && data == concat(recs)
        && forall|i: int| 0 <= i < k ==> is_feature_record(#[trigger] recs[i], features[i])
}

/// `data` is a header record for `features`, then the records of the first `k`
/// of them; a reader that skips records by their length prefixes finds `k + 1`.
pub open spec fn container_records(data: Seq<u8>, features: Seq<FeatureSource>, k: nat) -> bool {
    &&& framed_records(data, k + 1)
    &&& exists|hdr: Seq<u8>, rest: Seq<u8>|
        data == hdr + rest && is_header_record(hdr, features.len() as u64)
        && features_recorded(rest, features, k)
}

/// An empty feature sequence still makes a whole container: the magic bytes
/// and the header record, and no feature record after it.
pub proof fn lemma_empty_container(before: Seq<u8>, after: Seq<u8>, r: Result<(), WriteError>)
    requires
        container_written(before, after, Seq::empty(), r),
    ensures
        r is Ok,
        after.subrange(before.len() as int, before.len() as int + 8) == magic_bytes(),
        framed_records(after.skip(before.len() as int + 8), 1),
{
}

/// Features of different geometry kinds go into one container side by side:
/// when each feature can be written on its own, the whole container is
/// written, and each record is built from its own feature, kind included,
/// whatever the mix of kinds and whatever the header declares.
pub proof fn lemma_mixed_kinds(before: Seq<u8>, after: Seq<u8>, features: Seq<FeatureSource>, r: Result<(), WriteError>)
    requires
        container_written(before, after, features, r),
        forall|i: int| 0 <= i < features.len() ==> feature_error(#[trigger] features[i]) is None,
    ensures
        r is Ok,
        container_records(after.skip(before.len() as int + 8), features, features.len()),
{
}

/// After a successful write, the header record is the one for the number of
/// features, and the record at position `i` is feature `i`'s own: the
/// container keeps, in input order, what a reader needs to give each feature
/// back, its geometry kind and coordinates included.
pub proof fn lemma_features_in_order(before: Seq<u8>, after: Seq<u8>, features: Seq<FeatureSource>)
    requires
        container_written(before, after, features, Ok(())),
    ensures
        exists|hdr: Seq<u8>, recs: Seq<Seq<u8>>|
            #![trigger concat(recs), hdr.len()]
            after.skip(before.len() as int + 8) == hdr + concat(recs)
            && recs.len() == features.len()
            && is_header_record(hdr, features.len() as u64)
            && forall|i: int| 0 <= i < features.len() ==> is_feature_record(#[trigger] recs[i], features[i]),
{
    let data = after.skip(before.len() as int + 8);
    let (hdr, rest) = choose|hdr: Seq<u8>, rest: Seq<u8>|
        data == hdr + rest && is_header_record(hdr, features.len() as u64)
        && features_recorded(rest, features, features.len());
    let recs = choose|recs: Seq<Seq<u8>>|
        recs.len() == features.len() && rest == concat(recs)
        && forall|i: int| 0 <= i < features.len() ==> is_feature_record(#[trigger] recs[i], features[i]);
    assert(data == hdr + concat(recs));
}

} // verus!
