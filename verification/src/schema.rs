//! The columns of a tick.
use arrow::datatypes::{DataType, Field, Schema, TimeUnit};
use std::sync::Arc;
use vstd::prelude::*;

verus! {

#[derive(Debug, Clone, Copy, PartialEq, Eq, Structural)]
pub enum TickSchemaType {
    Utf8,
    /// Nanoseconds from the Unix epoch, shown in UTC.
    TimestampNsUtc,
    /// Nanoseconds from the Unix epoch, shown in the exchange's local time.
    TimestampNsShanghai,
    Float64,
    Int64,
}

#[derive(Debug, Clone, Copy, PartialEq, Eq)]
pub struct TickSchemaField {
    pub name: &'static str,
    pub data_type: TickSchemaType,
    pub nullable: bool,
}

/// Name, type and nullability of a column.
pub type ColumnView = (Seq<char>, TickSchemaType, bool);

impl View for TickSchemaField {
    type V = ColumnView;

    open spec fn view(&self) -> ColumnView {
        (self.name@, self.data_type, self.nullable)
    }
}

/// The columns that a list of fields describes.
pub open spec fn columns(fields: Seq<TickSchemaField>) -> Seq<ColumnView> {
    fields.map_values(|field: TickSchemaField| field@)
}

/// The columns of the tick schema.
pub open spec fn tick_columns() -> Seq<ColumnView> {
    seq![
        ("instrument_id"@, TickSchemaType::Utf8, false),
        ("exchange_id"@, TickSchemaType::Utf8, true),
        ("trading_day"@, TickSchemaType::Utf8, true),
        ("action_day"@, TickSchemaType::Utf8, true),
        ("dt"@, TickSchemaType::TimestampNsUtc, false),
        ("last_price"@, TickSchemaType::Float64, true),
        ("volume"@, TickSchemaType::Int64, true),
        ("turnover"@, TickSchemaType::Float64, true),
        ("open_interest"@, TickSchemaType::Float64, true),
        ("bid_price_1"@, TickSchemaType::Float64, true),
        ("bid_volume_1"@, TickSchemaType::Int64, true),
        ("ask_price_1"@, TickSchemaType::Float64, true),
        ("ask_volume_1"@, TickSchemaType::Int64, true),
    ]
}

/// The columns of a segment: those of a tick, the event time in the exchange's local time, and
/// behind it the two local times.
pub open spec fn segment_columns() -> Seq<ColumnView> {
    tick_columns().update(4, ("dt"@, TickSchemaType::TimestampNsShanghai, false)).insert(
        5,
        ("localtime_ns"@, TickSchemaType::Int64, false),
    ).insert(6, ("source_emit_ns"@, TickSchemaType::Int64, false))
}

fn field(name: &'static str, data_type: TickSchemaType, nullable: bool) -> (r: TickSchemaField)
    ensures
        r@ == (name@, data_type, nullable),
{
    TickSchemaField { name, data_type, nullable }
}

/// The fields of the tick schema, in their order.
pub fn tick_schema_fields() -> (fields: Vec<TickSchemaField>)
    ensures
        columns(fields@) == tick_columns(),
{
    let fields: Vec<TickSchemaField> = vec![
        field("instrument_id", TickSchemaType::Utf8, false),
        field("exchange_id", TickSchemaType::Utf8, true),
        field("trading_day", TickSchemaType::Utf8, true),
        field("action_day", TickSchemaType::Utf8, true),
        field("dt", TickSchemaType::TimestampNsUtc, false),
        field("last_price", TickSchemaType::Float64, true),
        field("volume", TickSchemaType::Int64, true),
        field("turnover", TickSchemaType::Float64, true),
        field("open_interest", TickSchemaType::Float64, true),
        field("bid_price_1", TickSchemaType::Float64, true),
        field("bid_volume_1", TickSchemaType::Int64, true),
        field("ask_price_1", TickSchemaType::Float64, true),
        field("ask_volume_1", TickSchemaType::Int64, true),
    ];
    assert(columns(fields@) =~= tick_columns());
    fields
}

/// The fields of a segment, in their order.
pub fn segment_schema_fields() -> (fields: Vec<TickSchemaField>)
    ensures
        columns(fields@) == segment_columns(),
{
    let mut fields: Vec<TickSchemaField> = tick_schema_fields();
    let ghost ticks = fields@;
    proof {
        assert(columns(ticks).len() == 13);
    }
    fields.set(4, field("dt", TickSchemaType::TimestampNsShanghai, false));
    fields.insert(5, field("localtime_ns", TickSchemaType::Int64, false));
    fields.insert(6, field("source_emit_ns", TickSchemaType::Int64, false));
    proof {
        assert forall|i: int| 0 <= i < 15 implies columns(fields@)[i] == segment_columns()[i] by {
            if i < 4 {
                assert(columns(ticks)[i] == tick_columns()[i]);
            } else if i > 6 {
                assert(columns(ticks)[i - 2] == tick_columns()[i - 2]);
            }
        }
        assert(columns(fields@) =~= segment_columns());
    }
    fields
}

/// Name under which the tick schema is known.
pub fn tick_data_schema_name() -> (name: &'static str)
    ensures
        name@ == "tick_data"@,
{
    "tick_data"
}

impl TickSchemaType {
    /// The name by which a Python caller knows the type.
    pub open spec fn python_name_text(self) -> Seq<char> {
        match self {
            TickSchemaType::Utf8 => "utf8"@,
            TickSchemaType::TimestampNsUtc => "timestamp_ns_utc"@,
            TickSchemaType::TimestampNsShanghai => "timestamp_ns_shanghai"@,
            TickSchemaType::Float64 => "float64"@,
            TickSchemaType::Int64 => "int64"@,
        }
    }

    /// The name by which a Python caller knows the type.
    pub fn python_name(self) -> (name: &'static str)
        ensures
            name@ == self.python_name_text(),
    {
        match self {
            TickSchemaType::Utf8 => "utf8",
            TickSchemaType::TimestampNsUtc => "timestamp_ns_utc",
            TickSchemaType::TimestampNsShanghai => "timestamp_ns_shanghai",
            TickSchemaType::Float64 => "float64",
            TickSchemaType::Int64 => "int64",
        }
    }
}

/// The Arrow types that the schema uses.
#[derive(Debug, Clone, Copy, PartialEq, Eq)]
pub enum ArrowType {
    Utf8,
    TimestampNs(&'static str),
    Float64,
    Int64,
}

/// The Arrow types that the schema uses, a timestamp with its time zone.
pub enum ArrowTypeView {
    Utf8,
    TimestampNs(Seq<char>),
    Float64,
    Int64,
}

impl View for ArrowType {
    type V = ArrowTypeView;

    open spec fn view(&self) -> ArrowTypeView {
        match self {
            ArrowType::Utf8 => ArrowTypeView::Utf8,
            ArrowType::TimestampNs(zone) => ArrowTypeView::TimestampNs(zone@),
            ArrowType::Float64 => ArrowTypeView::Float64,
            ArrowType::Int64 => ArrowTypeView::Int64,
        }
    }
}

/// An Arrow field: name, type and nullability.
pub struct ArrowColumn {
    pub name: &'static str,
    pub data_type: ArrowType,
    pub nullable: bool,
}

/// Name, Arrow type and nullability of a field.
pub type ArrowColumnView = (Seq<char>, ArrowTypeView, bool);

impl View for ArrowColumn {
    type V = ArrowColumnView;

    open spec fn view(&self) -> ArrowColumnView {
        (self.name@, self.data_type@, self.nullable)
    }
}

impl TickSchemaType {
    /// The Arrow type of the column.
    pub open spec fn arrow(self) -> ArrowTypeView {
        match self {
            TickSchemaType::Utf8 => ArrowTypeView::Utf8,
            TickSchemaType::TimestampNsUtc => ArrowTypeView::TimestampNs("UTC"@),
            TickSchemaType::TimestampNsShanghai => ArrowTypeView::TimestampNs("Asia/Shanghai"@),
            TickSchemaType::Float64 => ArrowTypeView::Float64,
            TickSchemaType::Int64 => ArrowTypeView::Int64,
        }
    }

    fn arrow_type(self) -> (r: ArrowType)
        ensures
            r@ == self.arrow(),
    {
        match self {
            TickSchemaType::Utf8 => ArrowType::Utf8,
            TickSchemaType::TimestampNsUtc => ArrowType::TimestampNs("UTC"),
            TickSchemaType::TimestampNsShanghai => ArrowType::TimestampNs("Asia/Shanghai"),
            TickSchemaType::Float64 => ArrowType::Float64,
            TickSchemaType::Int64 => ArrowType::Int64,
        }
    }
}

/// The Arrow fields of a list of columns.
pub open spec fn arrow_columns(columns: Seq<ColumnView>) -> Seq<ArrowColumnView> {
    columns.map_values(|column: ColumnView| (column.0, column.1.arrow(), column.2))
}

/// A schema of Arrow.
#[verifier::external_type_specification]
#[verifier::external_body]
pub struct ExSchema(Schema);

/// The fields that a schema of Arrow holds, in their order.
pub uninterp spec fn schema_fields(schema: Schema) -> Seq<ArrowColumnView>;

/// `Schema::new` of the `Field::new` of every column: the schema holds one field for each column,
/// in the same order, each with the column's name, type and nullability.
#[verifier::external_body]
fn new_schema(columns: &Vec<ArrowColumn>) -> (schema: Schema)
    ensures
        schema_fields(schema) == columns@.map_values(|column: ArrowColumn| column@),
{
    let to_field = |column: &ArrowColumn| {
        let data_type = match column.data_type {
            ArrowType::Utf8 => DataType::Utf8,
            ArrowType::TimestampNs(zone) => DataType::Timestamp(TimeUnit::Nanosecond, Some(zone.into())),
            ArrowType::Float64 => DataType::Float64,
            ArrowType::Int64 => DataType::Int64,
        };
        Field::new(column.name, data_type, column.nullable)
    };
    Schema::new(columns.iter().map(to_field).collect::<Vec<Field>>())
}

/// The tick schema for Arrow.
pub fn tick_data_schema() -> (schema: Arc<Schema>)
    ensures
        schema_fields(*schema) == arrow_columns(tick_columns()),
{
    let fields: Vec<TickSchemaField> = tick_schema_fields();
    let mut columns: Vec<ArrowColumn> = Vec::new();
    let mut i: usize = 0;
    while i < fields.len()
        invariant
            i <= fields.len(),
            columns.len() == i,
            forall|j: int|
                0 <= j < i ==> (#[trigger] columns@[j])@ == (
                    fields@[j].name@,
                    fields@[j].data_type.arrow(),
                    fields@[j].nullable,
                ),
        decreases fields.len() - i,
    {
        columns.push(
            ArrowColumn {
                name: fields[i].name,
                data_type: fields[i].data_type.arrow_type(),
                nullable: fields[i].nullable,
            },
        );
        i = i + 1;
    }
    proof {
        assert(tick_columns() == self::columns(fields@));
        assert(columns@.map_values(|column: ArrowColumn| column@) =~= arrow_columns(tick_columns()));
    }
    Arc::new(new_schema(&columns))
}

/// The segment's columns are the tick's, in the same order, and two more.
pub proof fn law_segment_extends_tick()
    ensures
        segment_columns().len() == tick_columns().len() + 2,
        forall|i: int| 0 <= i < 5 ==> (#[trigger] segment_columns()[i]).0 == tick_columns()[i].0,
        forall|i: int|
            5 <= i < tick_columns().len() ==> segment_columns()[i + 2] == #[trigger] tick_columns()[i],
{
}

/// No two columns of a segment have the same name.
#[verifier::rlimit(40)]
pub proof fn law_column_names_differ(i: int, j: int)
    requires
        0 <= i < j < segment_columns().len(),
    ensures
        segment_columns()[i].0 != segment_columns()[j].0,
{
    reveal_strlit("instrument_id");
    reveal_strlit("exchange_id");
    reveal_strlit("trading_day");
    reveal_strlit("action_day");
    reveal_strlit("dt");
    reveal_strlit("localtime_ns");
    reveal_strlit("source_emit_ns");
    reveal_strlit("last_price");
    reveal_strlit("volume");
    reveal_strlit("turnover");
    reveal_strlit("open_interest");
    reveal_strlit("bid_price_1");
    reveal_strlit("bid_volume_1");
    reveal_strlit("ask_price_1");
    reveal_strlit("ask_volume_1");
    let names = segment_columns().map_values(|column: ColumnView| column.0);
    assert(names =~= seq![
        "instrument_id"@,
        "exchange_id"@,
        "trading_day"@,
        "action_day"@,
        "dt"@,
        "localtime_ns"@,
        "source_emit_ns"@,
        "last_price"@,
        "volume"@,
        "turnover"@,
        "open_interest"@,
        "bid_price_1"@,
        "bid_volume_1"@,
        "ask_price_1"@,
        "ask_volume_1"@,
    ]);
    let keys = seq![
        (13int, 'i'),
        (11int, 'e'),
        (11int, 't'),
        (10int, 'a'),
        (2int, 'd'),
        (12int, 'l'),
        (14int, 's'),
        (10int, 'l'),
        (6int, 'v'),
        (8int, 't'),
        (13int, 'o'),
        (11int, 'b'),
        (12int, 'b'),
        (11int, 'a'),
        (12int, 'a'),
    ];
    assert forall|k: int| 0 <= k < 15 implies (names[k].len() as int, names[k][0]) == #[trigger] keys[k] by {
        assert(k == 0 || k == 1 || k == 2 || k == 3 || k == 4 || k == 5 || k == 6 || k == 7 || k == 8
            || k == 9 || k == 10 || k == 11 || k == 12 || k == 13 || k == 14);
    }
    assert(keys[i] != keys[j]);
}

/// Every type has the Arrow type that holds its values.
pub proof fn law_types_have_their_arrow_types(data_type: TickSchemaType)
    ensures
        data_type == TickSchemaType::Utf8 <==> data_type.arrow() is Utf8,
        data_type == TickSchemaType::Float64 <==> data_type.arrow() is Float64,
        data_type == TickSchemaType::Int64 <==> data_type.arrow() is Int64,
        data_type == TickSchemaType::TimestampNsUtc ==> data_type.arrow()
            == ArrowTypeView::TimestampNs("UTC"@),
        data_type == TickSchemaType::TimestampNsShanghai ==> data_type.arrow()
            == ArrowTypeView::TimestampNs("Asia/Shanghai"@),
{
}

/// Prices, turnover and interest are numbers with a fraction, volumes and local times whole ones, the
/// event time a timestamp, and the rest texts; only the instrument and the times are always there.
#[verifier::rlimit(40)]
pub proof fn law_columns_have_their_types(i: int)
    requires
        0 <= i < segment_columns().len(),
    ensures
        ({
            let column = segment_columns()[i];
            let name = column.0;
            &&& column.1 == (if name == "dt"@ {
                TickSchemaType::TimestampNsShanghai
            } else if name == "instrument_id"@ || name == "exchange_id"@ || name == "trading_day"@ || name
                == "action_day"@ {
                TickSchemaType::Utf8
            } else if name == "volume"@ || name == "bid_volume_1"@ || name == "ask_volume_1"@ || name
                == "localtime_ns"@ || name == "source_emit_ns"@ {
                TickSchemaType::Int64
            } else {
                TickSchemaType::Float64
            })
            &&& column.2 <==> !(name == "instrument_id"@ || name == "dt"@ || name == "localtime_ns"@
                || name == "source_emit_ns"@)
        }),
{
    let names = segment_columns().map_values(|column: ColumnView| column.0);
    assert forall|a: int, b: int| 0 <= a < b < 15 implies #[trigger] names[a] != #[trigger] names[b] by {
        law_column_names_differ(a, b);
    }
    assert(names[i] == segment_columns()[i].0);
    assert(names[0] == "instrument_id"@);
    assert(names[1] == "exchange_id"@);
    assert(names[2] == "trading_day"@);
    assert(names[3] == "action_day"@);
    assert(names[4] == "dt"@);
    assert(names[5] == "localtime_ns"@);
    assert(names[6] == "source_emit_ns"@);
    assert(names[7] == "last_price"@);
    assert(names[8] == "volume"@);
    assert(names[9] == "turnover"@);
    assert(names[10] == "open_interest"@);
    assert(names[11] == "bid_price_1"@);
    assert(names[12] == "bid_volume_1"@);
    assert(names[13] == "ask_price_1"@);
    assert(names[14] == "ask_volume_1"@);
    assert(i == 0 || i == 1 || i == 2 || i == 3 || i == 4 || i == 5 || i == 6 || i == 7 || i == 8 || i
        == 9 || i == 10 || i == 11 || i == 12 || i == 13 || i == 14);
}

} // verus!
