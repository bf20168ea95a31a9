use zippy_openctp::schema::{
    segment_schema_fields, tick_data_schema, tick_data_schema_name, tick_schema_fields,
    TickSchemaType,
};

#[test]
fn tick_data_schema_contains_required_columns_in_stable_order() {
    let schema = tick_data_schema();
    let fields: Vec<_> = schema
        .fields()
        .iter()
        .map(|field| field.name().as_str())
        .collect();

    assert_eq!(
        fields,
        vec![
            "instrument_id",
            "exchange_id",
            "trading_day",
            "action_day",
            "dt",
            "last_price",
            "volume",
            "turnover",
            "open_interest",
            "bid_price_1",
            "bid_volume_1",
            "ask_price_1",
            "ask_volume_1",
        ]
    );

    let dt = schema.field_with_name("dt").unwrap();
    assert_eq!(
        dt.data_type(),
        &arrow::datatypes::DataType::Timestamp(
            arrow::datatypes::TimeUnit::Nanosecond,
            Some("UTC".into())
        )
    );
    assert!(!dt.is_nullable());

    let instrument_id = schema.field_with_name("instrument_id").unwrap();
    assert_eq!(instrument_id.data_type(), &arrow::datatypes::DataType::Utf8);
    assert!(!instrument_id.is_nullable());

    let volume = schema.field_with_name("volume").unwrap();
    assert_eq!(volume.data_type(), &arrow::datatypes::DataType::Int64);
    assert!(volume.is_nullable());

    let last_price = schema.field_with_name("last_price").unwrap();
    assert_eq!(last_price.data_type(), &arrow::datatypes::DataType::Float64);
}

#[test]
fn schema_of_arrow_agrees_with_its_fields() {
    let schema = tick_data_schema();
    let fields = tick_schema_fields();
    assert_eq!(schema.fields().len(), fields.len());
    for (column, field) in schema.fields().iter().zip(fields) {
        assert_eq!(column.name(), field.name);
        assert_eq!(column.is_nullable(), field.nullable);
    }
    assert!(!tick_data_schema_name().is_empty());
}

#[test]
fn segment_columns_add_the_two_local_times() {
    let segment = segment_schema_fields();
    let tick = tick_schema_fields();
    assert_eq!(segment.len(), tick.len() + 2);
    assert_eq!(segment[0].name, "instrument_id");
    assert_eq!(segment[4].name, "dt");
    assert_eq!(segment[4].data_type, TickSchemaType::TimestampNsShanghai);
    assert_eq!(segment[5].name, "localtime_ns");
    assert_eq!(segment[6].name, "source_emit_ns");
    assert_eq!(segment[7], tick[5]);
    assert_eq!(segment[14], tick[12]);
}

#[test]
fn column_types_have_names() {
    assert_eq!(TickSchemaType::Utf8.python_name(), "utf8");
    assert_eq!(TickSchemaType::TimestampNsShanghai.python_name(), "timestamp_ns_shanghai");
    assert_eq!(TickSchemaType::Float64.python_name(), "float64");
    assert_eq!(TickSchemaType::Int64.python_name(), "int64");
}

#[test]
fn no_two_columns_share_a_name() {
    let segment = segment_schema_fields();
    for (i, a) in segment.iter().enumerate() {
        for b in segment.iter().skip(i + 1) {
            assert_ne!(a.name, b.name);
        }
    }
}
