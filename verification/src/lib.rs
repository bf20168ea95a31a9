//! OpenCTP market data: from the callbacks of a front, or from made-up ticks, to the rows of a
//! segment.
//!
//! Prices are carried as a type parameter; what computes with them is handed in as a
//! [`market_walk::PriceModel`]. Loops that wait for the world outside are state machines: they name
//! a step, their owner carries it out and reports how it went.
pub mod batching;
pub mod bridge;
pub mod calendar;
pub mod channel;
pub mod clock;
pub mod columnar_generator;
pub mod descriptor;
pub mod driver_ctp;
pub mod emitter;
pub mod errors;
pub mod fake_driver;
pub mod generator;
pub mod generator_driver;
pub mod generator_run;
pub mod lifecycle;
pub mod live_driver;
pub mod market_walk;
pub mod metrics;
pub mod normalize;
pub mod schema;
pub mod segment_ingress;
pub mod source;
pub mod source_loop;
pub mod text;

pub use columnar_generator::OpenCtpColumnarGeneratorSource;
pub use driver_ctp::Ctp2rsMdDriver;
pub use emitter::{BufferedTickEmitter, FakeOpenCtpSourceRuntime};
pub use errors::{RuntimeError, SourceError};
pub use generator::{OpenCtpMarketGeneratorConfig, OpenCtpMarketGeneratorConfigError};
pub use generator_driver::{OpenCtpMarketGeneratorDriver, OpenCtpNormalizedGeneratorDriver};
pub use metrics::OpenCtpSourceMetrics;
pub use normalize::{normalize_tick, NormalizeError, NormalizedTickRow, RawTickSnapshot};
pub use schema::{tick_data_schema, tick_data_schema_name, TickSchemaField, TickSchemaType};
pub use segment_ingress::{
    OpenCtpActiveSegmentSnapshot, OpenCtpSegmentDebugMetrics, OpenCtpSegmentIngress,
};
pub use source::{MdDriverEvent, OpenCtpMarketDataSourceConfig, OpenCtpSourceStatus};
