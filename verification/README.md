# zippy_openctp

A market data source for OpenCTP: it connects to a CTP front (or makes ticks up while no market is
open), turns depth quotes into rows of the tick schema, and writes the rows to the segments of a
stream.

The library under `src/` is written in Verus, and every function of it is verified. Threads, the
CTP front, the segment store and Python are under `app/`.

## How the library is laid out

- `text`, `calendar`, `clock`, `channel`: texts, dates, the clocks, and the ends of channels.
- `errors`, `metrics`, `schema`: what all of the library shares.
- `normalize`, `batching`, `emitter`: from raw ticks to batches of rows.
- `source`, `source_loop`, `lifecycle`: the configuration of a source, its loop and its life.
- `driver_ctp`, `live_driver`: subscriptions, callbacks and the loop of a driver that is connected
  to a front.
- `market_walk`, `generator`, `generator_driver`, `generator_run`, `columnar_generator`: ticks that
  are made up.
- `fake_driver`: the driver that passes on what a test hands it.
- `segment_ingress`, `descriptor`, `bridge`: what goes into the segments, their descriptors, and the
  side that faces Python.

Loops that wait for the world outside are state machines. They name a step, their owner carries it
out and hands back a reply; `accepts` says whether a reply may be handed back. What can follow a
reply is a relation (`follows`), and the laws speak of that relation.

Prices are a type parameter. What computes with them is a `PriceModel`, which `app/` implements for
floating point numbers.

Proof functions whose names begin with `law_` state what holds of the library as a whole.
