//! Ingestion of finalized blocks from several chains at once.
//!
//! Each chain is a source of blocks. The sources are merged into one stream of
//! arrivals, each tagged with the label of its chain. For every arrival the
//! pipeline widens the watermark of the chain, the lowest and highest height
//! seen so far, and lists the records to append to three logs: one line for
//! the block, one for each of its extrinsics, one for each of their events.
//! What cannot be fetched or decoded is reported, and the run goes on.
//!
//! The library decides and formats; it neither waits nor writes. Its
//! surroundings wait on the chains and write the logs.
//!
//! - [`merge`]: the fan-in of the sources.
//! - [`watermark`]: the range of heights per chain, and the chain with the
//!   highest or lowest height of all.
//! - [`block`]: blocks, extrinsics and events as plain values.
//! - [`extract`]: from a block to the effects that it calls for.
//! - [`effect`]: the effects: lines to append, failures to report.
//! - [`record`]: the format of the lines.
//! - [`sink`]: the logs in memory, and the rule for sinks that keep failing.
//! - [`pipeline`]: the driver that ties these together.
//! - [`text`]: numbers, bytes and lists as text, and the order of labels.

pub mod block;
pub mod effect;
pub mod extract;
pub mod merge;
pub mod pipeline;
pub mod record;
pub mod sink;
pub mod text;
pub mod watermark;
