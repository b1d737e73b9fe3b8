//! Planning and state tracking for installing a streamed, GPT-partitioned
//! disk image onto a track-addressed (ECKD) direct-access storage device.
//!
//! The library computes a byte-range copy plan and track descriptors from a
//! partition table, models the forward-only stream copy, and drives the
//! destructive formatting steps as checked state machines.  All device and
//! process I/O is performed by the surrounding application.

mod copy;
mod errors;
mod format;
mod geometry;
mod gpt;
mod plan;
mod textfmt;
mod textscan;

pub use copy::CopyCursor;
pub use copy::CopyPhase;
pub use copy::CopyStep;
pub use copy::STREAM_START;
pub use copy::apply_ranges;
pub use errors::DasdError;
pub use format::ApplyMachine;
pub use format::ApplyState;
pub use format::MAX_PARTITIONS;
pub use format::PrepareEvent;
pub use format::PrepareMachine;
pub use format::PrepareState;
pub use geometry::Geometry;
pub use geometry::validate_sectors_per_track;
pub use gpt::GptEntry;
pub use gpt::gpt_parse_is_safe;
pub use gpt::plan_from_header;
pub use plan::FIRST_DATA_TRACK;
pub use plan::PartitionSpan;
pub use plan::Plan;
pub use plan::Range;
pub use plan::TrackDescriptor;
pub use plan::TrackEnd;
pub use plan::compute_plan;
pub use plan::sort_ranges;
pub use textfmt::build_partition_config;
pub use textfmt::dec_string;
pub use textfmt::render_descriptor;
pub use textscan::ccw_status_path;
pub use textscan::contains_str;
pub use textscan::parse_bus_id;
pub use textscan::probe_reports_invalid_label;
pub use textscan::status_reports_formatted;
