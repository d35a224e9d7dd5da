//! Streams a shared pixel framebuffer to a canvas server and derives
//! per-second rates from shared port counters.
//!
//! The library holds the logic: validating the configuration, splitting the
//! framebuffer between workers, encoding regions into the wire formats,
//! scheduling ticks, decoding the shared memory layout and computing the
//! statistics diffs and totals. Sockets, timers, terminals and shared memory
//! handles stay with the caller.

pub mod config;
pub mod dashboard;
pub mod drawer;
pub mod memory;
pub mod monitor;
pub mod partition;
pub mod stats;
pub mod wire;

pub use config::{Args, ConfigError, Geometry, TransmitMode};
pub use dashboard::{handle_key, update, KeyCode, Message, Model, RunningState};
pub use drawer::{next_deadline, plan_drawers, Drawer};
pub use memory::{read_layout, FrameLayout, HEADER_SIZE, PORT_STATS_SIZE, STATISTICS_SIZE};
pub use monitor::{totals, StatsDiffEngine};
pub use partition::{partition, Region};
pub use stats::{MacAddr, PortStats, Statistics, MAX_PORTS, PORT_COUNTERS, QUEUE_STAT_COUNTERS};
pub use wire::{
    encode_binary_pixel, encode_binary_sync, encode_sync_frame, encode_text, u32_to_u8,
    EncodeError, UNSET_PIXEL,
};
