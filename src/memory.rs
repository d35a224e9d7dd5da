use crate::config::ConfigError;
use crate::stats::{MacAddr, PortStats, Statistics, MAX_PORTS, PORT_COUNTERS, QUEUE_STAT_COUNTERS};
use vstd::bytes::{spec_u64_from_le_bytes, u64_from_le_bytes};
use vstd::prelude::*;
use vstd::slice::slice_subrange;

verus! {

/// Bytes before the pixels: width and height as little-endian 16-bit values.
pub const HEADER_SIZE: usize = 4;

/// Bytes of one port record: the address, two bytes of padding, then 88 counters.
pub const PORT_STATS_SIZE: usize = 712;

/// Bytes of all port records.
pub const STATISTICS_SIZE: usize = 22784;

/// The little-endian 16-bit value at `off`.
pub open spec fn u16_at(b: Seq<u8>, off: int) -> int {
    b[off] + 256 * b[off + 1]
}

/// The little-endian 64-bit value at `off`.
pub open spec fn u64_at(b: Seq<u8>, off: int) -> u64 {
    spec_u64_from_le_bytes(b.subrange(off, off + 8))
}

/// The port record that starts at `base`: the address in its first six bytes, then the
/// counters from byte 8 on, in the order of [`PortStats::counters`].
pub open spec fn port_at(b: Seq<u8>, base: int, p: PortStats) -> bool {
    &&& p.mac_addr.0@ == b.subrange(base, base + 6)
    &&& p.counters() == Seq::new(PORT_COUNTERS as nat, |i: int| u64_at(b, base + 8 + 8 * i))
}

/// Where the parts of the shared memory lie.
#[derive(Clone, Copy, Debug, PartialEq, Eq, Structural)]
pub struct FrameLayout {
    pub width: u16,
    pub height: u16,
    /// Offset of the first pixel cell.
    pub pixels_offset: usize,
    /// Number of pixel cells, `width * height`.
    pub cells: usize,
    /// Offset of the port records, right after the last cell.
    pub stats_offset: usize,
}

/// Reads the header of the shared memory `mem` and checks that it holds the pixels and the
/// port records it declares.
pub fn read_layout(mem: &[u8]) -> (r: Result<FrameLayout, ConfigError>)
    ensures
        mem@.len() < HEADER_SIZE ==> r == Err::<FrameLayout, ConfigError>(
            ConfigError::HeaderTooShort { len: mem@.len() as usize },
        ),
        mem@.len() >= HEADER_SIZE ==> {
            let (width, height) = (u16_at(mem@, 0), u16_at(mem@, 2));
            let needed = HEADER_SIZE + width * height * 4 + STATISTICS_SIZE;
            &&& (width == 0 || height == 0) ==> r == Err::<FrameLayout, ConfigError>(
                ConfigError::EmptyFramebuffer { width: width as u16, height: height as u16 },
            )
            &&& (width > 0 && height > 0 && mem@.len() < needed) ==> r == Err::<
                FrameLayout,
                ConfigError,
            >(ConfigError::MemoryTooSmall { len: mem@.len() as usize, needed: needed as u64 })
            &&& (width > 0 && height > 0 && mem@.len() >= needed) ==> r == Ok::<
                FrameLayout,
                ConfigError,
            >(
                FrameLayout {
                    width: width as u16,
                    height: height as u16,
                    pixels_offset: HEADER_SIZE,
                    cells: (width * height) as usize,
                    stats_offset: (HEADER_SIZE + width * height * 4) as usize,
                },
            )
        },
{
    if mem.len() < HEADER_SIZE {
        return Err(ConfigError::HeaderTooShort { len: mem.len() });
    }
    let width = mem[0] as u16 + 256 * mem[1] as u16;
    let height = mem[2] as u16 + 256 * mem[3] as u16;
    if width == 0 || height == 0 {
        return Err(ConfigError::EmptyFramebuffer { width, height });
    }
    proof {
        let (w, h) = (width as int, height as int);
        assert(0 <= w * h <= 0xffff * 0xffff) by (nonlinear_arith)
            requires
                0 <= w <= 0xffff,
                0 <= h <= 0xffff,
        ;
    }
    let cells = width as u64 * height as u64;
    let needed = HEADER_SIZE as u64 + cells * 4 + STATISTICS_SIZE as u64;
    if (mem.len() as u64) < needed {
        return Err(ConfigError::MemoryTooSmall { len: mem.len(), needed });
    }
    Ok(
        FrameLayout {
            width,
            height,
            pixels_offset: HEADER_SIZE,
            cells: cells as usize,
            stats_offset: HEADER_SIZE + cells as usize * 4,
        },
    )
}

fn read_u64(b: &[u8], off: usize) -> (r: u64)
    requires
        off + 8 <= b.len(),
    ensures
        r == u64_at(b@, off as int),
{
    u64_from_le_bytes(slice_subrange(b, off, off + 8))
}

fn read_queue(b: &[u8], off: usize) -> (r: [u64; QUEUE_STAT_COUNTERS])
    requires
        off + 8 * QUEUE_STAT_COUNTERS <= b.len(),
    ensures
        r@ == Seq::new(QUEUE_STAT_COUNTERS as nat, |k: int| u64_at(b@, off + 8 * k)),
{
    let mut r = [0u64; QUEUE_STAT_COUNTERS];
    let mut k: usize = 0;
    while k < QUEUE_STAT_COUNTERS
        invariant
            0 <= k <= QUEUE_STAT_COUNTERS,
            off + 8 * QUEUE_STAT_COUNTERS <= b.len(),
            forall|j: int| 0 <= j < k ==> #[trigger] r@[j] == u64_at(b@, off + 8 * j),
        decreases QUEUE_STAT_COUNTERS - k,
    {
        r[k] = read_u64(b, off + 8 * k);
        k += 1;
    }
    assert(r@ =~= Seq::new(QUEUE_STAT_COUNTERS as nat, |k: int| u64_at(b@, off + 8 * k)));
    r
}

impl PortStats {
    /// Decodes the port record that starts at `base`.
    pub fn from_bytes(b: &[u8], base: usize) -> (r: PortStats)
        requires
            base + PORT_STATS_SIZE <= b.len(),
        ensures
            port_at(b@, base as int, r),
    {
        let r = PortStats {
            mac_addr: MacAddr([b[base], b[base + 1], b[base + 2], b[base + 3], b[base + 4], b[base + 5]]),
            ipackets: read_u64(b, base + 8),
            opackets: read_u64(b, base + 16),
            ibytes: read_u64(b, base + 24),
            obytes: read_u64(b, base + 32),
            imissed: read_u64(b, base + 40),
            ierrors: read_u64(b, base + 48),
            oerrors: read_u64(b, base + 56),
            rx_nombuf: read_u64(b, base + 64),
            q_ipackets: read_queue(b, base + 72),
            q_opackets: read_queue(b, base + 200),
            q_ibytes: read_queue(b, base + 328),
            q_obytes: read_queue(b, base + 456),
            q_errors: read_queue(b, base + 584),
        };
        assert(r.mac_addr.0@ =~= b@.subrange(base as int, base + 6));
        assert(r.counters() =~= Seq::new(
            PORT_COUNTERS as nat,
            |i: int| u64_at(b@, base + 8 + 8 * i),
        ));
        r
    }
}

impl Statistics {
    /// Decodes the port records at the start of `b`; `None` when `b` is too short for them.
    pub fn from_bytes(b: &[u8]) -> (r: Option<Statistics>)
        ensures
            r is None <==> b@.len() < STATISTICS_SIZE,
            r matches Some(s) ==> forall|k: int|
                0 <= k < MAX_PORTS ==> port_at(
                    b@,
                    k * PORT_STATS_SIZE,
                    #[trigger] s.port_stats@[k],
                ),
    {
        if b.len() < STATISTICS_SIZE {
            return None;
        }
        let zero = PortStats::default();
        let mut port_stats = [zero; MAX_PORTS];
        let mut k: usize = 0;
        while k < MAX_PORTS
            invariant
                0 <= k <= MAX_PORTS,
                b.len() >= STATISTICS_SIZE,
                forall|j: int|
                    0 <= j < k ==> port_at(b@, j * PORT_STATS_SIZE, #[trigger] port_stats@[j]),
            decreases MAX_PORTS - k,
        {
            port_stats[k] = PortStats::from_bytes(b, k * PORT_STATS_SIZE);
            k += 1;
        }
        Some(Statistics { port_stats })
    }
}

} // verus!
