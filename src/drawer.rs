use crate::config::{Args, ConfigError, Geometry, TransmitMode};
use crate::partition::{chunk_size, is_chunk, partition, tiles, Region};
use crate::wire::{
    encode_binary_pixel, encode_binary_sync, encode_text, pixel_output, sync_output,
    text_cleared, text_output,
};
use vstd::arithmetic::div_mod::lemma_fundamental_div_mod;
use vstd::prelude::*;

verus! {

/// One output worker: its region of the framebuffer and how it sends it.
#[derive(Clone, Copy, Debug, PartialEq, Eq, Structural)]
pub struct Drawer {
    pub geometry: Geometry,
    pub region: Region,
    pub fps: u32,
    pub transmit_mode: TransmitMode,
}

/// The geometry the options ask for on a framebuffer of `width` by `height`.
pub open spec fn requested_geometry(width: u16, height: u16, args: Args) -> Geometry {
    Geometry { width, height, x_shard: args.x_shard, x_shards: args.x_shards }
}

/// The first configuration error of a drawer for `width` by `height`: the framebuffer size,
/// then the shard, then the tick rate.
pub open spec fn drawer_error(width: u16, height: u16, args: Args) -> Option<ConfigError> {
    if width == 0 || height == 0 {
        Some(ConfigError::EmptyFramebuffer { width, height })
    } else if !(1 <= args.x_shard <= args.x_shards) {
        Some(ConfigError::ShardOutOfRange { x_shard: args.x_shard, x_shards: args.x_shards })
    } else if width % args.x_shards != 0 {
        Some(ConfigError::WidthNotDivisible { width, x_shards: args.x_shards })
    } else if args.fps == 0 {
        Some(ConfigError::ZeroFps)
    } else {
        None
    }
}

/// The regions of the drawers, in order.
pub open spec fn regions_of(ds: Seq<Drawer>) -> Seq<Region> {
    ds.map_values(|d: Drawer| d.region)
}

impl Drawer {
    pub open spec fn wf(&self) -> bool {
        self.geometry.wf() && self.fps >= 1
    }

    /// A drawer for `region` of a `width` by `height` framebuffer; the shard and the tick
    /// rate are checked before anything is streamed.
    pub fn new(region: Region, width: u16, height: u16, args: &Args) -> (r: Result<
        Drawer,
        ConfigError,
    >)
        ensures
            drawer_error(width, height, *args) is Some ==> r == Err::<Drawer, ConfigError>(
                drawer_error(width, height, *args)->Some_0,
            ),
            drawer_error(width, height, *args) is None ==> r == Ok::<Drawer, ConfigError>(
                Drawer {
                    geometry: requested_geometry(width, height, *args),
                    region,
                    fps: args.fps,
                    transmit_mode: args.transmit_mode,
                },
            ),
            r matches Ok(d) ==> d.wf(),
    {
        let geometry = match Geometry::new(width, height, args.x_shard, args.x_shards) {
            Ok(g) => g,
            Err(e) => return Err(e),
        };
        if args.fps == 0 {
            return Err(ConfigError::ZeroFps);
        }
        Ok(Drawer { geometry, region, fps: args.fps, transmit_mode: args.transmit_mode })
    }

    /// Encodes the region once in the drawer's wire format. Only the text format changes
    /// the framebuffer: it clears what it sent.
    pub fn draw(&self, fb: &mut [u32]) -> (out: Vec<u8>)
        requires
            self.wf(),
            old(fb)@.len() == self.geometry.spec_cells(),
        ensures
            ({
                let (g, start, end) = (
                    self.geometry,
                    self.region.start as int,
                    self.region.spec_end(self.geometry),
                );
                match self.transmit_mode {
                    TransmitMode::TextPixel => out@ == text_output(old(fb)@, g, start, end)
                        && final(fb)@ == text_cleared(old(fb)@, g, start, end),
                    TransmitMode::BinaryPixel => out@ == pixel_output(old(fb)@, g, start, end)
                        && final(fb)@ == old(fb)@,
                    TransmitMode::BinarySync => out@ == sync_output(old(fb)@, g, start, end)
                        && final(fb)@ == old(fb)@,
                }
            }),
    {
        match self.transmit_mode {
            TransmitMode::TextPixel => encode_text(fb, &self.geometry, &self.region),
            TransmitMode::BinaryPixel => encode_binary_pixel(fb, &self.geometry, &self.region),
            TransmitMode::BinarySync => encode_binary_sync(fb, &self.geometry, &self.region),
        }
    }

    /// Time between two ticks, in microseconds.
    pub fn tick_period_micros(&self) -> (r: u64)
        requires
            self.fps >= 1,
        ensures
            r == 1_000_000int / (self.fps as int),
            r >= 1 || self.fps > 1_000_000,
    {
        let r = 1_000_000 / self.fps as u64;
        proof {
            let f = self.fps as int;
            assert(f <= 1_000_000 ==> 1_000_000int / f >= 1) by (nonlinear_arith)
                requires
                    f >= 1,
            ;
        }
        r
    }
}

/// Checks the options against a `width` by `height` framebuffer and gives one drawer for
/// each region of the split between the requested number of workers.
pub fn plan_drawers(width: u16, height: u16, args: &Args) -> (r: Result<Vec<Drawer>, ConfigError>)
    ensures
        drawer_error(width, height, *args) is Some ==> r == Err::<Vec<Drawer>, ConfigError>(
            drawer_error(width, height, *args)->Some_0,
        ),
        drawer_error(width, height, *args) is None && args.drawing_threads == 0 ==> r == Err::<
            Vec<Drawer>,
            ConfigError,
        >(ConfigError::NoWorkers),
        r is Ok <==> drawer_error(width, height, *args) is None && args.drawing_threads >= 1,
        r matches Ok(ds) ==> {
            let g = requested_geometry(width, height, *args);
            &&& g.wf()
            &&& ds@.len() >= 1
            &&& forall|k: int|
                0 <= k < ds@.len() ==> (#[trigger] ds@[k]).wf() && ds@[k].geometry == g
                    && ds@[k].fps == args.fps && ds@[k].transmit_mode == args.transmit_mode
            &&& forall|k: int|
                0 <= k < ds@.len() ==> is_chunk(
                    g,
                    #[trigger] ds@[k].region,
                    k,
                    chunk_size(g.spec_shard_cells(), args.drawing_threads as int),
                )
            &&& tiles(g, regions_of(ds@))
        },
{
    let geometry = match Geometry::new(width, height, args.x_shard, args.x_shards) {
        Ok(g) => g,
        Err(e) => return Err(e),
    };
    if args.fps == 0 {
        return Err(ConfigError::ZeroFps);
    }
    if args.drawing_threads == 0 {
        return Err(ConfigError::NoWorkers);
    }
    let regions = partition(&geometry, args.drawing_threads);
    let mut drawers: Vec<Drawer> = Vec::new();
    let mut k: usize = 0;
    while k < regions.len()
        invariant
            0 <= k <= regions@.len(),
            drawers@.len() == k,
            geometry == requested_geometry(width, height, *args),
            geometry.wf(),
            args.fps >= 1,
            forall|j: int|
                0 <= j < k ==> (#[trigger] drawers@[j]) == (Drawer {
                    geometry,
                    region: regions@[j],
                    fps: args.fps,
                    transmit_mode: args.transmit_mode,
                }),
        decreases regions@.len() - k,
    {
        drawers.push(
            Drawer {
                geometry,
                region: regions[k],
                fps: args.fps,
                transmit_mode: args.transmit_mode,
            },
        );
        k += 1;
    }
    assert(regions_of(drawers@) =~= regions@);
    Ok(drawers)
}

/// When the tick after the one due at `previous` is due, with ticks every `period`
/// microseconds on a fixed grid. If `now` has not passed the next grid point, that point;
/// otherwise the latest grid point not after `now`, so that a late worker ticks at once,
/// only once, and stays on the grid.
pub fn next_deadline(previous: u64, period: u64, now: u64) -> (r: u64)
    requires
        period >= 1,
        previous + period <= u64::MAX,
    ensures
        r > previous,
        (r - previous) % (period as int) == 0,
        now < previous + period ==> r == previous + period,
        now >= previous + period ==> r <= now && now - r < period,
{
    if now < previous + period {
        proof {
            vstd::arithmetic::div_mod::lemma_mod_self_0(period as int);
        }
        return previous + period;
    }
    let elapsed = now - previous;
    let steps = elapsed / period;
    proof {
        lemma_fundamental_div_mod(elapsed as int, period as int);
        assert(steps >= 1) by (nonlinear_arith)
            requires
                elapsed >= period,
                steps == elapsed / period,
                period >= 1,
        ;
        vstd::arithmetic::div_mod::lemma_mod_multiples_basic(steps as int, period as int);
    }
    previous + steps * period
}

} // verus!
