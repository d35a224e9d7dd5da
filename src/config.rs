use vstd::arithmetic::div_mod::{lemma_fundamental_div_mod, lemma_fundamental_div_mod_converse};
use vstd::prelude::*;

verus! {

/// How a worker turns its region into bytes on the wire.
#[derive(Clone, Copy, Debug, PartialEq, Eq, Structural)]
pub enum TransmitMode {
    /// `PX <x> <y> <rrggbb>\n` for every cell whose colour is set; sent cells are cleared.
    TextPixel,
    /// A ten byte `PB` frame for every cell that differs from the unset marker.
    BinaryPixel,
    /// `PXMULTI` frames carrying every cell of the region, every tick.
    BinarySync,
}

/// The options the streamer is started with.
#[derive(Clone, Debug)]
pub struct Args {
    /// Address of the canvas server.
    pub pixelflut_sink: String,
    /// Number of concurrent output workers.
    pub drawing_threads: u16,
    /// Ticks per second of each worker.
    pub fps: u32,
    /// Name of the shared memory region written by the producer.
    pub shared_memory_name: String,
    /// Wire format of every worker.
    pub transmit_mode: TransmitMode,
    /// Number of vertical column slices the framebuffer is cut into.
    pub x_shards: u16,
    /// The slice this process streams, counted from 1.
    pub x_shard: u16,
}

/// A configuration that is rejected before any streaming starts.
#[derive(Clone, Copy, Debug, PartialEq, Eq, Structural)]
pub enum ConfigError {
    /// The shared memory is shorter than the four header bytes.
    HeaderTooShort { len: usize },
    /// The header declares an empty framebuffer.
    EmptyFramebuffer { width: u16, height: u16 },
    /// The shared memory cannot hold the pixels and statistics the header declares.
    MemoryTooSmall { len: usize, needed: u64 },
    /// The shard number is not within `1..=x_shards`.
    ShardOutOfRange { x_shard: u16, x_shards: u16 },
    /// The width cannot be cut into `x_shards` equal slices.
    WidthNotDivisible { width: u16, x_shards: u16 },
    /// No worker was asked for.
    NoWorkers,
    /// A tick rate of zero.
    ZeroFps,
}

/// The framebuffer's size together with the column slice that is streamed.
#[derive(Clone, Copy, Debug, PartialEq, Eq, Structural)]
pub struct Geometry {
    pub width: u16,
    pub height: u16,
    pub x_shard: u16,
    pub x_shards: u16,
}

impl Geometry {
    /// A usable geometry: non-empty, with a shard that exists and equal slices.
    pub open spec fn wf(&self) -> bool {
        &&& self.width > 0
        &&& self.height > 0
        &&& 1 <= self.x_shard <= self.x_shards
        &&& self.width % self.x_shards == 0
    }

    pub open spec fn spec_shard_width(&self) -> int {
        (self.width / self.x_shards) as int
    }

    pub open spec fn spec_shard_start(&self) -> int {
        (self.x_shard - 1) * self.spec_shard_width()
    }

    /// Number of cells in the streamed slice.
    pub open spec fn spec_shard_cells(&self) -> int {
        self.spec_shard_width() * self.height as int
    }

    /// Number of cells in the whole framebuffer.
    pub open spec fn spec_cells(&self) -> int {
        self.width as int * self.height as int
    }

    /// Index in the framebuffer of the `i`-th cell of the slice, in row-major order.
    pub open spec fn spec_cell_index(&self, i: int) -> int {
        (i / self.spec_shard_width()) * self.width + self.spec_shard_start() + i
            % self.spec_shard_width()
    }

    /// Column of the `i`-th cell of the slice.
    pub open spec fn spec_cell_x(&self, i: int) -> int {
        self.spec_shard_start() + i % self.spec_shard_width()
    }

    /// Row of the `i`-th cell of the slice.
    pub open spec fn spec_cell_y(&self, i: int) -> int {
        i / self.spec_shard_width()
    }

    /// Whether framebuffer cell `j` lies in the streamed slice.
    pub open spec fn spec_in_slice(&self, j: int) -> bool {
        &&& 0 <= j < self.spec_cells()
        &&& self.spec_shard_start() <= j % (self.width as int) < self.spec_shard_start()
            + self.spec_shard_width()
    }

    /// Position within the slice of framebuffer cell `j`, in row-major order.
    pub open spec fn spec_local_index(&self, j: int) -> int {
        (j / (self.width as int)) * self.spec_shard_width() + (j % (self.width as int)
            - self.spec_shard_start())
    }

    /// The `i`-th cell of the slice is a framebuffer cell inside the slice, at column
    /// `spec_cell_x(i)` and row `spec_cell_y(i)`.
    pub proof fn lemma_cell_index(&self, i: int)
        requires
            self.wf(),
            0 <= i < self.spec_shard_cells(),
        ensures
            0 <= self.spec_cell_index(i) < self.spec_cells(),
            self.spec_in_slice(self.spec_cell_index(i)),
            self.spec_local_index(self.spec_cell_index(i)) == i,
            self.spec_cell_index(i) % (self.width as int) == self.spec_cell_x(i),
            self.spec_cell_index(i) / (self.width as int) == self.spec_cell_y(i),
            0 <= self.spec_cell_x(i) < self.width,
            0 <= self.spec_cell_y(i) < self.height,
    {
        self.lemma_shard_bounds();
        let (w, width, height, s0) = (
            self.spec_shard_width(),
            self.width as int,
            self.height as int,
            self.spec_shard_start(),
        );
        let (q, r) = (i / w, i % w);
        lemma_fundamental_div_mod(i, w);
        assert(0 <= q < height) by (nonlinear_arith)
            requires
                i == w * q + r,
                0 <= r < w,
                0 <= i < w * height,
        ;
        let j = self.spec_cell_index(i);
        assert(j == q * width + (s0 + r));
        lemma_fundamental_div_mod_converse(j, width, q, s0 + r);
        assert(0 <= j < width * height) by (nonlinear_arith)
            requires
                j == q * width + (s0 + r),
                0 <= s0 + r < width,
                0 <= q < height,
        ;
    }

    /// Every framebuffer cell inside the slice is the `i`-th cell of the slice for one `i`.
    pub proof fn lemma_local_index(&self, j: int)
        requires
            self.wf(),
            self.spec_in_slice(j),
        ensures
            0 <= self.spec_local_index(j) < self.spec_shard_cells(),
            self.spec_cell_index(self.spec_local_index(j)) == j,
    {
        self.lemma_shard_bounds();
        let (w, width, height, s0) = (
            self.spec_shard_width(),
            self.width as int,
            self.height as int,
            self.spec_shard_start(),
        );
        let (q, c) = (j / width, j % width - s0);
        lemma_fundamental_div_mod(j, width);
        assert(0 <= q < height) by (nonlinear_arith)
            requires
                j == width * q + (c + s0),
                0 <= c + s0 < width,
                0 <= j < width * height,
        ;
        let i = self.spec_local_index(j);
        assert(i == q * w + c);
        lemma_fundamental_div_mod_converse(i, w, q, c);
        assert(i / w == q && i % w == c);
        assert(self.spec_cell_index(i) == q * width + s0 + c);
        assert(width * q == q * width) by (nonlinear_arith);
        assert(0 <= i < w * height) by (nonlinear_arith)
            requires
                i == q * w + c,
                0 <= c < w,
                0 <= q < height,
        ;
    }

    /// Cells that follow each other within one row of the slice follow each other in the
    /// framebuffer too.
    pub proof fn lemma_same_row(&self, i: int, k: int)
        requires
            self.wf(),
            0 <= i,
            0 <= k,
            i % self.spec_shard_width() + k < self.spec_shard_width(),
        ensures
            self.spec_cell_index(i + k) == self.spec_cell_index(i) + k,
            self.spec_cell_y(i + k) == self.spec_cell_y(i),
    {
        self.lemma_shard_bounds();
        let w = self.spec_shard_width();
        lemma_fundamental_div_mod(i, w);
        lemma_fundamental_div_mod_converse(i + k, w, i / w, i % w + k);
    }

    /// Without sharding the slice is the whole framebuffer, in the same order.
    pub proof fn lemma_unsharded_index(&self, i: int)
        requires
            self.wf(),
            self.x_shards == 1,
            0 <= i,
        ensures
            self.spec_cell_index(i) == i,
    {
        self.lemma_shard_bounds();
        lemma_fundamental_div_mod(i, self.width as int);
    }

    /// The slice dimensions of a usable geometry.
    pub proof fn lemma_shard_bounds(&self)
        requires
            self.wf(),
        ensures
            self.spec_shard_width() * self.x_shards == self.width,
            1 <= self.spec_shard_width() <= self.width,
            0 <= self.spec_shard_start(),
            self.spec_shard_start() + self.spec_shard_width() <= self.width,
            self.spec_shard_cells() <= self.spec_cells(),
            self.spec_cells() <= 0xffff * 0xffff,
    {
        let (s, n, w) = (self.x_shard as int, self.x_shards as int, self.spec_shard_width());
        let (width, height) = (self.width as int, self.height as int);
        lemma_fundamental_div_mod(width, n);
        assert(w * n == width);
        assert(1 <= w <= width) by (nonlinear_arith)
            requires
                w * n == width,
                width > 0,
                n >= 1,
        ;
        assert(0 <= (s - 1) * w && (s - 1) * w + w <= width) by (nonlinear_arith)
            requires
                1 <= s <= n,
                1 <= w,
                w * n == width,
        ;
        assert(w * height <= width * height) by (nonlinear_arith)
            requires
                w <= width,
                0 <= height,
        ;
        assert(width * height <= 0xffff * 0xffff) by (nonlinear_arith)
            requires
                0 <= width <= 0xffff,
                0 <= height <= 0xffff,
        ;
    }

    /// Checks the framebuffer size and the shard parameters.
    pub fn new(width: u16, height: u16, x_shard: u16, x_shards: u16) -> (r: Result<
        Geometry,
        ConfigError,
    >)
        ensures
            (width == 0 || height == 0) ==> r == Err::<Geometry, ConfigError>(
                ConfigError::EmptyFramebuffer { width, height },
            ),
            (width > 0 && height > 0 && !(1 <= x_shard <= x_shards)) ==> r == Err::<
                Geometry,
                ConfigError,
            >(ConfigError::ShardOutOfRange { x_shard, x_shards }),
            (width > 0 && height > 0 && 1 <= x_shard <= x_shards && width % x_shards != 0)
                ==> r == Err::<Geometry, ConfigError>(
                ConfigError::WidthNotDivisible { width, x_shards },
            ),
            r is Ok <==> (Geometry { width, height, x_shard, x_shards }).wf(),
            r is Ok ==> r == Ok::<Geometry, ConfigError>(
                Geometry { width, height, x_shard, x_shards },
            ),
    {
        if width == 0 || height == 0 {
            return Err(ConfigError::EmptyFramebuffer { width, height });
        }
        if x_shard == 0 || x_shard > x_shards {
            return Err(ConfigError::ShardOutOfRange { x_shard, x_shards });
        }
        if width % x_shards != 0 {
            return Err(ConfigError::WidthNotDivisible { width, x_shards });
        }
        Ok(Geometry { width, height, x_shard, x_shards })
    }

    /// Width of the streamed slice.
    pub fn shard_width(&self) -> (r: u16)
        requires
            self.wf(),
        ensures
            r == self.spec_shard_width(),
            0 < r <= self.width,
    {
        proof {
            self.lemma_shard_bounds();
        }
        self.width / self.x_shards
    }

    /// First column of the streamed slice.
    pub fn shard_start(&self) -> (r: u16)
        requires
            self.wf(),
        ensures
            r == self.spec_shard_start(),
            r + self.spec_shard_width() <= self.width,
    {
        proof {
            self.lemma_shard_bounds();
        }
        let w = self.width / self.x_shards;
        (self.x_shard - 1) * w
    }

    /// Number of cells in the streamed slice.
    pub fn shard_cells(&self) -> (r: usize)
        requires
            self.wf(),
        ensures
            r == self.spec_shard_cells(),
            r <= self.spec_cells(),
    {
        proof {
            self.lemma_shard_bounds();
        }
        let w = self.width / self.x_shards;
        w as usize * self.height as usize
    }
}

} // verus!
