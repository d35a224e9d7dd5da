use crate::stats::{
    column_sum, counter_modulus, sat_sub_seq, wrapped_sums, MacAddr, PortStats, Statistics,
    MAX_PORTS, PORT_COUNTERS,
};
use vstd::prelude::*;

verus! {

/// The `(current, diff)` pairs of the slots where `current` holds an address, in slot order.
pub open spec fn active_pairs(current: Seq<PortStats>, diff: Seq<PortStats>) -> Seq<
    (PortStats, PortStats),
>
    decreases current.len(),
{
    if current.len() == 0 {
        seq![]
    } else {
        let n = current.len() - 1;
        let rest = active_pairs(current.take(n), diff.take(n));
        if current[n].mac_addr.spec_is_nil() {
            rest
        } else {
            rest.push((current[n], diff[n]))
        }
    }
}

/// Sum of `diff`'s counter `i` over the slots where `current` holds an address.
pub open spec fn active_column_sum(current: Seq<PortStats>, diff: Seq<PortStats>, i: int) -> int
    decreases current.len(),
{
    if current.len() == 0 {
        0
    } else {
        let n = current.len() - 1;
        active_column_sum(current.take(n), diff.take(n), i) + if current[n].mac_addr.spec_is_nil() {
            0
        } else {
            diff[n].counters()[i] as int
        }
    }
}

pub open spec fn firsts(rows: Seq<(PortStats, PortStats)>) -> Seq<PortStats> {
    rows.map_values(|p: (PortStats, PortStats)| p.0)
}

pub open spec fn seconds(rows: Seq<(PortStats, PortStats)>) -> Seq<PortStats> {
    rows.map_values(|p: (PortStats, PortStats)| p.1)
}

/// `diff` is the diff of `current` against itself: the addresses of `current`, every
/// counter zero.
pub open spec fn is_zero_diff(diff: Statistics, current: Statistics) -> bool {
    forall|k: int|
        0 <= k < MAX_PORTS ==> (#[trigger] diff.port_stats@[k]).mac_addr
            == current.port_stats@[k].mac_addr && diff.port_stats@[k].counters() == Seq::new(
            PORT_COUNTERS as nat,
            |i: int| 0u64,
        )
}

/// `diff` is `current - previous` slot by slot, each counter clamped at zero.
pub open spec fn is_diff(diff: Statistics, current: Statistics, previous: Statistics) -> bool {
    forall|k: int|
        0 <= k < MAX_PORTS ==> (#[trigger] diff.port_stats@[k]).mac_addr
            == current.port_stats@[k].mac_addr && diff.port_stats@[k].counters() == sat_sub_seq(
            current.port_stats@[k].counters(),
            previous.port_stats@[k].counters(),
        )
}

/// Keeps the last snapshot of the shared counters and the clamped diff against the one
/// before it, which is the rate per tick.
#[derive(Clone, Copy, Debug)]
pub struct StatsDiffEngine {
    /// The snapshot taken at the last tick.
    pub current: Statistics,
    /// `current` minus the snapshot before it, each counter clamped at zero.
    pub diff: Statistics,
}

impl StatsDiffEngine {
    /// Starts from `current`, with a diff of zero so that the first rates read zero.
    pub fn new(current: &Statistics) -> (r: StatsDiffEngine)
        ensures
            r.current == *current,
            is_zero_diff(r.diff, *current),
    {
        let diff = current.saturating_sub(current);
        proof {
            assert forall|k: int| 0 <= k < MAX_PORTS implies (#[trigger] diff.port_stats@[k]).counters()
                == Seq::new(PORT_COUNTERS as nat, |i: int| 0u64) by {
                assert(diff.port_stats@[k].counters() =~= Seq::new(
                    PORT_COUNTERS as nat,
                    |i: int| 0u64,
                ));
            }
        }
        StatsDiffEngine { current: *current, diff }
    }

    /// Takes a new snapshot: the diff becomes `current` minus the previous snapshot.
    pub fn tick(&mut self, current: &Statistics)
        ensures
            final(self).current == *current,
            is_diff(final(self).diff, *current, old(self).current),
    {
        self.diff = current.saturating_sub(&self.current);
        self.current = *current;
    }

    /// The `(current, diff)` pairs of the active ports, in slot order.
    pub fn rows(&self) -> (r: Vec<(PortStats, PortStats)>)
        ensures
            r@ == active_pairs(self.current.port_stats@, self.diff.port_stats@),
    {
        let mut r: Vec<(PortStats, PortStats)> = Vec::new();
        let mut k: usize = 0;
        while k < MAX_PORTS
            invariant
                0 <= k <= MAX_PORTS,
                r@ == active_pairs(
                    self.current.port_stats@.take(k as int),
                    self.diff.port_stats@.take(k as int),
                ),
            decreases MAX_PORTS - k,
        {
            proof {
                let (c, d) = (self.current.port_stats@, self.diff.port_stats@);
                assert(c.take(k + 1).take(k as int) =~= c.take(k as int));
                assert(d.take(k + 1).take(k as int) =~= d.take(k as int));
            }
            if !self.current.port_stats[k].mac_addr.is_nil() {
                r.push((self.current.port_stats[k], self.diff.port_stats[k]));
            }
            k += 1;
        }
        assert(self.current.port_stats@.take(MAX_PORTS as int) =~= self.current.port_stats@);
        assert(self.diff.port_stats@.take(MAX_PORTS as int) =~= self.diff.port_stats@);
        r
    }
}

/// The total row: the current values and the diffs summed over `rows`, both labelled with
/// the broadcast address.
pub fn totals(rows: &[(PortStats, PortStats)]) -> (r: (PortStats, PortStats))
    ensures
        r.0.mac_addr.spec_is_broadcast(),
        r.1.mac_addr.spec_is_broadcast(),
        r.0.counters() == wrapped_sums(firsts(rows@)),
        r.1.counters() == wrapped_sums(seconds(rows@)),
{
    let mut current: Vec<PortStats> = Vec::new();
    let mut diff: Vec<PortStats> = Vec::new();
    let mut k: usize = 0;
    while k < rows.len()
        invariant
            0 <= k <= rows@.len(),
            current@ == firsts(rows@.take(k as int)),
            diff@ == seconds(rows@.take(k as int)),
        decreases rows@.len() - k,
    {
        current.push(rows[k].0);
        diff.push(rows[k].1);
        k += 1;
        assert(current@ =~= firsts(rows@.take(k as int)));
        assert(diff@ =~= seconds(rows@.take(k as int)));
    }
    assert(rows@.take(rows@.len() as int) =~= rows@);
    let mut current_sum = PortStats::sum(current.as_slice());
    let mut diff_sum = PortStats::sum(diff.as_slice());
    current_sum.mac_addr = MacAddr::broadcast();
    diff_sum.mac_addr = MacAddr::broadcast();
    (current_sum, diff_sum)
}

/// Summing the active rows adds up exactly the diffs of the slots that hold an address:
/// each counter of the total row is that sum, wrapped around at 2^64. This holds of the
/// per-queue counters as of the totals.
pub proof fn lemma_total_row_sums_active_diffs(current: Statistics, diff: Statistics)
    ensures
        forall|i: int|
            0 <= i < PORT_COUNTERS ==> #[trigger] wrapped_sums(
                seconds(active_pairs(current.port_stats@, diff.port_stats@)),
            )[i] == (active_column_sum(current.port_stats@, diff.port_stats@, i)
                % counter_modulus()) as u64,
{
    assert forall|i: int| 0 <= i < PORT_COUNTERS implies #[trigger] wrapped_sums(
        seconds(active_pairs(current.port_stats@, diff.port_stats@)),
    )[i] == (active_column_sum(current.port_stats@, diff.port_stats@, i)
        % counter_modulus()) as u64 by {
        lemma_active_column_sum(current.port_stats@, diff.port_stats@, i);
    }
}

proof fn lemma_active_column_sum(current: Seq<PortStats>, diff: Seq<PortStats>, i: int)
    requires
        current.len() == diff.len(),
    ensures
        column_sum(seconds(active_pairs(current, diff)), i) == active_column_sum(current, diff, i),
    decreases current.len(),
{
    if current.len() > 0 {
        let n = current.len() - 1;
        lemma_active_column_sum(current.take(n), diff.take(n), i);
        let rest = active_pairs(current.take(n), diff.take(n));
        if !current[n].mac_addr.spec_is_nil() {
            let pushed = rest.push((current[n], diff[n]));
            assert(seconds(pushed).drop_last() =~= seconds(rest));
        }
    }
}

} // verus!
