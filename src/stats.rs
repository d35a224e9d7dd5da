use vstd::arithmetic::div_mod::lemma_add_mod_noop;
use vstd::prelude::*;

verus! {

/// Number of per-queue counters of a port.
pub const QUEUE_STAT_COUNTERS: usize = 16;

/// Number of port slots in the shared statistics.
pub const MAX_PORTS: usize = 32;

/// Number of 64-bit counters of one port: eight totals and five queue arrays.
pub const PORT_COUNTERS: usize = 88;

/// A 64-bit counter wraps at this value.
pub open spec fn counter_modulus() -> int {
    0x1_0000_0000_0000_0000
}

/// `a - b`, clamped at zero.
pub open spec fn sat_sub(a: u64, b: u64) -> u64 {
    if a >= b {
        (a - b) as u64
    } else {
        0
    }
}

/// `a + b`, wrapped around at 2^64.
pub open spec fn wrap_add(a: u64, b: u64) -> u64 {
    ((a + b) % counter_modulus()) as u64
}

/// Sum of counter `i` over `ports`, without wrapping.
pub open spec fn column_sum(ports: Seq<PortStats>, i: int) -> int
    decreases ports.len(),
{
    if ports.len() == 0 {
        0
    } else {
        column_sum(ports.drop_last(), i) + ports.last().counters()[i]
    }
}

/// Every counter summed over `ports`, wrapped around at 2^64.
pub open spec fn wrapped_sums(ports: Seq<PortStats>) -> Seq<u64> {
    Seq::new(PORT_COUNTERS as nat, |i: int| (column_sum(ports, i) % counter_modulus()) as u64)
}

/// The ports whose slot holds an address, in slot order.
pub open spec fn active(ports: Seq<PortStats>) -> Seq<PortStats>
    decreases ports.len(),
{
    if ports.len() == 0 {
        seq![]
    } else {
        let rest = active(ports.drop_last());
        if ports.last().mac_addr.spec_is_nil() {
            rest
        } else {
            rest.push(ports.last())
        }
    }
}

pub open spec fn sat_sub_seq(a: Seq<u64>, b: Seq<u64>) -> Seq<u64> {
    Seq::new(a.len(), |i: int| sat_sub(a[i], b[i]))
}

pub open spec fn wrap_add_seq(a: Seq<u64>, b: Seq<u64>) -> Seq<u64> {
    Seq::new(a.len(), |i: int| wrap_add(a[i], b[i]))
}

/// A hardware address of six bytes.
#[derive(Clone, Copy, Debug, PartialEq, Eq)]
pub struct MacAddr(pub [u8; 6]);

impl MacAddr {
    /// The all-zero address, which marks an empty port slot.
    pub open spec fn spec_is_nil(&self) -> bool {
        forall|i: int| 0 <= i < 6 ==> #[trigger] self.0@[i] == 0u8
    }

    pub open spec fn spec_is_broadcast(&self) -> bool {
        forall|i: int| 0 <= i < 6 ==> #[trigger] self.0@[i] == 0xffu8
    }

    pub fn nil() -> (r: MacAddr)
        ensures
            r.spec_is_nil(),
    {
        MacAddr([0u8; 6])
    }

    /// The all-ones address, which labels aggregated rows.
    pub fn broadcast() -> (r: MacAddr)
        ensures
            r.spec_is_broadcast(),
    {
        MacAddr([0xffu8; 6])
    }

    pub fn is_nil(&self) -> (r: bool)
        ensures
            r == self.spec_is_nil(),
    {
        let mut i: usize = 0;
        while i < 6
            invariant
                0 <= i <= 6,
                forall|j: int| 0 <= j < i ==> #[trigger] self.0@[j] == 0u8,
            decreases 6 - i,
        {
            if self.0[i] != 0 {
                return false;
            }
            i += 1;
        }
        true
    }
}

/// Counters of one network port, as the producer publishes them.
#[derive(Clone, Copy, Debug)]
pub struct PortStats {
    pub mac_addr: MacAddr,
    /// Total number of successfully received packets.
    pub ipackets: u64,
    /// Total number of successfully transmitted packets.
    pub opackets: u64,
    /// Total number of successfully received bytes.
    pub ibytes: u64,
    /// Total number of successfully transmitted bytes.
    pub obytes: u64,
    /// Total of received packets dropped by the hardware because no buffer was free.
    pub imissed: u64,
    /// Total number of erroneous received packets.
    pub ierrors: u64,
    /// Total number of failed transmitted packets.
    pub oerrors: u64,
    /// Total number of receive buffer allocation failures.
    pub rx_nombuf: u64,
    /// Received packets per queue.
    pub q_ipackets: [u64; QUEUE_STAT_COUNTERS],
    /// Transmitted packets per queue.
    pub q_opackets: [u64; QUEUE_STAT_COUNTERS],
    /// Received bytes per queue.
    pub q_ibytes: [u64; QUEUE_STAT_COUNTERS],
    /// Transmitted bytes per queue.
    pub q_obytes: [u64; QUEUE_STAT_COUNTERS],
    /// Dropped received packets per queue.
    pub q_errors: [u64; QUEUE_STAT_COUNTERS],
}

/// Element-wise `a - b`, clamped at zero.
fn sub_queues(a: &[u64; QUEUE_STAT_COUNTERS], b: &[u64; QUEUE_STAT_COUNTERS]) -> (r: [u64;
    QUEUE_STAT_COUNTERS])
    ensures
        r@ == sat_sub_seq(a@, b@),
{
    let mut r = [0u64; QUEUE_STAT_COUNTERS];
    let mut i: usize = 0;
    while i < QUEUE_STAT_COUNTERS
        invariant
            0 <= i <= QUEUE_STAT_COUNTERS,
            forall|j: int| 0 <= j < i ==> #[trigger] r@[j] == sat_sub(a@[j], b@[j]),
        decreases QUEUE_STAT_COUNTERS - i,
    {
        r[i] = a[i].saturating_sub(b[i]);
        i += 1;
    }
    assert(r@ =~= sat_sub_seq(a@, b@));
    r
}

fn add_wrapping(a: u64, b: u64) -> (r: u64)
    ensures
        r == wrap_add(a, b),
{
    a.wrapping_add(b)
}

/// Element-wise `a + b`, wrapped around at 2^64.
fn add_queues(a: &[u64; QUEUE_STAT_COUNTERS], b: &[u64; QUEUE_STAT_COUNTERS]) -> (r: [u64;
    QUEUE_STAT_COUNTERS])
    ensures
        r@ == wrap_add_seq(a@, b@),
{
    let mut r = [0u64; QUEUE_STAT_COUNTERS];
    let mut i: usize = 0;
    while i < QUEUE_STAT_COUNTERS
        invariant
            0 <= i <= QUEUE_STAT_COUNTERS,
            forall|j: int| 0 <= j < i ==> #[trigger] r@[j] == wrap_add(a@[j], b@[j]),
        decreases QUEUE_STAT_COUNTERS - i,
    {
        r[i] = add_wrapping(a[i], b[i]);
        i += 1;
    }
    assert(r@ =~= wrap_add_seq(a@, b@));
    r
}

impl PortStats {
    /// All counters in their memory order: the eight totals, then the queue arrays.
    pub open spec fn counters(&self) -> Seq<u64> {
        seq![
            self.ipackets,
            self.opackets,
            self.ibytes,
            self.obytes,
            self.imissed,
            self.ierrors,
            self.oerrors,
            self.rx_nombuf,
        ] + self.q_ipackets@ + self.q_opackets@ + self.q_ibytes@ + self.q_obytes@
            + self.q_errors@
    }

    /// Field-wise `self - rhs`, clamped at zero; the address is kept.
    pub fn saturating_sub(&self, rhs: &PortStats) -> (r: PortStats)
        ensures
            r.mac_addr == self.mac_addr,
            r.counters() == sat_sub_seq(self.counters(), rhs.counters()),
    {
        let r = PortStats {
            mac_addr: self.mac_addr,
            ipackets: self.ipackets.saturating_sub(rhs.ipackets),
            opackets: self.opackets.saturating_sub(rhs.opackets),
            ibytes: self.ibytes.saturating_sub(rhs.ibytes),
            obytes: self.obytes.saturating_sub(rhs.obytes),
            imissed: self.imissed.saturating_sub(rhs.imissed),
            ierrors: self.ierrors.saturating_sub(rhs.ierrors),
            oerrors: self.oerrors.saturating_sub(rhs.oerrors),
            rx_nombuf: self.rx_nombuf.saturating_sub(rhs.rx_nombuf),
            q_ipackets: sub_queues(&self.q_ipackets, &rhs.q_ipackets),
            q_opackets: sub_queues(&self.q_opackets, &rhs.q_opackets),
            q_ibytes: sub_queues(&self.q_ibytes, &rhs.q_ibytes),
            q_obytes: sub_queues(&self.q_obytes, &rhs.q_obytes),
            q_errors: sub_queues(&self.q_errors, &rhs.q_errors),
        };
        assert(r.counters() =~= sat_sub_seq(self.counters(), rhs.counters()));
        r
    }

    /// Field-wise `self + rhs`, wrapped around at 2^64; the address of `self` is kept.
    pub fn add(&self, rhs: &PortStats) -> (r: PortStats)
        ensures
            r.mac_addr == self.mac_addr,
            r.counters() == wrap_add_seq(self.counters(), rhs.counters()),
    {
        let r = PortStats {
            mac_addr: self.mac_addr,
            ipackets: add_wrapping(self.ipackets, rhs.ipackets),
            opackets: add_wrapping(self.opackets, rhs.opackets),
            ibytes: add_wrapping(self.ibytes, rhs.ibytes),
            obytes: add_wrapping(self.obytes, rhs.obytes),
            imissed: add_wrapping(self.imissed, rhs.imissed),
            ierrors: add_wrapping(self.ierrors, rhs.ierrors),
            oerrors: add_wrapping(self.oerrors, rhs.oerrors),
            rx_nombuf: add_wrapping(self.rx_nombuf, rhs.rx_nombuf),
            q_ipackets: add_queues(&self.q_ipackets, &rhs.q_ipackets),
            q_opackets: add_queues(&self.q_opackets, &rhs.q_opackets),
            q_ibytes: add_queues(&self.q_ibytes, &rhs.q_ibytes),
            q_obytes: add_queues(&self.q_obytes, &rhs.q_obytes),
            q_errors: add_queues(&self.q_errors, &rhs.q_errors),
        };
        assert(r.counters() =~= wrap_add_seq(self.counters(), rhs.counters()));
        r
    }
}

impl Default for PortStats {
    /// A nil address and all counters zero.
    fn default() -> (r: PortStats)
        ensures
            r.mac_addr.spec_is_nil(),
            r.counters() == Seq::new(PORT_COUNTERS as nat, |i: int| 0u64),
    {
        let r = PortStats {
            mac_addr: MacAddr::nil(),
            ipackets: 0,
            opackets: 0,
            ibytes: 0,
            obytes: 0,
            imissed: 0,
            ierrors: 0,
            oerrors: 0,
            rx_nombuf: 0,
            q_ipackets: [0u64; QUEUE_STAT_COUNTERS],
            q_opackets: [0u64; QUEUE_STAT_COUNTERS],
            q_ibytes: [0u64; QUEUE_STAT_COUNTERS],
            q_obytes: [0u64; QUEUE_STAT_COUNTERS],
            q_errors: [0u64; QUEUE_STAT_COUNTERS],
        };
        assert(r.counters() =~= Seq::new(PORT_COUNTERS as nat, |i: int| 0u64));
        r
    }
}

impl PortStats {
    /// Adds up `ports`, starting from a nil address and zero counters.
    pub fn sum(ports: &[PortStats]) -> (r: PortStats)
        ensures
            r.mac_addr.spec_is_nil(),
            r.counters() == wrapped_sums(ports@),
    {
        let mut acc = PortStats::default();
        proof {
            assert(ports@.take(0) =~= Seq::<PortStats>::empty());
            assert(acc.counters() =~= wrapped_sums(ports@.take(0)));
        }
        let mut k: usize = 0;
        while k < ports.len()
            invariant
                0 <= k <= ports@.len(),
                acc.mac_addr.spec_is_nil(),
                acc.counters() == wrapped_sums(ports@.take(k as int)),
            decreases ports@.len() - k,
        {
            let next = acc.add(&ports[k]);
            proof {
                let before = ports@.take(k as int);
                let after = ports@.take(k + 1);
                assert(after.drop_last() =~= before);
                assert forall|i: int| 0 <= i < PORT_COUNTERS implies #[trigger] next.counters()[i]
                    == wrapped_sums(after)[i] by {
                    lemma_add_mod_noop(column_sum(before, i), ports@[k as int].counters()[i] as int,
                        counter_modulus());
                    assert(0 <= ports@[k as int].counters()[i] < counter_modulus());
                }
                assert(next.counters() =~= wrapped_sums(after));
            }
            acc = next;
            k += 1;
        }
        assert(ports@.take(ports@.len() as int) =~= ports@);
        acc
    }
}

/// The port slots shared by the producer.
#[derive(Clone, Copy, Debug)]
pub struct Statistics {
    pub port_stats: [PortStats; MAX_PORTS],
}

impl Statistics {
    /// Slot-wise `self - rhs`, each counter clamped at zero; addresses are those of `self`.
    pub fn saturating_sub(&self, rhs: &Statistics) -> (r: Statistics)
        ensures
            forall|k: int|
                0 <= k < MAX_PORTS ==> (#[trigger] r.port_stats@[k]).mac_addr
                    == self.port_stats@[k].mac_addr && r.port_stats@[k].counters()
                    == sat_sub_seq(self.port_stats@[k].counters(), rhs.port_stats@[k].counters()),
    {
        let mut port_stats = self.port_stats;
        let mut k: usize = 0;
        while k < MAX_PORTS
            invariant
                0 <= k <= MAX_PORTS,
                forall|j: int|
                    0 <= j < k ==> (#[trigger] port_stats@[j]).mac_addr
                        == self.port_stats@[j].mac_addr && port_stats@[j].counters()
                        == sat_sub_seq(
                        self.port_stats@[j].counters(),
                        rhs.port_stats@[j].counters(),
                    ),
            decreases MAX_PORTS - k,
        {
            port_stats[k] = self.port_stats[k].saturating_sub(&rhs.port_stats[k]);
            k += 1;
        }
        Statistics { port_stats }
    }

    /// The ports whose slot holds an address, in slot order.
    pub fn active_ports(&self) -> (r: Vec<PortStats>)
        ensures
            r@ == active(self.port_stats@),
    {
        let mut r: Vec<PortStats> = Vec::new();
        let mut k: usize = 0;
        while k < MAX_PORTS
            invariant
                0 <= k <= MAX_PORTS,
                r@ == active(self.port_stats@.take(k as int)),
            decreases MAX_PORTS - k,
        {
            proof {
                assert(self.port_stats@.take(k + 1).drop_last() =~= self.port_stats@.take(
                    k as int,
                ));
            }
            if !self.port_stats[k].mac_addr.is_nil() {
                r.push(self.port_stats[k]);
            }
            k += 1;
        }
        assert(self.port_stats@.take(MAX_PORTS as int) =~= self.port_stats@);
        r
    }

    /// The aggregate of the active ports, labelled with the broadcast address.
    pub fn total(&self) -> (r: PortStats)
        ensures
            r.mac_addr.spec_is_broadcast(),
            r.counters() == wrapped_sums(active(self.port_stats@)),
    {
        let ports = self.active_ports();
        let mut r = PortStats::sum(ports.as_slice());
        r.mac_addr = MacAddr::broadcast();
        r
    }
}

} // verus!
