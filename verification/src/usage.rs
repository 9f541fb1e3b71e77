//! Byte counts: the unit each view shows them in, the traffic of all network
//! interfaces together, and the space of the disks.

use vstd::prelude::*;

verus! {

/// A binary unit of bytes.
#[derive(Debug, Clone, Copy, PartialEq, Eq, Structural)]
pub enum ByteUnit {
    /// 2^10 bytes.
    KB,
    /// 2^20 bytes.
    MB,
    /// 2^30 bytes.
    GB,
    /// 2^40 bytes.
    TB,
}

impl ByteUnit {
    /// The unit's size as a power of two.
    pub open spec fn spec_shift(self) -> nat {
        match self {
            ByteUnit::KB => 10,
            ByteUnit::MB => 20,
            ByteUnit::GB => 30,
            ByteUnit::TB => 40,
        }
    }

    /// The unit's size as a power of two: the unit is `1 << shift` bytes.
    pub fn shift(&self) -> (r: u32)
        ensures
            r == self.spec_shift(),
    {
        match self {
            ByteUnit::KB => 10,
            ByteUnit::MB => 20,
            ByteUnit::GB => 30,
            ByteUnit::TB => 40,
        }
    }

    /// The unit's name as shown after a number.
    pub fn suffix(&self) -> (r: &'static str)
        ensures
            r@ == match self {
                ByteUnit::KB => "KB"@,
                ByteUnit::MB => "MB"@,
                ByteUnit::GB => "GB"@,
                ByteUnit::TB => "TB"@,
            },
    {
        match self {
            ByteUnit::KB => "KB",
            ByteUnit::MB => "MB",
            ByteUnit::GB => "GB",
            ByteUnit::TB => "TB",
        }
    }
}

/// 2^20.
pub const MIB: u64 = 1048576;
/// 2^30.
pub const GIB: u64 = 1073741824;
/// 2^40.
pub const TIB: u64 = 1099511627776;

/// The unit of the network totals: GB from one GB on, MB from one MB on,
/// KB below.
pub fn network_unit(bytes: u64) -> (r: ByteUnit)
    ensures
        r == if bytes >= GIB { ByteUnit::GB } else if bytes >= MIB { ByteUnit::MB } else { ByteUnit::KB },
{
    if bytes >= GIB {
        ByteUnit::GB
    } else if bytes >= MIB {
        ByteUnit::MB
    } else {
        ByteUnit::KB
    }
}

/// The unit of disk sizes: TB from one TB on, GB below.
pub fn disk_unit(bytes: u64) -> (r: ByteUnit)
    ensures
        r == if bytes >= TIB { ByteUnit::TB } else { ByteUnit::GB },
{
    if bytes >= TIB {
        ByteUnit::TB
    } else {
        ByteUnit::GB
    }
}

/// The unit of a process's memory: GB from one GB on, MB below.
pub fn process_memory_unit(bytes: u64) -> (r: ByteUnit)
    ensures
        r == if bytes >= GIB { ByteUnit::GB } else { ByteUnit::MB },
{
    if bytes >= GIB {
        ByteUnit::GB
    } else {
        ByteUnit::MB
    }
}

/// What the views read of one network interface.
pub struct InterfaceTraffic {
    /// Bytes received since the interface came up.
    pub received: u64,
    /// Bytes sent since the interface came up.
    pub transmitted: u64,
}

/// Bytes received by all interfaces together.
pub open spec fn total_received(s: Seq<InterfaceTraffic>) -> nat
    decreases s.len(),
{
    if s.len() == 0 { 0 } else { total_received(s.drop_last()) + s.last().received as nat }
}

/// Bytes sent by all interfaces together.
pub open spec fn total_transmitted(s: Seq<InterfaceTraffic>) -> nat
    decreases s.len(),
{
    if s.len() == 0 { 0 } else { total_transmitted(s.drop_last()) + s.last().transmitted as nat }
}

proof fn lemma_traffic_monotone(s: Seq<InterfaceTraffic>, i: int, j: int)
    requires
        0 <= i <= j <= s.len(),
    ensures
        total_received(s.take(i)) <= total_received(s.take(j)),
        total_transmitted(s.take(i)) <= total_transmitted(s.take(j)),
    decreases j - i,
{
    if i < j {
        lemma_traffic_monotone(s, i, j - 1);
        assert(s.take(j).drop_last() =~= s.take(j - 1));
    }
}

/// The traffic of all interfaces together, (received, sent); none when a
/// total does not fit in 64 bits, where the sum overflows.
pub fn network_totals(interfaces: &Vec<InterfaceTraffic>) -> (r: Option<(u64, u64)>)
    ensures
        match r {
            Some((rx, tx)) => rx == total_received(interfaces@) && tx == total_transmitted(interfaces@),
            None => total_received(interfaces@) > u64::MAX || total_transmitted(interfaces@) > u64::MAX,
        },
{
    let ghost s = interfaces@;
    let mut rx: u64 = 0;
    let mut tx: u64 = 0;
    let mut i: usize = 0;
    while i < interfaces.len()
        invariant
            s == interfaces@,
            i <= s.len(),
            rx == total_received(s.take(i as int)),
            tx == total_transmitted(s.take(i as int)),
        decreases s.len() - i,
    {
        assert(s.take(i + 1).drop_last() =~= s.take(i as int));
        let it = &interfaces[i];
        if rx > u64::MAX - it.received || tx > u64::MAX - it.transmitted {
            proof {
                lemma_traffic_monotone(s, i + 1, s.len() as int);
                assert(s.take(s.len() as int) =~= s);
            }
            return None;
        }
        rx = rx + it.received;
        tx = tx + it.transmitted;
        i = i + 1;
    }
    assert(s.take(s.len() as int) =~= s);
    Some((rx, tx))
}

/// What the views read of one disk.
pub struct DiskSpace {
    /// The disk's size, in bytes.
    pub total: u64,
    /// The bytes available on it.
    pub available: u64,
}

impl DiskSpace {
    /// The bytes in use: size less available space, or 0 when more space is
    /// reported available than the disk has.
    pub fn used(&self) -> (r: u64)
        ensures
            r == if self.available <= self.total { (self.total - self.available) as u64 } else { 0 },
    {
        self.total.saturating_sub(self.available)
    }
}

/// The size of all disks together.
pub open spec fn total_space(s: Seq<DiskSpace>) -> nat
    decreases s.len(),
{
    if s.len() == 0 { 0 } else { total_space(s.drop_last()) + s.last().total as nat }
}

/// The space in use on all disks together, each disk's size less its
/// available space.
pub open spec fn total_used(s: Seq<DiskSpace>) -> int
    decreases s.len(),
{
    if s.len() == 0 { 0 } else { total_used(s.drop_last()) + (s.last().total - s.last().available) }
}

/// Whether no disk reports more space available than it has.
pub open spec fn available_within_size(s: Seq<DiskSpace>) -> bool {
    forall|k: int| 0 <= k < s.len() ==> (#[trigger] s[k]).available <= s[k].total
}

proof fn lemma_space_monotone(s: Seq<DiskSpace>, i: int, j: int)
    requires
        0 <= i <= j <= s.len(),
        available_within_size(s),
    ensures
        total_space(s.take(i)) <= total_space(s.take(j)),
        total_used(s.take(i)) <= total_used(s.take(j)),
    decreases j - i,
{
    if i < j {
        lemma_space_monotone(s, i, j - 1);
        assert(s.take(j).drop_last() =~= s.take(j - 1));
        assert(s.take(j).last() == s[j - 1]);
    }
}

/// The space of all disks together, (size, used), as the overview sums it;
/// none where that sum fails: a disk reports more space available than it
/// has, or a total does not fit in 64 bits.
pub fn disk_totals(disks: &Vec<DiskSpace>) -> (r: Option<(u64, u64)>)
    ensures
        match r {
            Some((total, used)) => {
                &&& available_within_size(disks@)
                &&& total == total_space(disks@)
                &&& used == total_used(disks@)
            },
            None => !available_within_size(disks@) || total_space(disks@) > u64::MAX
                || total_used(disks@) > u64::MAX,
        },
{
    let ghost s = disks@;
    let mut total: u64 = 0;
    let mut used: u64 = 0;
    let mut i: usize = 0;
    while i < disks.len()
        invariant
            s == disks@,
            i <= s.len(),
            forall|k: int| 0 <= k < i ==> (#[trigger] s[k]).available <= s[k].total,
            total == total_space(s.take(i as int)),
            used == total_used(s.take(i as int)),
        decreases s.len() - i,
    {
        assert(s.take(i + 1).drop_last() =~= s.take(i as int));
        let d = &disks[i];
        if d.available > d.total {
            return None;
        }
        if total > u64::MAX - d.total || used > u64::MAX - (d.total - d.available) {
            proof {
                if available_within_size(s) {
                    lemma_space_monotone(s, i + 1, s.len() as int);
                    assert(s.take(s.len() as int) =~= s);
                }
            }
            return None;
        }
        total = total + d.total;
        used = used + (d.total - d.available);
        i = i + 1;
    }
    assert(s.take(s.len() as int) =~= s);
    Some((total, used))
}

} // verus!
