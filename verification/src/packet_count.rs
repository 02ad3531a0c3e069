//! Counting packets on all cores.
use vstd::prelude::*;

verus! {

/// What one worker has counted.
#[derive(Debug, Clone, Copy, PartialEq, Eq, Structural)]
pub struct PerCpuPacketCount {
    pub count: u64,
    pub bytes: u64,
}

impl Default for PerCpuPacketCount {
    fn default() -> (c: PerCpuPacketCount)
        ensures
            c == (PerCpuPacketCount { count: 0, bytes: 0 }),
    {
        PerCpuPacketCount { count: 0, bytes: 0 }
    }
}

/// Sum of the packets that workers have counted.
pub open spec fn total_count(c: Seq<PerCpuPacketCount>) -> nat
    decreases c.len(),
{
    if c.len() == 0 {
        0
    } else {
        total_count(c.drop_last()) + c.last().count as nat
    }
}

/// Sum of the bytes that workers have counted.
pub open spec fn total_bytes(c: Seq<PerCpuPacketCount>) -> nat
    decreases c.len(),
{
    if c.len() == 0 {
        0
    } else {
        total_bytes(c.drop_last()) + c.last().bytes as nat
    }
}

proof fn lemma_totals_grow(c: Seq<PerCpuPacketCount>, n: int)
    requires
        0 <= n <= c.len(),
    ensures
        total_count(c.take(n)) <= total_count(c),
        total_bytes(c.take(n)) <= total_bytes(c),
    decreases c.len() - n,
{
    if n < c.len() {
        lemma_totals_grow(c, n + 1);
        assert(c.take(n + 1).drop_last() =~= c.take(n));
    } else {
        assert(c.take(n) =~= c);
    }
}

/// What all workers have counted.
pub fn totals(c: &Vec<PerCpuPacketCount>) -> (t: PerCpuPacketCount)
    requires
        total_count(c@) <= u64::MAX,
        total_bytes(c@) <= u64::MAX,
    ensures
        t.count == total_count(c@),
        t.bytes == total_bytes(c@),
{
    let mut count: u64 = 0;
    let mut bytes: u64 = 0;
    let mut i: usize = 0;
    assert(c@.take(0).len() == 0);
    while i < c.len()
        invariant
            i <= c@.len(),
            total_count(c@) <= u64::MAX,
            total_bytes(c@) <= u64::MAX,
            count == total_count(c@.take(i as int)),
            bytes == total_bytes(c@.take(i as int)),
        decreases c@.len() - i,
    {
        proof {
            lemma_totals_grow(c@, i + 1);
            assert(c@.take(i + 1).drop_last() =~= c@.take(i as int));
        }
        count = count + c[i].count;
        bytes = bytes + c[i].bytes;
        i += 1;
    }
    assert(c@.take(i as int) =~= c@);
    PerCpuPacketCount { count, bytes }
}

/// By how much a count has grown.
pub open spec fn grown(now: nat, last: nat) -> nat {
    if now > last {
        (now - last) as nat
    } else {
        0
    }
}

/// What came in since the last time; nothing where the totals went down.
pub fn since(now: &PerCpuPacketCount, last: &PerCpuPacketCount) -> (d: PerCpuPacketCount)
    ensures
        d.count == grown(now.count as nat, last.count as nat),
        d.bytes == grown(now.bytes as nat, last.bytes as nat),
{
    PerCpuPacketCount {
        count: now.count.saturating_sub(last.count),
        bytes: now.bytes.saturating_sub(last.bytes),
    }
}

/// What several workers have counted is what some of them have and what the others have.
pub proof fn law_totals_add_up(a: Seq<PerCpuPacketCount>, b: Seq<PerCpuPacketCount>)
    ensures
        total_count(a + b) == total_count(a) + total_count(b),
        total_bytes(a + b) == total_bytes(a) + total_bytes(b),
        a.len() == 1 ==> total_count(a) == a[0].count && total_bytes(a) == a[0].bytes,
    decreases b.len(),
{
    if b.len() == 0 {
        assert(a + b =~= a);
    } else {
        assert((a + b).drop_last() =~= a + b.drop_last());
        law_totals_add_up(a, b.drop_last());
    }
    if a.len() == 1 {
        assert(total_count(a.drop_last()) == 0);
        assert(total_bytes(a.drop_last()) == 0);
    }
}

/// The growth makes up for what is missing to the new count, where there is more.
pub proof fn law_growth_makes_up(last: nat, more: nat)
    ensures
        grown(last + more, last) == more,
        grown(last, last + more) == 0,
{
}

} // verus!
