//! A weighted random choice among the things a room can spawn.
use vstd::prelude::*;
use crate::rng::Rng;

verus! {

/// Everything the spawn tables can place in a room.
#[derive(Clone, Copy, PartialEq, Eq, Structural, Debug)]
pub enum SpawnKind {
    Goblin,
    Orc,
    HealthPotion,
    FireballScroll,
    ConfusionScroll,
    MagicMissileScroll,
    Dagger,
    Shield,
    Longsword,
    TowerShield,
}

/// Spawn candidates with relative weights; entries with a weight of zero
/// or less are never drawn.
pub struct WeightedTable {
    pub entries: Vec<(SpawnKind, i32)>,
}

/// The weight of an entry, counting non-positive weights as zero.
pub open spec fn entry_weight(e: (SpawnKind, i32)) -> int {
    if e.1 > 0 {
        e.1 as int
    } else {
        0
    }
}

/// The total positive weight of the first `n` entries.
pub open spec fn total_weight(entries: Seq<(SpawnKind, i32)>, n: int) -> int
    decreases n,
{
    if n <= 0 {
        0
    } else {
        total_weight(entries, n - 1) + entry_weight(entries[n - 1])
    }
}

proof fn lemma_total_weight_nonneg(entries: Seq<(SpawnKind, i32)>, n: int)
    ensures
        total_weight(entries, n) >= 0,
    decreases n,
{
    if n > 0 {
        lemma_total_weight_nonneg(entries, n - 1);
    }
}

impl WeightedTable {
    /// The total positive weight over all entries.
    pub open spec fn spec_total(self) -> int {
        total_weight(self.entries@, self.entries@.len() as int)
    }

    pub fn new() -> (t: WeightedTable)
        ensures
            t.entries@ == Seq::<(SpawnKind, i32)>::empty(),
    {
        WeightedTable { entries: Vec::new() }
    }

    /// Adds one candidate; chains in builder style.
    pub fn add(self, kind: SpawnKind, weight: i32) -> (t: WeightedTable)
        ensures
            t.entries@ == self.entries@.push((kind, weight)),
    {
        let mut t = self;
        t.entries.push((kind, weight));
        t
    }

    /// Draws one candidate with probability proportional to its weight.
    /// Returns `None` exactly when no entry has positive weight.
    pub fn roll(&self, rng: &mut Rng) -> (r: Option<SpawnKind>)
        requires
            self.spec_total() <= i32::MAX,
        ensures
            (r is None) <==> self.spec_total() == 0,
            r matches Some(k) ==> exists|j: int|
                0 <= j < self.entries@.len() && (#[trigger] self.entries@[j]).0 == k
                    && self.entries@[j].1 > 0,
    {
        let n = self.entries.len();
        let mut total: i32 = 0;
        let mut i: usize = 0;
        while i < n
            invariant
                n == self.entries@.len(),
                i <= n,
                total == total_weight(self.entries@, i as int),
                self.spec_total() <= i32::MAX,
            decreases n - i,
        {
            proof {
                lemma_total_weight_prefix(self.entries@, i as int + 1, n as int);
                lemma_total_weight_nonneg(self.entries@, i as int);
            }
            let w = self.entries[i].1;
            if w > 0 {
                total = total + w;
            }
            i += 1;
        }
        if total == 0 {
            return None;
        }
        proof {
            lemma_total_weight_nonneg(self.entries@, n as int);
        }
        let mut draw = rng.range(0, total);
        let mut i: usize = 0;
        while i < n
            invariant
                n == self.entries@.len(),
                i <= n,
                total == self.spec_total(),
                0 <= draw,
                draw < total - total_weight(self.entries@, i as int),
            decreases n - i,
        {
            proof {
                lemma_total_weight_prefix(self.entries@, i as int + 1, n as int);
                lemma_total_weight_nonneg(self.entries@, i as int);
            }
            let (kind, w) = self.entries[i];
            if w > 0 {
                if draw < w {
                    return Some(kind);
                }
                draw = draw - w;
            }
            i += 1;
        }
        proof {
            assert(draw < total - total_weight(self.entries@, n as int));
            assert(false);
        }
        None
    }
}

/// The total weight of a prefix never exceeds the total of a longer one.
proof fn lemma_total_weight_prefix(entries: Seq<(SpawnKind, i32)>, m: int, n: int)
    requires
        m <= n,
    ensures
        total_weight(entries, m) <= total_weight(entries, n),
    decreases n - m,
{
    if m < n {
        lemma_total_weight_prefix(entries, m, n - 1);
    }
}

} // verus!
