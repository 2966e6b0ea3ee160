//! Running statistics of a metric and the node's lifecycle status.
use vstd::prelude::*;

verus! {

/// Lifecycle state of the monitored node.
#[derive(Clone, Copy, PartialEq, Eq, Structural, Debug)]
pub enum NodeStatus {
    Started,
    Connecting,
    Connected,
    Stopped,
}

/// Display text of a status.
pub open spec fn status_text(s: NodeStatus) -> Seq<char> {
    match s {
        NodeStatus::Connecting => "Connecting"@,
        NodeStatus::Connected => "Connected"@,
        NodeStatus::Stopped => "Stopped"@,
        NodeStatus::Started => "Started"@,
    }
}

pub fn node_status_as_string(node_status: &NodeStatus) -> (r: String)
    ensures
        r@ == status_text(*node_status),
{
    match node_status {
        NodeStatus::Connecting => "Connecting".to_owned(),
        NodeStatus::Connected => "Connected".to_owned(),
        NodeStatus::Stopped => "Stopped".to_owned(),
        NodeStatus::Started => "Started".to_owned(),
    }
}

/// Count, total, minimum, truncated mean, maximum and latest of a stream of samples.
#[derive(Clone, Copy, PartialEq, Eq, Structural, Debug)]
pub struct MmmStat {
    pub sample_count: u64,
    pub most_recent: u64,
    pub total: u128,
    pub min: u64,
    pub mean: u64,
    pub max: u64,
}

impl MmmStat {
    /// No samples yet: `min` holds `u64::MAX`, the rest zero; otherwise every sample lies
    /// between `min` and `max` and `mean` is the truncated average.
    pub open spec fn wf(&self) -> bool {
        if self.sample_count == 0 {
            &&& self.total == 0
            &&& self.min == u64::MAX
            &&& self.mean == 0
            &&& self.max == 0
        } else {
            &&& self.min <= self.max
            &&& self.sample_count * self.min <= self.total <= self.sample_count * self.max
            &&& self.mean as int == (self.total as int) / (self.sample_count as int)
        }
    }

    /// The statistics after one more sample `v`; a stream that already counts `u64::MAX`
    /// samples only takes `v` as its latest value.
    pub open spec fn with_sample(self, v: u64) -> MmmStat {
        if self.sample_count == u64::MAX {
            MmmStat { most_recent: v, ..self }
        } else {
            MmmStat {
                sample_count: (self.sample_count + 1) as u64,
                most_recent: v,
                total: (self.total + v) as u128,
                min: if v < self.min { v } else { self.min },
                mean: ((self.total + v) as int / (self.sample_count + 1) as int) as u64,
                max: if v > self.max { v } else { self.max },
            }
        }
    }

    pub fn new() -> (r: MmmStat)
        ensures
            r.wf(),
            r == (MmmStat { sample_count: 0, most_recent: 0, total: 0, min: u64::MAX, mean: 0, max: 0 }),
    {
        MmmStat { sample_count: 0, most_recent: 0, total: 0, min: u64::MAX, mean: 0, max: 0 }
    }

    pub fn add_sample(&mut self, value: u64)
        requires
            old(self).wf(),
        ensures
            final(self).wf(),
            *final(self) == old(self).with_sample(value),
    {
        self.most_recent = value;
        if self.sample_count == u64::MAX {
            return;
        }
        let ghost c = self.sample_count as int;
        let ghost t = self.total as int;
        let ghost m = self.min as int;
        let ghost mx = self.max as int;
        let new_min = if value < self.min { value } else { self.min };
        let new_max = if value > self.max { value } else { self.max };
        proof {
            assert(t <= c * (u64::MAX as int)) by (nonlinear_arith)
                requires
                    t <= c * mx,
                    mx <= u64::MAX,
                    c >= 0,
            ;
            assert(c * (u64::MAX as int) + u64::MAX <= u128::MAX) by (nonlinear_arith)
                requires
                    0 <= c < u64::MAX,
            ;
            assert((c + 1) * (new_min as int) <= t + value) by (nonlinear_arith)
                requires
                    c * m <= t,
                    new_min <= m,
                    new_min <= value,
                    c >= 0,
            ;
            assert(t + value <= (c + 1) * (new_max as int)) by (nonlinear_arith)
                requires
                    t <= c * mx,
                    mx <= new_max,
                    value <= new_max,
                    c >= 0,
            ;
        }
        let count = self.sample_count + 1;
        let total = self.total + value as u128;
        proof {
            assert((total as int) / (count as int) <= new_max as int) by {
                vstd::arithmetic::div_mod::lemma_div_is_ordered(total as int, (count as int) * (new_max as int), count as int);
                vstd::arithmetic::div_mod::lemma_div_multiples_vanish(new_max as int, count as int);
            }
        }
        self.sample_count = count;
        self.total = total;
        self.mean = (total / (count as u128)) as u64;
        self.min = new_min;
        self.max = new_max;
    }
}

} // verus!
