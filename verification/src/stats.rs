use vstd::prelude::*;

verus! {

/// One observation in a time series: the value `item` seen at `time`
/// (milliseconds since the Unix epoch).
#[derive(Clone, Copy, PartialEq, Eq, Structural, Debug)]
pub struct TimedStat {
    pub time: u64,
    pub item: u64,
}

/// A time series of values with their running maximum and minimum. A new
/// observation is recorded only when it differs from the last one.
#[derive(Clone)]
pub struct TimedStats {
    pub series: Vec<TimedStat>,
    pub max: u64,
    pub min: u64,
}

impl TimedStats {
    /// An empty series; the running maximum and minimum start at the
    /// extremes so that the first observation replaces both.
    pub fn new() -> (r: Self)
        ensures
            r.series@ == Seq::<TimedStat>::empty(),
            r.max == u64::MIN,
            r.min == u64::MAX,
    {
        TimedStats { series: Vec::new(), max: u64::MIN, min: u64::MAX }
    }

    /// Records `item` at `time` unless it repeats the last observation,
    /// and folds it into the running maximum and minimum.
    pub fn add(&mut self, time: u64, item: u64)
        ensures
            (old(self).series@.len() == 0 || old(self).series@.last().item != item) ==> (
            final(self).series@ == old(self).series@.push(TimedStat { time, item })
                && final(self).max == (if item > old(self).max {
                item
            } else {
                old(self).max
            }) && final(self).min == (if item < old(self).min {
                item
            } else {
                old(self).min
            })),
            !(old(self).series@.len() == 0 || old(self).series@.last().item != item)
                ==> *final(self) == *old(self),
    {
        if self.series.len() == 0 || self.series[self.series.len() - 1].item != item {
            self.series.push(TimedStat { time, item });
            if item > self.max {
                self.max = item;
            }
            if item < self.min {
                self.min = item;
            }
        }
    }

    /// Records `item` at the present time, as `add` does.
    pub fn add_now(&mut self, item: u64)
        ensures
            (old(self).series@.len() == 0 || old(self).series@.last().item != item) ==> (
            final(self).series@.len() == old(self).series@.len() + 1
                && final(self).series@.subrange(0, old(self).series@.len() as int) == old(
                self,
            ).series@ && final(self).series@.last().item == item && final(self).max == (if item
                > old(self).max {
                item
            } else {
                old(self).max
            }) && final(self).min == (if item < old(self).min {
                item
            } else {
                old(self).min
            })),
            !(old(self).series@.len() == 0 || old(self).series@.last().item != item)
                ==> *final(self) == *old(self),
    {
        let now = current_time_millis();
        let ghost before = self.series@;
        self.add(now, item);
        proof {
            if before.len() == 0 || before.last().item != item {
                assert(self.series@.subrange(0, before.len() as int) =~= before);
            }
        }
    }
}

/// Relies on std::time::SystemTime::now: the milliseconds elapsed since the
/// Unix epoch. The result depends on the clock, so nothing is promised of
/// it.
#[verifier::external_body]
fn current_time_millis() -> u64 {
    match std::time::SystemTime::now().duration_since(std::time::SystemTime::UNIX_EPOCH) {
        Ok(d) => d.as_millis() as u64,
        Err(_) => 0,
    }
}

} // verus!
