use vstd::prelude::*;

verus! {

/// Number of readings taken for one measurement.
pub const SAMPLE_COUNT: usize = 10;

/// Seconds to wait after each poll: the device does not refresh its reading faster.
pub const POLL_INTERVAL_SECS: u64 = 1;

/// A measurement in progress: the readings obtained so far, out of `count`.
pub struct Sampler {
    samples: Vec<u64>,
    count: usize,
}

/// What a measurement becomes after one poll.
pub enum Collect<E> {
    /// More readings are owed; poll again after the interval.
    Pending(Sampler),
    /// All readings were obtained, in the order of the polls.
    Complete(Vec<u64>),
    /// A poll failed: the measurement is over and its readings are dropped.
    Failed(E),
}

impl View for Sampler {
    type V = Seq<u64>;

    closed spec fn view(&self) -> Seq<u64> {
        self.samples@
    }
}

impl Sampler {
    /// How many readings the measurement takes.
    pub closed spec fn spec_count(&self) -> nat {
        self.count as nat
    }

    /// A measurement in progress always owes at least one more reading.
    pub open spec fn wf(&self) -> bool {
        self@.len() < self.spec_count()
    }

    /// A measurement of `count` readings, none taken yet.
    pub fn new(count: usize) -> (r: Sampler)
        requires
            count > 0,
        ensures
            r.wf(),
            r@ == Seq::<u64>::empty(),
            r.spec_count() == count,
    {
        Sampler { samples: Vec::new(), count }
    }

    /// Takes the outcome of the next poll. A reading is appended, and completes the
    /// measurement when it is the last one owed; a failure ends the measurement at
    /// once with that error, and the readings taken so far go with the sampler.
    pub fn observe<E>(self, outcome: Result<u64, E>) -> (r: Collect<E>)
        requires
            self.wf(),
        ensures
            match outcome {
                Err(e) => r == Collect::<E>::Failed(e),
                Ok(v) => if self@.len() + 1 == self.spec_count() {
                    r matches Collect::Complete(s) && s@ == self@.push(v)
                } else {
                    r matches Collect::Pending(p) && p.wf() && p@ == self@.push(v)
                        && p.spec_count() == self.spec_count()
                },
            },
    {
        match outcome {
            Err(e) => Collect::Failed(e),
            Ok(v) => {
                let mut samples = self.samples;
                samples.push(v);
                if samples.len() == self.count {
                    Collect::Complete(samples)
                } else {
                    Collect::Pending(Sampler { samples, count: self.count })
                }
            },
        }
    }

    /// Readings taken so far.
    pub fn taken(&self) -> (r: usize)
        ensures
            r == self@.len(),
    {
        self.samples.len()
    }

    /// Readings the measurement takes in all.
    pub fn count(&self) -> (r: usize)
        ensures
            r == self.spec_count(),
    {
        self.count
    }
}

} // verus!
