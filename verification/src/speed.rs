use vstd::prelude::*;

verus! {

/// The descending growth-ratio thresholds, in tenths: the next speed-up
/// fires once the snake's length reaches threshold/10 times the length at
/// the last level change.
pub open spec fn speed_thresholds() -> Seq<u32> {
    seq![40u32, 20u32, 16u32, 14u32, 12u32, 11u32, 11u32]
}

/// The tick-interval controller: a one-directional ratchet from the slowest
/// starting level down one level per consumed threshold, and never further.
#[derive(Debug)]
pub struct Speed {
    /// Snake length at the last level change.
    pub last_len: usize,
    /// Current tick-interval level: the snake moves once every `current`
    /// ticks, so smaller is faster.
    pub current: usize,
    /// The thresholds not yet consumed, in tenths.
    pub multiples: Vec<u32>,
}

impl Speed {
    /// The ratchet invariant: the remaining thresholds are a suffix of the
    /// configured list, and the level sits exactly one above the floor per
    /// remaining threshold.
    pub open spec fn wf(self) -> bool {
        &&& 1 <= self.last_len <= 0x7fff_ffff
        &&& self.multiples@.len() <= 7
        &&& self.current == 3 + self.multiples@.len()
        &&& self.multiples@ == speed_thresholds().skip(7 - self.multiples@.len())
    }

    /// Whether the first remaining threshold is reached: `len` has grown to
    /// at least threshold/10 times the reference length.
    pub open spec fn due(self, len: int) -> bool {
        self.multiples@.len() > 0 && 10 * len >= self.multiples@[0] * self.last_len
    }

    /// Starts at the slowest level with the full threshold list, taking the
    /// starting length as the first reference length.
    pub fn new(initial_len: usize) -> (s: Speed)
        requires
            1 <= initial_len <= 0x7fff_ffff,
        ensures
            s.wf(),
            s.last_len == initial_len,
            s.current == 10,
            s.multiples@ == speed_thresholds(),
    {
        let multiples: Vec<u32> = vec![40, 20, 16, 14, 12, 11, 11];
        proof {
            assert(multiples@ =~= speed_thresholds());
            assert(speed_thresholds().skip(0) =~= speed_thresholds());
        }
        Speed { last_len: initial_len, current: 10, multiples }
    }

    /// Compares the growth ratio against the first remaining threshold; when
    /// reached, drops the level by exactly one, consumes that threshold and
    /// resets the reference length to `len`. Otherwise nothing changes, and
    /// once the thresholds are exhausted the speed is fixed for good.
    pub fn adjust(&mut self, len: usize)
        requires
            old(self).wf(),
            1 <= len <= 0x7fff_ffff,
        ensures
            final(self).wf(),
            old(self).due(len as int) ==> final(self).current == old(self).current - 1
                && final(self).multiples@ == old(self).multiples@.skip(1)
                && final(self).last_len == len,
            !old(self).due(len as int) ==> *final(self) == *old(self),
    {
        if self.multiples.len() > 0 {
            let m0 = self.multiples[0];
            proof {
                assert(m0 == speed_thresholds().skip(7 - self.multiples@.len())[0]);
                assert(m0 <= 40);
                assert((m0 as int) * (self.last_len as int) <= 40 * 0x7fff_ffff)
                    by (nonlinear_arith)
                    requires
                        m0 <= 40,
                        self.last_len <= 0x7fff_ffff,
                ;
            }
            if (len as u64) * 10 >= (m0 as u64) * (self.last_len as u64) {
                self.current -= 1;
                self.multiples.remove(0);
                self.last_len = len;
                proof {
                    assert(self.multiples@ =~= old(self).multiples@.skip(1));
                    assert(self.multiples@ =~= speed_thresholds().skip(
                        7 - self.multiples@.len(),
                    ));
                }
            }
        }
    }
}

/// The ratchet is bounded: whatever growth `adjust` ever sees, the level
/// stays between the floor left after consuming every threshold and the
/// starting level.
pub proof fn lemma_speed_level_bounds(s: Speed)
    requires
        s.wf(),
    ensures
        3 <= s.current <= 10,
{
}

} // verus!
