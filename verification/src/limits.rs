//! The process-wide set of rate-limited client addresses.
//!
//! The set is created once at startup, rebuilt and then maintained by the
//! background task that follows the upstream rate-limit view — inserts add
//! an address, deletes remove it — and read by every edit submission.

use vstd::prelude::*;
use crate::json::str_eq;

verus! {

/// The addresses currently over the limit.
#[derive(Debug)]
pub struct RateLimitSet {
    pub ips: Vec<String>,
}

impl RateLimitSet {
    /// Whether `ip` is in the set.
    pub open spec fn spec_contains(&self, ip: Seq<char>) -> bool {
        exists|j: int| 0 <= j < self.ips@.len() && (#[trigger] self.ips@[j])@ == ip
    }

    /// Each address at most once.
    pub open spec fn wf(&self) -> bool {
        forall|a: int, b: int| 0 <= a < b < self.ips@.len()
            ==> (#[trigger] self.ips@[a])@ != (#[trigger] self.ips@[b])@
    }

    /// An empty set: nobody limited.
    pub fn new() -> (s: RateLimitSet)
        ensures
            s.wf(),
            forall|ip: Seq<char>| !s.spec_contains(ip),
    {
        RateLimitSet { ips: Vec::new() }
    }

    pub fn contains(&self, ip: &str) -> (r: bool)
        ensures
            r == self.spec_contains(ip@),
    {
        let mut j: usize = 0;
        while j < self.ips.len()
            invariant
                0 <= j <= self.ips@.len(),
                forall|m: int| 0 <= m < j ==> (#[trigger] self.ips@[m])@ != ip@,
            decreases self.ips@.len() - j,
        {
            if str_eq(self.ips[j].as_str(), ip) {
                return true;
            }
            j = j + 1;
        }
        false
    }

    /// Puts `ip` into the set; everything already there stays.
    pub fn insert(&mut self, ip: String)
        requires
            old(self).wf(),
        ensures
            final(self).wf(),
            final(self).spec_contains(ip@),
            forall|x: Seq<char>| final(self).spec_contains(x)
                == (old(self).spec_contains(x) || x == ip@),
    {
        if !self.contains(ip.as_str()) {
            let ghost s0 = self.ips@;
            self.ips.push(ip);
            proof {
                let t = self.ips@;
                assert(t[s0.len() as int] == ip);
                assert forall|x: Seq<char>| self.spec_contains(x)
                    == (old(self).spec_contains(x) || x == ip@) by {
                    if old(self).spec_contains(x) {
                        let m = choose|m: int| 0 <= m < s0.len() && (#[trigger] s0[m])@ == x;
                        assert(t[m]@ == x);
                    }
                    if self.spec_contains(x) {
                        let m = choose|m: int| 0 <= m < t.len() && (#[trigger] t[m])@ == x;
                        if m < s0.len() {
                            assert(s0[m]@ == x);
                        }
                    }
                }
            }
        }
    }

    /// Takes `ip` out of the set; everything else stays.
    pub fn remove(&mut self, ip: &str)
        requires
            old(self).wf(),
        ensures
            final(self).wf(),
            forall|x: Seq<char>| final(self).spec_contains(x)
                == (old(self).spec_contains(x) && x != ip@),
    {
        let ghost s0 = self.ips@;
        let mut j: usize = 0;
        while j < self.ips.len()
            invariant
                0 <= j <= self.ips@.len(),
                self.ips@ == s0,
                old(self).wf(),
                s0 == old(self).ips@,
                forall|m: int| 0 <= m < j ==> (#[trigger] s0[m])@ != ip@,
            decreases self.ips@.len() - j,
        {
            if str_eq(self.ips[j].as_str(), ip) {
                self.ips.remove(j);
                proof {
                    let t = self.ips@;
                    assert forall|x: Seq<char>| self.spec_contains(x)
                        == (old(self).spec_contains(x) && x != ip@) by {
                        if self.spec_contains(x) {
                            let m = choose|m: int| 0 <= m < t.len() && (#[trigger] t[m])@ == x;
                            if m < j {
                                assert(s0[m]@ == x);
                            } else {
                                assert(s0[m + 1]@ == x);
                            }
                        }
                        if old(self).spec_contains(x) && x != ip@ {
                            let m = choose|m: int| 0 <= m < s0.len() && (#[trigger] s0[m])@ == x;
                            if m < j {
                                assert(t[m]@ == x);
                            } else {
                                assert(m != j);
                                assert(t[m - 1]@ == x);
                            }
                        }
                    }
                    assert forall|a: int, b: int| 0 <= a < b < t.len()
                        implies (#[trigger] t[a])@ != (#[trigger] t[b])@ by {
                        if a < j { assert(t[a] == s0[a]); } else { assert(t[a] == s0[a + 1]); }
                        if b < j { assert(t[b] == s0[b]); } else { assert(t[b] == s0[b + 1]); }
                    }
                }
                return ;
            }
            j = j + 1;
        }
    }

    /// Empties the set, the first step of every rebuild.
    pub fn clear(&mut self)
        ensures
            final(self).wf(),
            forall|ip: Seq<char>| !final(self).spec_contains(ip),
    {
        self.ips.clear();
    }
}

} // verus!
