//! The order in which upstream servers are tried.
use vstd::prelude::*;

verus! {

/// Which upstream server to try next: servers are tried in order, and after
/// a failure the next one is tried only when failover is on.
#[derive(Debug, Clone, Copy)]
pub struct Failover {
    pub count: usize,
    pub failover: bool,
}

/// The servers tried when every attempt fails: all of them in order with
/// failover, only the first without it, none when there are none.
pub open spec fn all_tried(count: nat, failover: bool) -> Seq<int> {
    if count == 0 {
        Seq::empty()
    } else if failover {
        Seq::new(count, |i: int| i)
    } else {
        seq![0int]
    }
}

impl Failover {
    pub fn new(count: usize, failover: bool) -> (f: Failover)
        ensures
            f.count == count,
            f.failover == failover,
    {
        Failover { count, failover }
    }

    /// The first server to try, if there is any.
    pub fn first(&self) -> (r: Option<usize>)
        ensures
            r == (if self.count > 0 {
                Some(0usize)
            } else {
                None
            }),
    {
        if self.count > 0 {
            Some(0)
        } else {
            None
        }
    }

    /// The server to try after server `i` failed: the next one when failover
    /// is on and there is a next one; otherwise give up.
    pub fn after_failure(&self, i: usize) -> (r: Option<usize>)
        requires
            i < self.count,
        ensures
            r == (if self.failover && i + 1 < self.count {
                Some((i + 1) as usize)
            } else {
                None
            }),
    {
        if self.failover && i + 1 < self.count {
            Some(i + 1)
        } else {
            None
        }
    }

    /// The servers tried when the attempts keep failing, starting from
    /// `first` and following `after_failure`.
    pub open spec fn tried_from(self, i: int) -> Seq<int>
        decreases self.count - i,
    {
        if i < 0 || i >= self.count {
            Seq::empty()
        } else if self.failover && i + 1 < self.count {
            seq![i] + self.tried_from(i + 1)
        } else {
            seq![i]
        }
    }
}

/// Following `first` and `after_failure` through failures tries each server
/// at most once, in order: all of them with failover, the first alone
/// without it.
pub proof fn lemma_failover_order(f: Failover)
    ensures
        f.tried_from(0) == all_tried(f.count as nat, f.failover),
{
    if f.count > 0 && f.failover {
        lemma_tried_suffix(f, 0);
        assert(f.tried_from(0) =~= all_tried(f.count as nat, f.failover));
    } else if f.count > 0 {
        assert(f.tried_from(0) =~= all_tried(f.count as nat, f.failover));
    } else {
        assert(f.tried_from(0) =~= all_tried(f.count as nat, f.failover));
    }
}

proof fn lemma_tried_suffix(f: Failover, i: int)
    requires
        f.failover,
        0 <= i < f.count,
    ensures
        f.tried_from(i) =~= Seq::new((f.count - i) as nat, |k: int| i + k),
    decreases f.count - i,
{
    if i + 1 < f.count {
        lemma_tried_suffix(f, i + 1);
        assert(f.tried_from(i) =~= Seq::new((f.count - i) as nat, |k: int| i + k));
    } else {
        assert(f.tried_from(i) =~= Seq::new((f.count - i) as nat, |k: int| i + k));
    }
}

} // verus!
