//! The window of recent topology recompilations: in automatic mode, the
//! compiled backend gives up once too many recompilations fall within a
//! short span of game ticks.

use std::collections::VecDeque;

use vstd::prelude::*;

verus! {

/// The span of game ticks that the window covers.
pub const AUTO_RECOMPILE_WINDOW_TICKS: u64 = 200;

/// How many recompilations within the window make the backend give up.
pub const AUTO_RECOMPILE_LIMIT: usize = 11;

/// `recent` without its leading ticks that lie a whole window or more before
/// `tick`; the distance is taken modulo 2^64.
pub open spec fn expire(recent: Seq<u64>, tick: u64) -> Seq<u64>
    decreases recent.len(),
{
    if recent.len() > 0 && tick.wrapping_sub(recent[0]) >= AUTO_RECOMPILE_WINDOW_TICKS {
        expire(recent.drop_first(), tick)
    } else {
        recent
    }
}

/// The window after a recompilation at `tick`: emptied when `tick` comes
/// before its first tick, its expired ticks dropped, and `tick` added.
pub open spec fn recorded(recent: Seq<u64>, tick: u64) -> Seq<u64> {
    let kept = if recent.len() > 0 && tick < recent[0] {
        Seq::<u64>::empty()
    } else {
        recent
    };
    expire(kept, tick).push(tick)
}

/// Whether ticks never decrease.
pub open spec fn ticks_ordered(ticks: Seq<u64>) -> bool {
    forall|i: int, j: int| 0 <= i < j < ticks.len() ==> ticks[i] <= ticks[j]
}

/// The ticks of the recent topology recompilations, oldest first.
pub struct RecompileWindow {
    recent: VecDeque<u64>,
}

impl View for RecompileWindow {
    type V = Seq<u64>;

    closed spec fn view(&self) -> Seq<u64> {
        self.recent@
    }
}

proof fn lemma_expire_suffix(recent: Seq<u64>, tick: u64)
    ensures
        expire(recent, tick).len() <= recent.len(),
        expire(recent, tick) == recent.subrange(recent.len() - expire(recent, tick).len(), recent.len() as int),
        expire(recent, tick).len() > 0 ==> tick.wrapping_sub(expire(recent, tick)[0]) < AUTO_RECOMPILE_WINDOW_TICKS,
    decreases recent.len(),
{
    if recent.len() > 0 && tick.wrapping_sub(recent[0]) >= AUTO_RECOMPILE_WINDOW_TICKS {
        lemma_expire_suffix(recent.drop_first(), tick);
        let rest = expire(recent.drop_first(), tick);
        assert(recent.drop_first().subrange(recent.drop_first().len() - rest.len(), recent.drop_first().len() as int)
            =~= recent.subrange(recent.len() - rest.len(), recent.len() as int));
    } else {
        assert(recent.subrange(0, recent.len() as int) =~= recent);
    }
}

impl RecompileWindow {
    /// An empty window.
    pub fn new() -> (window: RecompileWindow)
        ensures
            window@ == Seq::<u64>::empty(),
    {
        RecompileWindow { recent: VecDeque::new() }
    }

    /// Forgets every recorded recompilation.
    pub fn clear(&mut self)
        ensures
            final(self)@ == Seq::<u64>::empty(),
    {
        self.recent.clear();
    }

    /// Records a recompilation at `tick` when `auto` is set, and returns how
    /// many recompilations the window then holds once they reach the limit:
    /// the reason to give up. Without `auto` nothing is recorded and the
    /// backend never gives up.
    pub fn auto_recompile_fallback_reason(&mut self, auto: bool, tick: u64) -> (count: Option<usize>)
        ensures
            !auto ==> final(self)@ == old(self)@ && count is None,
            auto ==> final(self)@ == recorded(old(self)@, tick),
            auto ==> count == if final(self)@.len() >= AUTO_RECOMPILE_LIMIT {
                Some(final(self)@.len() as usize)
            } else {
                None
            },
            auto && ticks_ordered(old(self)@) && (old(self)@.len() > 0 ==> old(self)@.last() <= tick) ==> {
                &&& ticks_ordered(final(self)@)
                &&& forall|i: int|
                    0 <= i < final(self)@.len() ==> #[trigger] final(self)@[i] <= tick && tick - final(self)@[i]
                        < AUTO_RECOMPILE_WINDOW_TICKS
            },
    {
        if !auto {
            return None;
        }
        if self.recent.len() > 0 && tick < self.recent[0] {
            self.recent.clear();
        }
        let ghost kept = self.recent@;
        proof {
            assert(kept == if old(self)@.len() > 0 && tick < old(self)@[0] {
                Seq::<u64>::empty()
            } else {
                old(self)@
            });
        }
        while self.recent.len() > 0 && tick.wrapping_sub(self.recent[0]) >= AUTO_RECOMPILE_WINDOW_TICKS
            invariant
                expire(self.recent@, tick) == expire(kept, tick),
            decreases self.recent@.len(),
        {
            let ghost before = self.recent@;
            let _ = self.recent.pop_front();
            proof {
                assert(self.recent@ =~= before.drop_first());
            }
        }
        self.recent.push_back(tick);
        proof {
            lemma_expire_suffix(kept, tick);
            let window = self.recent@;
            if ticks_ordered(old(self)@) && (old(self)@.len() > 0 ==> old(self)@.last() <= tick) {
                let rest = expire(kept, tick);
                assert(ticks_ordered(kept));
                assert forall|i: int, j: int| 0 <= i < j < window.len() implies window[i] <= window[j] by {
                    if j < window.len() - 1 {
                        assert(window[i] == kept[kept.len() - rest.len() + i]);
                        assert(window[j] == kept[kept.len() - rest.len() + j]);
                    } else {
                        assert(window[i] == kept[kept.len() - rest.len() + i]);
                        assert(kept[kept.len() - rest.len() + i] <= kept.last());
                    }
                }
                assert forall|i: int| 0 <= i < window.len() implies #[trigger] window[i] <= tick && tick - window[i]
                    < AUTO_RECOMPILE_WINDOW_TICKS by {
                    if i < window.len() - 1 {
                        assert(window[i] == kept[kept.len() - rest.len() + i]);
                        assert(kept[kept.len() - rest.len() + i] <= kept.last());
                        assert(rest[0] == kept[kept.len() - rest.len()]);
                        assert(kept[kept.len() - rest.len()] <= kept[kept.len() - rest.len() + i]);
                        assert(tick.wrapping_sub(rest[0]) == tick - rest[0]);
                    }
                }
            }
        }
        if self.recent.len() >= AUTO_RECOMPILE_LIMIT {
            Some(self.recent.len())
        } else {
            None
        }
    }
}

} // verus!
