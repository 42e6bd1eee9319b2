use vstd::prelude::*;

use crate::anymap::{AnyMap, TagValue, TagValueV};

verus! {

/// The run log: metric values per tag, and per tag the instant at which a
/// running timer started.  Instants and durations are nanosecond counts
/// that the caller reads off a monotonic clock.
pub struct TagLog {
    pub tags: AnyMap,
    pub helpers: AnyMap,
}

impl TagLog {
    /// Both stores keep their tags unique.
    pub open spec fn wf(self) -> bool {
        self.tags.wf() && self.helpers.wf()
    }
}

impl Default for TagLog {
    /// A log with no tags and no running timers.
    fn default() -> (r: TagLog)
        ensures
            r.wf(),
            r.tags@ == Map::<Seq<char>, TagValueV>::empty(),
            r.helpers@ == Map::<Seq<char>, TagValueV>::empty(),
    {
        TagLog { tags: AnyMap::default(), helpers: AnyMap::default() }
    }
}

/// Stores a value under a tag, replacing any previous value.
pub fn set_tag(log: &mut TagLog, tag: &str, value: TagValue)
    requires
        old(log).wf(),
    ensures
        final(log).wf(),
        final(log).tags@ == old(log).tags@.insert(tag@, value@),
        final(log).helpers@ == old(log).helpers@,
{
    log.tags.insert(tag.to_owned(), value);
}

/// Starts (or restarts) the timer of a tag: the tag's total is created at
/// zero if the tag is new, and the start instant is recorded.
pub fn timer_start(log: &mut TagLog, tag: &str, now: u64)
    requires
        old(log).wf(),
    ensures
        final(log).wf(),
        final(log).tags@ == if old(log).tags@.dom().contains(tag@) {
            old(log).tags@
        } else {
            old(log).tags@.insert(tag@, TagValueV::Count(0))
        },
        final(log).helpers@ == old(log).helpers@.insert(tag@, TagValueV::Count(now)),
{
    let key = tag.to_owned();
    if !log.tags.contains_key(&key) {
        log.tags.insert(key.clone(), TagValue::Count(0));
    }
    log.helpers.insert(key, TagValue::Count(now));
}

/// What a stopped timer accumulates: the elapsed time since its start (zero
/// if the clock reads earlier than the start), added to the previous total,
/// saturating at the counter's ceiling.
pub open spec fn accumulated(total: u64, start: u64, now: u64) -> u64 {
    let elapsed: int = if now >= start {
        now - start
    } else {
        0
    };
    if total + elapsed <= u64::MAX {
        (total + elapsed) as u64
    } else {
        u64::MAX
    }
}

/// Stops the timer of a tag and adds the elapsed time to the tag's total.
/// Both the running timer and the total must be present as counters, as
/// they are after `timer_start`.
pub fn timer_stop(log: &mut TagLog, tag: &str, now: u64)
    requires
        old(log).wf(),
        old(log).helpers@.dom().contains(tag@),
        old(log).helpers@[tag@] is Count,
        old(log).tags@.dom().contains(tag@),
        old(log).tags@[tag@] is Count,
    ensures
        final(log).wf(),
        final(log).helpers@ == old(log).helpers@,
        final(log).tags@ == old(log).tags@.insert(
            tag@,
            TagValueV::Count(
                accumulated(old(log).tags@[tag@]->Count_0, old(log).helpers@[tag@]->Count_0, now),
            ),
        ),
{
    let key = tag.to_owned();
    let start: u64 = match log.helpers.get(&key) {
        TagValue::Count(n) => *n,
        TagValue::Text(_) => {
            proof {
                assert(false);
            }
            0
        },
    };
    let total: u64 = match log.tags.get(&key) {
        TagValue::Count(n) => *n,
        TagValue::Text(_) => {
            proof {
                assert(false);
            }
            0
        },
    };
    let elapsed = if now >= start {
        now - start
    } else {
        0
    };
    let new_total = if total <= u64::MAX - elapsed {
        total + elapsed
    } else {
        u64::MAX
    };
    log.tags.insert(key, TagValue::Count(new_total));
}

} // verus!
