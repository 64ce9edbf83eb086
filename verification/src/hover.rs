//! The hover state machine.

use core::time::Duration;
use vstd::prelude::*;
use crate::entity::EntityId;
use crate::scan::{is_nearest, nearest_hit, no_hit, Candidate};

verus! {

/// The hover record: when the hover on the current entity began, as time
/// elapsed since the host started.
#[derive(Clone, Copy, Debug, PartialEq, Eq)]
pub struct Hover {
    pub since: Duration,
}

/// Notification that an entity has become the hovered one.
#[derive(Clone, Copy, Debug, PartialEq, Eq, Structural)]
pub struct HoverStart {
    pub hovered: EntityId,
}

/// Notification that an entity is no longer hovered.
#[derive(Clone, Copy, Debug, PartialEq, Eq, Structural)]
pub struct HoverEnd {
    pub hovered: EntityId,
}

/// One entry of a tick's ordered event list.
#[derive(Clone, Copy, Debug, PartialEq, Eq, Structural)]
pub enum HoverEvent {
    Start(HoverStart),
    End(HoverEnd),
}

/// The hover reference: the one entity that is hovered, if any, with its
/// hover record.
#[derive(Clone, Copy, Debug, PartialEq, Eq)]
pub struct Hovered {
    pub inner: Option<EntityId>,
    pub hover: Option<Hover>,
}

/// The events of one tick, in the order in which they are emitted, when the
/// hover reference holds `prev` and the nearest hit of the tick is `hit`.
pub open spec fn hover_events(prev: Option<EntityId>, hit: Option<EntityId>) -> Seq<HoverEvent> {
    match (prev, hit) {
        (None, None) => seq![],
        (None, Some(e)) => seq![HoverEvent::Start(HoverStart { hovered: e })],
        (Some(p), None) => seq![HoverEvent::End(HoverEnd { hovered: p })],
        (Some(p), Some(e)) => if p == e {
            seq![]
        } else {
            seq![
                HoverEvent::End(HoverEnd { hovered: p }),
                HoverEvent::Start(HoverStart { hovered: e }),
            ]
        },
    }
}

impl Hovered {
    /// The hover record exists exactly while an entity is hovered.
    pub open spec fn wf(self) -> bool {
        self.inner is Some <==> self.hover is Some
    }

    /// The record that goes with a hover reference after a tick at time `now`.
    pub open spec fn record_after(self, hit: Option<EntityId>, now: Duration) -> Option<Hover> {
        match hit {
            None => None,
            Some(e) => if self.inner == Some(e) {
                self.hover
            } else {
                Some(Hover { since: now })
            },
        }
    }

    /// Nothing is hovered.
    pub fn new() -> (r: Hovered)
        ensures
            r.inner is None,
            r.hover is None,
            r.wf(),
    {
        Hovered { inner: None, hover: None }
    }

    /// One tick of the state machine: takes the nearest hit of the tick,
    /// replaces the hover reference and returns the events of the transition.
    pub fn update(&mut self, hit: Option<EntityId>, now: Duration) -> (events: Vec<HoverEvent>)
        ensures
            final(self).inner == hit,
            final(self).hover == old(self).record_after(hit, now),
            old(self).wf() ==> final(self).wf(),
            events@ == hover_events(old(self).inner, hit),
    {
        let mut events: Vec<HoverEvent> = Vec::new();
        match hit {
            Some(entity) => {
                match self.inner {
                    Some(prev) => {
                        if prev != entity {
                            events.push(HoverEvent::End(HoverEnd { hovered: prev }));
                            events.push(HoverEvent::Start(HoverStart { hovered: entity }));
                            self.inner = Some(entity);
                            self.hover = Some(Hover { since: now });
                        }
                    },
                    None => {
                        events.push(HoverEvent::Start(HoverStart { hovered: entity }));
                        self.inner = Some(entity);
                        self.hover = Some(Hover { since: now });
                    },
                }
            },
            None => {
                match self.inner {
                    Some(prev) => {
                        events.push(HoverEvent::End(HoverEnd { hovered: prev }));
                        self.inner = None;
                    },
                    None => {},
                }
                self.hover = None;
            },
        }
        events
    }
}

/// One tick of hover tracking: finds the nearest hit among the tested
/// candidates and runs the state machine on it, once. The hover reference
/// then names the nearest candidate, or nothing if the ray hit none.
pub fn update_hover_state(hovered: &mut Hovered, candidates: &Vec<Candidate>, now: Duration) -> (events:
    Vec<HoverEvent>)
    ensures
        final(hovered).inner is None <==> no_hit(candidates@),
        final(hovered).inner matches Some(e) ==> exists|i: int|
            is_nearest(candidates@, i) && e == candidates@[i].id,
        final(hovered).hover == old(hovered).record_after(final(hovered).inner, now),
        old(hovered).wf() ==> final(hovered).wf(),
        events@ == hover_events(old(hovered).inner, final(hovered).inner),
{
    let hit = match nearest_hit(candidates) {
        Some(h) => Some(h.id),
        None => None,
    };
    hovered.update(hit, now)
}

/// A tick emits at most one end and at most one start, and the end comes
/// first.
pub proof fn lemma_tick_events(prev: Option<EntityId>, hit: Option<EntityId>)
    ensures
        hover_events(prev, hit).len() <= 2,
        forall|i: int, j: int|
            0 <= i < j < hover_events(prev, hit).len() ==> hover_events(prev, hit)[i] is End
                && hover_events(prev, hit)[j] is Start,
{
}

/// The hover reference after a run of ticks that began with `start` hovered
/// and whose nearest hits were `hits`, tick by tick.
pub open spec fn hovered_after(start: Option<EntityId>, hits: Seq<Option<EntityId>>) -> Option<
    EntityId,
> {
    if hits.len() == 0 {
        start
    } else {
        hits.last()
    }
}

/// The event log of such a run: the events of its ticks, one tick after the
/// other.
pub open spec fn event_log(start: Option<EntityId>, hits: Seq<Option<EntityId>>) -> Seq<HoverEvent>
    decreases hits.len(),
{
    if hits.len() == 0 {
        Seq::empty()
    } else {
        event_log(start, hits.drop_last()) + hover_events(
            hovered_after(start, hits.drop_last()),
            hits.last(),
        )
    }
}

/// Whether starts and ends pair up in `log`, between a hover reference
/// `start` before the first event and `end` after the last.
///
/// Each start is followed at once by the end of the same entity, or is the
/// last event, and then that entity is the one in `end`. Each end is followed
/// by a start or by nothing, and then `end` is empty. The first event is a
/// start exactly if `start` is empty, and otherwise ends the entity in
/// `start`. Without any event the reference has not changed.
pub open spec fn well_bracketed(
    start: Option<EntityId>,
    log: Seq<HoverEvent>,
    end: Option<EntityId>,
) -> bool {
    &&& log.len() == 0 ==> start == end
    &&& log.len() > 0 ==> match log.first() {
        HoverEvent::Start(_) => start is None,
        HoverEvent::End(x) => start == Some(x.hovered),
    }
    &&& log.len() > 0 ==> match log.last() {
        HoverEvent::Start(x) => end == Some(x.hovered),
        HoverEvent::End(_) => end is None,
    }
    &&& forall|k: int|
        0 <= k < log.len() - 1 ==> match #[trigger] log[k] {
            HoverEvent::Start(x) => log[k + 1] == HoverEvent::End(HoverEnd { hovered: x.hovered }),
            HoverEvent::End(_) => log[k + 1] is Start,
        }
}

/// One more tick keeps a log well bracketed.
proof fn lemma_tick_keeps_bracketing(
    start: Option<EntityId>,
    log: Seq<HoverEvent>,
    prev: Option<EntityId>,
    hit: Option<EntityId>,
)
    requires
        well_bracketed(start, log, prev),
    ensures
        well_bracketed(start, log + hover_events(prev, hit), hit),
{
    let tick = hover_events(prev, hit);
    let next = log + tick;
    if tick.len() == 0 {
        assert(next =~= log);
    } else {
        assert forall|k: int| 0 <= k < next.len() - 1 implies match #[trigger] next[k] {
            HoverEvent::Start(x) => next[k + 1] == HoverEvent::End(HoverEnd { hovered: x.hovered }),
            HoverEvent::End(_) => next[k + 1] is Start,
        } by {
            if k < log.len() - 1 {
                assert(next[k] == log[k] && next[k + 1] == log[k + 1]);
            } else if k == log.len() - 1 {
                assert(next[k] == log.last() && next[k + 1] == tick[0]);
            } else {
                assert(next[k] == tick[k - log.len()] && next[k + 1] == tick[k + 1 - log.len()]);
            }
        }
        assert(next.last() == tick.last());
        if log.len() > 0 {
            assert(next.first() == log.first());
        } else {
            assert(next.first() == tick.first());
        }
    }
}

/// Over any run of ticks the event log is well bracketed, from the hover
/// reference before the run to the one after it.
pub proof fn lemma_event_log_well_bracketed(start: Option<EntityId>, hits: Seq<Option<EntityId>>)
    ensures
        well_bracketed(start, event_log(start, hits), hovered_after(start, hits)),
    decreases hits.len(),
{
    if hits.len() > 0 {
        let before = hits.drop_last();
        lemma_event_log_well_bracketed(start, before);
        lemma_tick_keeps_bracketing(
            start,
            event_log(start, before),
            hovered_after(start, before),
            hits.last(),
        );
    }
}

/// A hover that has started is ended before anything else happens: in the
/// log of any run, the start of an entity is followed at once by the end of
/// the same entity, unless it is the last event and the entity is still the
/// hovered one.
pub proof fn lemma_start_is_ended(start: Option<EntityId>, hits: Seq<Option<EntityId>>, k: int)
    requires
        0 <= k < event_log(start, hits).len(),
        event_log(start, hits)[k] is Start,
    ensures
        ({
            let log = event_log(start, hits);
            let e = log[k]->Start_0.hovered;
            if k + 1 < log.len() {
                log[k + 1] == HoverEvent::End(HoverEnd { hovered: e })
            } else {
                hovered_after(start, hits) == Some(e)
            }
        }),
{
    lemma_event_log_well_bracketed(start, hits);
}

/// No entity starts to be hovered twice without its hover ending in between:
/// between two starts of one entity in the log of any run lies an end of that
/// entity, right after the first start.
pub proof fn lemma_no_start_twice(
    start: Option<EntityId>,
    hits: Seq<Option<EntityId>>,
    i: int,
    j: int,
)
    requires
        0 <= i < j < event_log(start, hits).len(),
        event_log(start, hits)[i] is Start,
        event_log(start, hits)[j] == event_log(start, hits)[i],
    ensures
        i + 1 < j,
        event_log(start, hits)[i + 1] == HoverEvent::End(
            HoverEnd { hovered: event_log(start, hits)[i]->Start_0.hovered },
        ),
{
    lemma_event_log_well_bracketed(start, hits);
}

/// No hover ends that has not started: in the log of any run, the end of an
/// entity follows at once on the start of the same entity, unless it is the
/// first event and the entity was hovered when the run began.
pub proof fn lemma_end_has_start(start: Option<EntityId>, hits: Seq<Option<EntityId>>, k: int)
    requires
        0 <= k < event_log(start, hits).len(),
        event_log(start, hits)[k] is End,
    ensures
        ({
            let log = event_log(start, hits);
            let e = log[k]->End_0.hovered;
            if k > 0 {
                log[k - 1] == HoverEvent::Start(HoverStart { hovered: e })
            } else {
                start == Some(e)
            }
        }),
{
    lemma_event_log_well_bracketed(start, hits);
    let log = event_log(start, hits);
    if k > 0 {
        assert(log[k - 1] is Start) by {
            if log[k - 1] is End {
                assert(log[k - 1 + 1] is Start);
            }
        }
        assert(log[k - 1 + 1] == log[k]);
    }
}

} // verus!
