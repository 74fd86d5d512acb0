//! The watermark filter: which events of a fetched batch are new.

use crate::models::Event;
use crate::timestamp::{parse_rfc3339, rfc3339_instant, Timestamp};
use vstd::prelude::*;
use vstd::seq_lib::to_multiset_insert;

verus! {

/// Whether the event's timestamp reads as RFC 3339.
pub open spec fn has_instant(e: Event) -> bool {
    rfc3339_instant(e.timestamp@) is Some
}

/// The instant of an event whose timestamp reads as RFC 3339.
pub open spec fn instant_of(e: Event) -> Timestamp {
    match rfc3339_instant(e.timestamp@) {
        Some(t) => t,
        None => Timestamp { secs: 0, nanos: 0 },
    }
}

/// Whether an event counts as not yet delivered: its timestamp can be read
/// and lies strictly after the watermark, if there is one.
pub open spec fn is_new(e: Event, watermark: Option<Timestamp>) -> bool {
    has_instant(e) && match watermark {
        Some(w) => w.is_before(instant_of(e)),
        None => true,
    }
}

/// Whether watermark `a` is not later than watermark `b`; no watermark is
/// earlier than any.
pub open spec fn not_later(a: Option<Timestamp>, b: Option<Timestamp>) -> bool {
    match a {
        None => true,
        Some(x) => match b {
            Some(y) => x.is_at_or_before(y),
            None => false,
        },
    }
}

/// Whether `j` is where an event of instant `t` goes among `sorted`: behind
/// every event that is earlier, in front of the first that is not.
pub open spec fn is_slot(sorted: Seq<Event>, t: Timestamp, j: int) -> bool {
    &&& 0 <= j <= sorted.len()
    &&& forall|k: int| 0 <= k < j ==> instant_of(#[trigger] sorted[k]).is_before(t)
    &&& j < sorted.len() ==> !instant_of(sorted[j]).is_before(t)
}

/// The one position that `is_slot` admits.
pub open spec fn slot(sorted: Seq<Event>, t: Timestamp) -> int {
    choose|j: int| is_slot(sorted, t, j)
}

/// The new events of a batch in ascending order of instant; events of equal
/// instant keep the order they have in the batch.
pub open spec fn selected(batch: Seq<Event>, watermark: Option<Timestamp>) -> Seq<Event>
    decreases batch.len(),
{
    if batch.len() == 0 {
        Seq::empty()
    } else {
        let later = selected(batch.drop_first(), watermark);
        if is_new(batch[0], watermark) {
            later.insert(slot(later, instant_of(batch[0])), batch[0])
        } else {
            later
        }
    }
}

/// The watermark after a batch: the instant of the latest new event, or the
/// old watermark where the batch holds nothing new.
pub open spec fn advanced(batch: Seq<Event>, watermark: Option<Timestamp>) -> Option<Timestamp> {
    let chosen = selected(batch, watermark);
    if chosen.len() > 0 {
        Some(instant_of(chosen.last()))
    } else {
        watermark
    }
}

/// Whether instant `a` comes before `b`; where not `strict`, it may equal it.
pub open spec fn in_order(a: Timestamp, b: Timestamp, strict: bool) -> bool {
    if strict {
        a.is_before(b)
    } else {
        a.is_at_or_before(b)
    }
}

/// Whether each of `events` comes before those that follow it.
pub open spec fn ordered(events: Seq<Event>, strict: bool) -> bool {
    forall|i: int, j: int|
        0 <= i < j < events.len() ==> in_order(
            instant_of(#[trigger] events[i]),
            instant_of(#[trigger] events[j]),
            strict,
        )
}

/// Whether `events` ascend by instant, equal instants allowed.
pub open spec fn ascending(events: Seq<Event>) -> bool {
    ordered(events, false)
}

/// Whether `events` ascend by instant with no two instants equal.
pub open spec fn strictly_ascending(events: Seq<Event>) -> bool {
    ordered(events, true)
}

/// Finds the slot for instant `t` among the instants `keys` of `sorted`.
fn find_slot(keys: &Vec<Timestamp>, t: &Timestamp, Ghost(sorted): Ghost<Seq<Event>>) -> (j: usize)
    requires
        keys.len() == sorted.len(),
        forall|k: int| 0 <= k < keys.len() ==> #[trigger] keys[k] == instant_of(sorted[k]),
    ensures
        j as int == slot(sorted, *t),
        j <= keys.len(),
{
    let mut j: usize = 0;
    while j < keys.len() && keys[j].before(t)
        invariant
            j <= keys.len(),
            keys.len() == sorted.len(),
            forall|k: int| 0 <= k < keys.len() ==> #[trigger] keys[k] == instant_of(sorted[k]),
            forall|k: int| 0 <= k < j ==> instant_of(#[trigger] sorted[k]).is_before(*t),
        decreases keys.len() - j,
    {
        j = j + 1;
    }
    proof {
        assert(j < sorted.len() ==> !instant_of(sorted[j as int]).is_before(*t));
        lemma_slot_is_unique(sorted, *t, j as int);
    }
    j
}

/// Picks from a freshly fetched batch the events that are new with respect to
/// `watermark`, in ascending order of instant, and says what the watermark
/// becomes once they are delivered. An event whose timestamp does not read as
/// RFC 3339 is left out and does not move the watermark.
pub fn select_new(batch: Vec<Event>, watermark: Option<Timestamp>) -> (r: (
    Vec<Event>,
    Option<Timestamp>,
))
    ensures
        is_selection(batch@, watermark, (r.0@, r.1)),
        ascending(r.0@),
        forall|i: int| 0 <= i < r.0.len() ==> is_new(#[trigger] r.0[i], watermark),
        not_later(watermark, r.1),
        r.0.len() == 0 ==> r.1 == watermark,
{
    let ghost all = batch@;
    let mut rest = batch;
    let mut chosen: Vec<Event> = Vec::new();
    let mut keys: Vec<Timestamp> = Vec::new();
    proof {
        assert(all.subrange(all.len() as int, all.len() as int) == Seq::<Event>::empty());
    }
    while rest.len() > 0
        invariant
            rest.len() <= all.len(),
            rest@ == all.subrange(0, rest.len() as int),
            chosen@ == selected(all.subrange(rest.len() as int, all.len() as int), watermark),
            keys.len() == chosen.len(),
            forall|k: int| 0 <= k < keys.len() ==> #[trigger] keys[k] == instant_of(chosen[k]),
        decreases rest.len(),
    {
        let ghost n = rest.len() as int;
        let ghost tail = all.subrange(n, all.len() as int);
        let ghost longer = all.subrange(n - 1, all.len() as int);
        let event = rest.pop().unwrap();
        proof {
            assert(event == all[n - 1]);
            assert(longer.drop_first() == tail);
            assert(longer[0] == event);
            assert(rest@ == all.subrange(0, n - 1));
        }
        let parsed = parse_rfc3339(event.timestamp.as_str());
        let keep = match parsed {
            Some(t) => match watermark {
                Some(w) => w.before(&t),
                None => true,
            },
            None => false,
        };
        assert(keep == is_new(event, watermark));
        if keep {
            let t = parsed.unwrap();
            let j = find_slot(&keys, &t, Ghost(chosen@));
            chosen.insert(j, event);
            keys.insert(j, t);
        }
    }
    proof {
        assert(all.subrange(0, all.len() as int) == all);
        lemma_selected_ascending(all, watermark);
        lemma_selected_are_new(all, watermark);
    }
    let next = if chosen.len() > 0 {
        Some(keys[keys.len() - 1])
    } else {
        watermark
    };
    (chosen, next)
}

/// Exactly one position is the slot of an instant.
pub proof fn lemma_slot_is_unique(sorted: Seq<Event>, t: Timestamp, j: int)
    requires
        is_slot(sorted, t, j),
    ensures
        slot(sorted, t) == j,
{
    let s = slot(sorted, t);
    assert(is_slot(sorted, t, s));
    if s < j {
        assert(instant_of(sorted[s]).is_before(t));
    } else if j < s {
        assert(instant_of(sorted[j]).is_before(t));
    }
}

/// Every sequence has a slot for an instant.
pub proof fn lemma_slot(sorted: Seq<Event>, t: Timestamp)
    ensures
        is_slot(sorted, t, slot(sorted, t)),
    decreases sorted.len(),
{
    if sorted.len() == 0 {
        assert(is_slot(sorted, t, 0));
    } else if !instant_of(sorted[0]).is_before(t) {
        assert(is_slot(sorted, t, 0));
    } else {
        let shorter = sorted.drop_first();
        lemma_slot(shorter, t);
        let j = slot(shorter, t) + 1;
        assert forall|k: int| 0 <= k < j implies instant_of(#[trigger] sorted[k]).is_before(t) by {
            if k > 0 {
                assert(sorted[k] == shorter[k - 1]);
            }
        }
        if j < sorted.len() {
            assert(sorted[j] == shorter[j - 1]);
        }
        assert(is_slot(sorted, t, j));
    }
}

/// An event put between those that come before it and those that come
/// after it keeps the order.
proof fn lemma_insert_keeps_order(later: Seq<Event>, p: int, e: Event, strict: bool)
    requires
        0 <= p <= later.len(),
        ordered(later, strict),
        forall|k: int|
            0 <= k < p ==> in_order(instant_of(#[trigger] later[k]), instant_of(e), strict),
        forall|k: int|
            p <= k < later.len() ==> in_order(instant_of(e), instant_of(#[trigger] later[k]), strict),
    ensures
        ordered(later.insert(p, e), strict),
{
    let out = later.insert(p, e);
    assert forall|i: int, j: int| 0 <= i < j < out.len() implies in_order(
        instant_of(#[trigger] out[i]),
        instant_of(#[trigger] out[j]),
        strict,
    ) by {
        let a = if i < p {
            later[i]
        } else if i == p {
            e
        } else {
            later[i - 1]
        };
        let b = if j < p {
            later[j]
        } else if j == p {
            e
        } else {
            later[j - 1]
        };
        assert(out[i] == a && out[j] == b);
    }
}

/// The selected events ascend by instant.
pub proof fn lemma_selected_ascending(batch: Seq<Event>, watermark: Option<Timestamp>)
    ensures
        ascending(selected(batch, watermark)),
    decreases batch.len(),
{
    if batch.len() > 0 {
        let later = selected(batch.drop_first(), watermark);
        lemma_selected_ascending(batch.drop_first(), watermark);
        if is_new(batch[0], watermark) {
            let t = instant_of(batch[0]);
            let p = slot(later, t);
            lemma_slot(later, t);
            assert forall|k: int| p <= k < later.len() implies in_order(
                t,
                instant_of(#[trigger] later[k]),
                false,
            ) by {
                if p < k {
                    assert(in_order(instant_of(later[p]), instant_of(later[k]), false));
                }
            }
            lemma_insert_keeps_order(later, p, batch[0], false);
        }
    }
}

/// Every selected event is an event of the batch that is new: its timestamp
/// reads as RFC 3339 and lies strictly after the watermark.
pub proof fn lemma_selected_are_new(batch: Seq<Event>, watermark: Option<Timestamp>)
    ensures
        forall|i: int|
            0 <= i < selected(batch, watermark).len() ==> is_new(
                #[trigger] selected(batch, watermark)[i],
                watermark,
            ) && batch.contains(selected(batch, watermark)[i]),
        not_later(watermark, advanced(batch, watermark)),
    decreases batch.len(),
{
    if batch.len() > 0 {
        let later = selected(batch.drop_first(), watermark);
        lemma_selected_are_new(batch.drop_first(), watermark);
        assert forall|i: int| 0 <= i < later.len() implies batch.contains(#[trigger] later[i]) by {
            let k = choose|k: int| 0 <= k < batch.drop_first().len() && batch.drop_first()[k] == later[i];
            assert(batch[k + 1] == later[i]);
        }
        if is_new(batch[0], watermark) {
            let p = slot(later, instant_of(batch[0]));
            lemma_slot(later, instant_of(batch[0]));
            let out = later.insert(p, batch[0]);
            assert forall|i: int| 0 <= i < out.len() implies is_new(#[trigger] out[i], watermark)
                && batch.contains(out[i]) by {
                if i < p {
                    assert(out[i] == later[i]);
                } else if i == p {
                    assert(out[i] == batch[0]);
                } else {
                    assert(out[i] == later[i - 1]);
                }
            }
        }
    }
    let chosen = selected(batch, watermark);
    if chosen.len() > 0 {
        assert(is_new(chosen[chosen.len() - 1], watermark));
    }
}

/// No event at or before the watermark is selected, and none whose
/// timestamp cannot be read.
pub proof fn lemma_delivered_are_excluded(
    batch: Seq<Event>,
    watermark: Timestamp,
    e: Event,
)
    requires
        !has_instant(e) || instant_of(e).is_at_or_before(watermark),
    ensures
        !selected(batch, Some(watermark)).contains(e),
{
    lemma_selected_are_new(batch, Some(watermark));
}

/// The selected events are the new events of the batch, each as often as the
/// batch holds it: nothing new is lost and nothing is added.
pub proof fn lemma_selected_are_all_new(batch: Seq<Event>, watermark: Option<Timestamp>)
    ensures
        selected(batch, watermark).to_multiset() == batch.filter(
            |e: Event| is_new(e, watermark),
        ).to_multiset(),
    decreases batch.len(),
{
    let keep = |e: Event| is_new(e, watermark);
    if batch.len() == 0 {
        assert(batch.filter(keep) == Seq::<Event>::empty()) by {
            reveal(Seq::filter);
        }
    } else {
        let rest = batch.drop_first();
        let later = selected(rest, watermark);
        lemma_selected_are_all_new(rest, watermark);
        assert(batch == seq![batch[0]] + rest);
        rest.lemma_filter_prepend(batch[0], keep);
        if is_new(batch[0], watermark) {
            lemma_slot(later, instant_of(batch[0]));
            to_multiset_insert(later, slot(later, instant_of(batch[0])), batch[0]);
            to_multiset_insert(rest.filter(keep), 0, batch[0]);
            assert(rest.filter(keep).insert(0, batch[0]) == seq![batch[0]] + rest.filter(keep));
        } else {
            assert(Seq::<Event>::empty() + rest.filter(keep) == rest.filter(keep));
        }
    }
}

/// Where no two new events of the batch share an instant, the selected
/// events ascend strictly.
pub proof fn lemma_selected_strictly_ascending(batch: Seq<Event>, watermark: Option<Timestamp>)
    requires
        forall|i: int, j: int|
            0 <= i < j < batch.len() && is_new(#[trigger] batch[i], watermark) && is_new(
                #[trigger] batch[j],
                watermark,
            ) ==> instant_of(batch[i]) != instant_of(batch[j]),
    ensures
        strictly_ascending(selected(batch, watermark)),
    decreases batch.len(),
{
    if batch.len() > 0 {
        let rest = batch.drop_first();
        let later = selected(rest, watermark);
        assert forall|i: int, j: int|
            0 <= i < j < rest.len() && is_new(#[trigger] rest[i], watermark) && is_new(
                #[trigger] rest[j],
                watermark,
            ) implies instant_of(rest[i]) != instant_of(rest[j]) by {
            assert(rest[i] == batch[i + 1] && rest[j] == batch[j + 1]);
        }
        lemma_selected_strictly_ascending(rest, watermark);
        lemma_selected_are_new(rest, watermark);
        if is_new(batch[0], watermark) {
            let t = instant_of(batch[0]);
            let p = slot(later, t);
            lemma_slot(later, t);
            assert forall|k: int| 0 <= k < later.len() implies instant_of(#[trigger] later[k])
                != t by {
                let m = choose|m: int| 0 <= m < rest.len() && rest[m] == later[k];
                assert(batch[m + 1] == later[k]);
            }
            assert forall|k: int| p <= k < later.len() implies in_order(
                t,
                instant_of(#[trigger] later[k]),
                true,
            ) by {
                if p < k {
                    assert(in_order(instant_of(later[p]), instant_of(later[k]), true));
                }
            }
            lemma_insert_keeps_order(later, p, batch[0], true);
        }
    }
}

/// Whether `(events, watermark)` is what `select_new` returns for a batch
/// and a watermark.
pub open spec fn is_selection(
    batch: Seq<Event>,
    watermark: Option<Timestamp>,
    out: (Seq<Event>, Option<Timestamp>),
) -> bool {
    out.0 == selected(batch, watermark) && out.1 == advanced(batch, watermark)
}

/// Selecting is repeatable: two selections from the same batch and watermark
/// are the same events in the same order with the same new watermark.
pub proof fn lemma_selection_is_repeatable(
    batch: Seq<Event>,
    watermark: Option<Timestamp>,
    first: (Seq<Event>, Option<Timestamp>),
    second: (Seq<Event>, Option<Timestamp>),
)
    requires
        is_selection(batch, watermark, first),
        is_selection(batch, watermark, second),
    ensures
        first == second,
{
}

/// The watermark never moves back, moves strictly forward where the batch
/// holds something new, and stays where it holds nothing new.
pub proof fn lemma_watermark_is_monotonic(batch: Seq<Event>, watermark: Option<Timestamp>)
    ensures
        not_later(watermark, advanced(batch, watermark)),
        selected(batch, watermark).len() == 0 ==> advanced(batch, watermark) == watermark,
        selected(batch, watermark).len() > 0 ==> advanced(batch, watermark) is Some
            && advanced(batch, watermark) != watermark,
{
    lemma_selected_are_new(batch, watermark);
    let chosen = selected(batch, watermark);
    if chosen.len() > 0 {
        assert(is_new(chosen[chosen.len() - 1], watermark));
    }
}

} // verus!
