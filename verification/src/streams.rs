//! Partitioning a batch into streams of stamped log lines, one per label set.

use crate::labels::{label_key, labels_of, lemma_label_key_injective, LabelSet, LabelSetView};
use crate::models::{text_or, Event};
use crate::record::{log_line, render_log_line};
use crate::text::decimal_text;
use crate::timestamp::{line_nanos, timestamp_to_nanoseconds};
use vstd::prelude::*;

verus! {

/// One stream of a push: a label set and its stamped log lines in order.
#[derive(Clone, Debug, PartialEq, Eq)]
pub struct Stream {
    pub stream: LabelSet,
    pub values: Vec<(String, String)>,
}

/// A stream as plain text.
pub struct StreamView {
    pub stream: LabelSetView,
    pub values: Seq<(Seq<char>, Seq<char>)>,
}

impl View for Stream {
    type V = StreamView;

    open spec fn view(&self) -> StreamView {
        StreamView {
            stream: self.stream@,
            values: self.values@.map_values(|v: (String, String)| (v.0@, v.1@)),
        }
    }
}

/// All streams of one write to the sink.
#[derive(Clone, Debug, PartialEq, Eq)]
pub struct PushRequest {
    pub streams: Vec<Stream>,
}

impl View for PushRequest {
    type V = Seq<StreamView>;

    open spec fn view(&self) -> Seq<StreamView> {
        self.streams@.map_values(|s: Stream| s@)
    }
}

/// What one event contributes to a push.
pub struct Entry {
    pub labels: LabelSetView,
    pub stamp: Seq<char>,
    pub line: Seq<char>,
}

/// The contribution of `e`, stamped from its timestamp or, where that cannot
/// be read, from the clock reading `now`.
pub open spec fn entry_of(e: Event, now: i64) -> Entry {
    Entry {
        labels: labels_of(e),
        stamp: decimal_text(line_nanos(e.timestamp@, now) as int),
        line: log_line(e),
    }
}

/// The stamped line of `e`.
pub open spec fn entry_line(e: Event, now: i64) -> (Seq<char>, Seq<char>) {
    (entry_of(e, now).stamp, entry_of(e, now).line)
}

/// The contributions of a batch, in batch order.
pub open spec fn entries_of(events: Seq<Event>, now: i64) -> Seq<Entry> {
    events.map_values(|e: Event| entry_of(e, now))
}

/// Whether a stream with the label set `labels` is among `streams`.
pub open spec fn has_stream(streams: Seq<StreamView>, labels: LabelSetView) -> bool {
    exists|i: int| 0 <= i < streams.len() && (#[trigger] streams[i]).stream == labels
}

/// Whether `i` is the first stream with the label set `labels`.
pub open spec fn is_first_stream(streams: Seq<StreamView>, labels: LabelSetView, i: int) -> bool {
    &&& 0 <= i < streams.len()
    &&& streams[i].stream == labels
    &&& forall|j: int| 0 <= j < i ==> (#[trigger] streams[j]).stream != labels
}

/// The position of the first stream with the label set `labels`.
pub open spec fn stream_position(streams: Seq<StreamView>, labels: LabelSetView) -> int {
    choose|i: int| is_first_stream(streams, labels, i)
}

/// `streams` after taking in one contribution: its line joins the stream of
/// its label set, or opens a new stream at the end where there is none.
pub open spec fn place(streams: Seq<StreamView>, entry: Entry) -> Seq<StreamView> {
    if has_stream(streams, entry.labels) {
        let i = stream_position(streams, entry.labels);
        streams.update(
            i,
            StreamView {
                stream: streams[i].stream,
                values: streams[i].values.push((entry.stamp, entry.line)),
            },
        )
    } else {
        streams.push(StreamView { stream: entry.labels, values: seq![(entry.stamp, entry.line)] })
    }
}

/// The streams of a sequence of contributions, taken in one after the other.
pub open spec fn grouped(entries: Seq<Entry>) -> Seq<StreamView>
    decreases entries.len(),
{
    if entries.len() == 0 {
        Seq::empty()
    } else {
        place(grouped(entries.drop_last()), entries.last())
    }
}

/// Whether two label sets agree in all four labels.
fn same_labels(a: &LabelSet, b: &LabelSet) -> (r: bool)
    ensures
        r == (a@ == b@),
{
    a.job == b.job && a.account_id == b.account_id && a.activity == b.activity && a.activity_code
        == b.activity_code
}

/// Finds the first stream with the label set `labels`.
fn find_stream(streams: &Vec<Stream>, labels: &LabelSet) -> (r: Option<usize>)
    ensures
        r is Some <==> has_stream(streams@.map_values(|s: Stream| s@), labels@),
        r matches Some(i) ==> i < streams.len() && i as int == stream_position(
            streams@.map_values(|s: Stream| s@),
            labels@,
        ),
{
    let ghost views = streams@.map_values(|s: Stream| s@);
    let mut i: usize = 0;
    while i < streams.len()
        invariant
            i <= streams.len(),
            views == streams@.map_values(|s: Stream| s@),
            forall|j: int| 0 <= j < i ==> (#[trigger] views[j]).stream != labels@,
        decreases streams.len() - i,
    {
        assert(views[i as int] == streams[i as int]@);
        if same_labels(&streams[i].stream, labels) {
            proof {
                assert(is_first_stream(views, labels@, i as int));
                lemma_first_stream_is_unique(views, labels@, i as int);
            }
            return Some(i);
        }
        i = i + 1;
    }
    None
}

/// Partitions a batch into streams by label set and renders each event as a
/// stamped log line. Streams stand in the order in which their first event
/// occurs, lines in batch order. `now` stamps the events whose timestamp
/// cannot be read.
pub fn build_push_request(events: &Vec<Event>, now: i64) -> (request: PushRequest)
    ensures
        request@ == grouped(entries_of(events@, now)),
{
    let mut streams: Vec<Stream> = Vec::new();
    let mut n: usize = 0;
    while n < events.len()
        invariant
            n <= events.len(),
            streams@.map_values(|s: Stream| s@) == grouped(
                entries_of(events@, now).subrange(0, n as int),
            ),
        decreases events.len() - n,
    {
        let event = &events[n];
        let labels = LabelSet::of_event(event);
        let stamp = timestamp_to_nanoseconds(event.timestamp.as_str(), now);
        let line = render_log_line(event);
        let ghost before = streams@.map_values(|s: Stream| s@);
        let ghost entry = entry_of(*event, now);
        proof {
            let all = entries_of(events@, now);
            assert(all.subrange(0, n + 1).drop_last() == all.subrange(0, n as int));
            assert(all.subrange(0, n + 1).last() == entry);
        }
        match find_stream(&streams, &labels) {
            Some(i) => {
                let mut stream = streams.remove(i);
                stream.values.push((stamp, line));
                streams.insert(i, stream);
                proof {
                    let after = streams@.map_values(|s: Stream| s@);
                    assert(after[i as int].values == before[i as int].values.push(
                        (entry.stamp, entry.line),
                    ));
                    assert(after == place(before, entry));
                }
            },
            None => {
                let mut values: Vec<(String, String)> = Vec::new();
                values.push((stamp, line));
                streams.push(Stream { stream: labels, values });
                proof {
                    let after = streams@.map_values(|s: Stream| s@);
                    assert(after[after.len() - 1].values == seq![(entry.stamp, entry.line)]);
                    assert(after == place(before, entry));
                }
            },
        }
        n = n + 1;
    }
    proof {
        let all = entries_of(events@, now);
        assert(all.subrange(0, n as int) == all);
    }
    PushRequest { streams }
}

/// Whether no two of `streams` have the same label set.
pub open spec fn labels_distinct(streams: Seq<StreamView>) -> bool {
    forall|i: int, j: int|
        0 <= i < j < streams.len() ==> (#[trigger] streams[i]).stream != (
        #[trigger] streams[j]).stream
}

/// Whether some contribution among `entries` has the label set `labels`.
pub open spec fn has_entry(entries: Seq<Entry>, labels: LabelSetView) -> bool {
    exists|k: int| 0 <= k < entries.len() && (#[trigger] entries[k]).labels == labels
}

/// The stamped lines of the contributions with the label set `labels`, in
/// order.
pub open spec fn lines_of(entries: Seq<Entry>, labels: LabelSetView) -> Seq<
    (Seq<char>, Seq<char>),
> {
    entries.filter(|e: Entry| e.labels == labels).map_values(|e: Entry| (e.stamp, e.line))
}

/// The stream in which the contribution at `k` lands.
pub open spec fn stream_of(entries: Seq<Entry>, k: int) -> int {
    stream_position(grouped(entries), entries[k].labels)
}

/// Only one position is the first stream of a label set.
pub proof fn lemma_first_stream_is_unique(streams: Seq<StreamView>, labels: LabelSetView, i: int)
    requires
        is_first_stream(streams, labels, i),
    ensures
        stream_position(streams, labels) == i,
{
    let p = stream_position(streams, labels);
    assert(is_first_stream(streams, labels, p));
    if p < i {
        assert(streams[p].stream != labels);
    } else if i < p {
        assert(streams[i].stream != labels);
    }
}

/// Where a stream of the label set exists, its position is the first such
/// stream.
pub proof fn lemma_stream_position(streams: Seq<StreamView>, labels: LabelSetView)
    requires
        has_stream(streams, labels),
    ensures
        is_first_stream(streams, labels, stream_position(streams, labels)),
{
    let w = choose|i: int| 0 <= i < streams.len() && (#[trigger] streams[i]).stream == labels;
    lemma_first_stream_below(streams, labels, w);
}

/// At or below any stream of the label set stands a first one.
proof fn lemma_first_stream_below(streams: Seq<StreamView>, labels: LabelSetView, w: int)
    requires
        0 <= w < streams.len(),
        streams[w].stream == labels,
    ensures
        is_first_stream(streams, labels, stream_position(streams, labels)),
    decreases w,
{
    if exists|j: int| 0 <= j < w && (#[trigger] streams[j]).stream == labels {
        let j = choose|j: int| 0 <= j < w && (#[trigger] streams[j]).stream == labels;
        lemma_first_stream_below(streams, labels, j);
    } else {
        assert(is_first_stream(streams, labels, w));
    }
}

/// What taking in one contribution does to streams of distinct label sets:
/// the label sets stay distinct, the contribution's label set is the one that
/// may be new, and its line is the one that is added.
pub proof fn lemma_place(streams: Seq<StreamView>, entry: Entry)
    requires
        labels_distinct(streams),
    ensures
        labels_distinct(place(streams, entry)),
        forall|l: LabelSetView| #[trigger]
            has_stream(place(streams, entry), l) <==> has_stream(streams, l) || l == entry.labels,
        forall|i: int|
            0 <= i < streams.len() ==> (#[trigger] place(streams, entry)[i]).stream
                == streams[i].stream && place(streams, entry)[i].values == if streams[i].stream
                == entry.labels {
                streams[i].values.push((entry.stamp, entry.line))
            } else {
                streams[i].values
            },
        place(streams, entry).len() == if has_stream(streams, entry.labels) {
            streams.len()
        } else {
            streams.len() + 1
        },
        !has_stream(streams, entry.labels) ==> place(streams, entry).last() == (StreamView {
            stream: entry.labels,
            values: seq![(entry.stamp, entry.line)],
        }),
{
    let after = place(streams, entry);
    if has_stream(streams, entry.labels) {
        lemma_stream_position(streams, entry.labels);
    }
    let p = stream_position(streams, entry.labels);
    assert forall|i: int| 0 <= i < streams.len() implies (#[trigger] after[i]).stream
        == streams[i].stream && after[i].values == if streams[i].stream == entry.labels {
        streams[i].values.push((entry.stamp, entry.line))
    } else {
        streams[i].values
    } by {
        if has_stream(streams, entry.labels) && i != p {
            if i < p {
                assert(streams[i].stream != streams[p].stream);
            } else {
                assert(streams[p].stream != streams[i].stream);
            }
        }
    }
    assert forall|i: int, j: int| 0 <= i < j < after.len() implies (#[trigger] after[i]).stream
        != (#[trigger] after[j]).stream by {
        assert(after[i].stream == streams[i].stream);
        if j < streams.len() {
            assert(after[j].stream == streams[j].stream);
        }
    }
    assert forall|l: LabelSetView| #[trigger]
        has_stream(after, l) <==> has_stream(streams, l) || l == entry.labels by {
        if has_stream(after, l) {
            let i = choose|i: int| 0 <= i < after.len() && (#[trigger] after[i]).stream == l;
            if i < streams.len() {
                assert(streams[i].stream == l);
            }
        }
        if has_stream(streams, l) {
            let i = choose|i: int| 0 <= i < streams.len() && (#[trigger] streams[i]).stream == l;
            assert(after[i].stream == l);
        }
        if l == entry.labels {
            if has_stream(streams, l) {
                assert(after[p].stream == l);
            } else {
                assert(after[after.len() - 1].stream == l);
            }
        }
    }
}

/// Whether some contribution has the label set, before and after one more.
proof fn lemma_has_entry_step(entries: Seq<Entry>, l: LabelSetView)
    requires
        entries.len() > 0,
    ensures
        has_entry(entries, l) <==> has_entry(entries.drop_last(), l) || l == entries.last().labels,
{
    let before = entries.drop_last();
    if has_entry(entries, l) {
        let k = choose|k: int| 0 <= k < entries.len() && (#[trigger] entries[k]).labels == l;
        if k < before.len() {
            assert(before[k].labels == l);
        }
    }
    if has_entry(before, l) {
        let k = choose|k: int| 0 <= k < before.len() && (#[trigger] before[k]).labels == l;
        assert(entries[k].labels == l);
    }
    if l == entries.last().labels {
        assert(entries[entries.len() - 1].labels == l);
    }
}

/// The lines of a label set, before and after one more contribution.
proof fn lemma_lines_of_step(entries: Seq<Entry>, l: LabelSetView)
    requires
        entries.len() > 0,
    ensures
        lines_of(entries, l) == if entries.last().labels == l {
            lines_of(entries.drop_last(), l).push((entries.last().stamp, entries.last().line))
        } else {
            lines_of(entries.drop_last(), l)
        },
        !has_entry(entries.drop_last(), l) ==> lines_of(entries.drop_last(), l).len() == 0,
{
    reveal(Seq::filter);
    let keep = |e: Entry| e.labels == l;
    let before = entries.drop_last();
    assert(entries.filter(keep) == if keep(entries.last()) {
        before.filter(keep).push(entries.last())
    } else {
        before.filter(keep)
    });
    if !has_entry(before, l) {
        assert forall|m: int| 0 <= m < before.len() implies !keep(#[trigger] before[m]) by {
            assert(before[m].labels != l);
        }
        before.lemma_all_neg_filter_empty(keep);
    }
}

/// The streams of a sequence of contributions partition it by label set: no
/// two streams have the same label set, a label set has a stream exactly
/// where some contribution has it, and each stream holds the stamped lines of
/// the contributions of its label set, all of them, in their order.
pub proof fn lemma_grouped_partitions(entries: Seq<Entry>)
    ensures
        labels_distinct(grouped(entries)),
        forall|l: LabelSetView| #[trigger]
            has_stream(grouped(entries), l) <==> has_entry(entries, l),
        forall|i: int|
            0 <= i < grouped(entries).len() ==> (#[trigger] grouped(entries)[i]).values
                == lines_of(entries, grouped(entries)[i].stream),
    decreases entries.len(),
{
    if entries.len() > 0 {
        let before = entries.drop_last();
        let entry = entries.last();
        let streams = grouped(before);
        let after = grouped(entries);
        lemma_grouped_partitions(before);
        lemma_place(streams, entry);
        assert forall|l: LabelSetView| #[trigger]
            has_stream(after, l) <==> has_entry(entries, l) by {
            lemma_has_entry_step(entries, l);
        }
        assert forall|i: int| 0 <= i < after.len() implies (#[trigger] after[i]).values
            == lines_of(entries, after[i].stream) by {
            lemma_lines_of_step(entries, after[i].stream);
            if i < streams.len() {
                assert(streams[i].values == lines_of(before, streams[i].stream));
            } else {
                assert(!has_entry(before, entry.labels));
                assert(lines_of(before, entry.labels) =~= Seq::<(Seq<char>, Seq<char>)>::empty());
            }
        }
    }
}

/// Two contributions land in the same stream exactly where their label sets
/// are equal, which is where their grouping keys are equal. The stream a
/// contribution lands in carries its label set and holds its stamped line.
pub proof fn lemma_same_stream_iff_same_labels(entries: Seq<Entry>, i: int, j: int)
    requires
        0 <= i < entries.len(),
        0 <= j < entries.len(),
    ensures
        0 <= stream_of(entries, i) < grouped(entries).len(),
        grouped(entries)[stream_of(entries, i)].stream == entries[i].labels,
        grouped(entries)[stream_of(entries, i)].values.contains(
            (entries[i].stamp, entries[i].line),
        ),
        stream_of(entries, i) == stream_of(entries, j) <==> entries[i].labels == entries[j].labels,
        stream_of(entries, i) == stream_of(entries, j) <==> label_key(entries[i].labels)
            == label_key(entries[j].labels),
{
    lemma_grouped_partitions(entries);
    lemma_label_key_injective(entries[i].labels, entries[j].labels);
    let streams = grouped(entries);
    assert(has_entry(entries, entries[i].labels));
    assert(has_entry(entries, entries[j].labels));
    assert(has_stream(streams, entries[i].labels));
    assert(has_stream(streams, entries[j].labels));
    lemma_stream_position(streams, entries[i].labels);
    lemma_stream_position(streams, entries[j].labels);
    let keep = |e: Entry| e.labels == entries[i].labels;
    let kept = entries.filter(keep);
    entries.lemma_filter_contains(keep, i);
    let m = choose|m: int| 0 <= m < kept.len() && kept[m] == entries[i];
    assert(lines_of(entries, entries[i].labels)[m] == (entries[i].stamp, entries[i].line));
}

/// Two events have the same label set exactly where they agree in account
/// (with `unknown` for none), activity and activity code.
pub proof fn lemma_labels_agree(a: Event, b: Event)
    ensures
        labels_of(a) == labels_of(b) <==> text_or(a.account_id, "unknown"@) == text_or(
            b.account_id,
            "unknown"@,
        ) && a.activity@ == b.activity@ && a.activity_code@ == b.activity_code@,
{
}

/// Two events of a batch land in the same stream exactly where they agree in
/// account (with `unknown` for none), activity and activity code, whatever
/// characters these hold; and the stream an event lands in carries the
/// event's label set and holds the event's stamped line.
pub proof fn lemma_streams_go_by_labels(events: Seq<Event>, now: i64, i: int, j: int)
    requires
        0 <= i < events.len(),
        0 <= j < events.len(),
    ensures
        0 <= stream_of(entries_of(events, now), i) < grouped(entries_of(events, now)).len(),
        grouped(entries_of(events, now))[stream_of(entries_of(events, now), i)].stream
            == labels_of(events[i]),
        grouped(entries_of(events, now))[stream_of(entries_of(events, now), i)].values.contains(
            entry_line(events[i], now),
        ),
        stream_of(entries_of(events, now), i) == stream_of(entries_of(events, now), j)
            <==> text_or(events[i].account_id, "unknown"@) == text_or(
            events[j].account_id,
            "unknown"@,
        ) && events[i].activity@ == events[j].activity@ && events[i].activity_code@
            == events[j].activity_code@,
{
    lemma_same_stream_iff_same_labels(entries_of(events, now), i, j);
    lemma_labels_agree(events[i], events[j]);
}

} // verus!
