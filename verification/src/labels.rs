//! Label sets: what identifies a stream at the sink.

use crate::models::{text_or, Event};
use vstd::prelude::*;

verus! {

/// The labels that identify a stream at the sink.
#[derive(Clone, Debug, PartialEq, Eq)]
pub struct LabelSet {
    pub job: String,
    pub account_id: String,
    pub activity: String,
    pub activity_code: String,
}

/// A label set as plain text.
pub struct LabelSetView {
    pub job: Seq<char>,
    pub account_id: Seq<char>,
    pub activity: Seq<char>,
    pub activity_code: Seq<char>,
}

impl View for LabelSet {
    type V = LabelSetView;

    open spec fn view(&self) -> LabelSetView {
        LabelSetView {
            job: self.job@,
            account_id: self.account_id@,
            activity: self.activity@,
            activity_code: self.activity_code@,
        }
    }
}

/// The labels of an event: the connector's job name, the account (or
/// `unknown` where the event names none), and the activity's name and code.
pub open spec fn labels_of(e: Event) -> LabelSetView {
    LabelSetView {
        job: "netbird-events"@,
        account_id: text_or(e.account_id, "unknown"@),
        activity: e.activity@,
        activity_code: e.activity_code@,
    }
}

impl LabelSet {
    /// The label set of `event`.
    pub fn of_event(event: &Event) -> (r: LabelSet)
        ensures
            r@ == labels_of(*event),
    {
        let account_id = match &event.account_id {
            Some(a) => a.clone(),
            None => String::from_str("unknown"),
        };
        LabelSet {
            job: String::from_str("netbird-events"),
            account_id,
            activity: event.activity.clone(),
            activity_code: event.activity_code.clone(),
        }
    }

    /// The grouping key of this label set.
    pub fn key(&self) -> (r: String)
        ensures
            r@ == label_key(self@),
    {
        let mut out = String::from_str("{account_id=\"");
        append_escaped(&mut out, self.account_id.as_str());
        out.append("\",activity=\"");
        append_escaped(&mut out, self.activity.as_str());
        out.append("\",activity_code=\"");
        append_escaped(&mut out, self.activity_code.as_str());
        out.append("\",job=\"");
        append_escaped(&mut out, self.job.as_str());
        out.append("\"}");
        out
    }
}

/// How a character of a label value stands in the grouping key: a double
/// quote and a backslash behind a backslash, any other as it is.
pub open spec fn escaped_char(c: char) -> Seq<char> {
    if c == '"' || c == '\\' {
        seq!['\\', c]
    } else {
        seq![c]
    }
}

/// A label value as it stands in the grouping key.
pub open spec fn escaped(text: Seq<char>) -> Seq<char>
    decreases text.len(),
{
    if text.len() == 0 {
        Seq::empty()
    } else {
        escaped_char(text[0]) + escaped(text.drop_first())
    }
}

/// The grouping key of a label set: its `key="value"` pairs in key order,
/// comma-separated, in braces, each value escaped. Two label sets have the
/// same key only where they are the same.
pub open spec fn label_key(l: LabelSetView) -> Seq<char> {
    "{account_id=\""@ + escaped(l.account_id) + "\",activity=\""@ + escaped(l.activity)
        + "\",activity_code=\""@ + escaped(l.activity_code) + "\",job=\""@ + escaped(l.job)
        + "\"}"@
}

/// Escaping goes character by character.
proof fn lemma_escaped_push(text: Seq<char>, c: char)
    ensures
        escaped(text.push(c)) == escaped(text) + escaped_char(c),
    decreases text.len(),
{
    if text.len() == 0 {
        let rest = text.push(c).drop_first();
        assert(rest.len() == 0);
        assert(escaped(rest) =~= Seq::<char>::empty());
        assert(text.push(c)[0] == c);
        assert(escaped(text.push(c)) =~= escaped_char(c));
        assert(escaped(text) + escaped_char(c) =~= escaped_char(c));
    } else {
        lemma_escaped_push(text.drop_first(), c);
        assert(text.push(c).drop_first() =~= text.drop_first().push(c));
        assert(escaped(text.push(c)) =~= escaped(text) + escaped_char(c));
    }
}

/// Appends a label value as it stands in the grouping key.
fn append_escaped(out: &mut String, text: &str)
    ensures
        final(out)@ == old(out)@ + escaped(text@),
{
    let ghost start = out@;
    let n = text.unicode_len();
    let mut i: usize = 0;
    assert(text@.subrange(0, 0) =~= Seq::<char>::empty());
    while i < n
        invariant
            i <= n,
            n == text@.len(),
            out@ == start + escaped(text@.subrange(0, i as int)),
        decreases n - i,
    {
        let c = text.get_char(i);
        proof {
            reveal_strlit("\\\"");
            reveal_strlit("\\\\");
            lemma_escaped_push(text@.subrange(0, i as int), c);
            assert(text@.subrange(0, i + 1) =~= text@.subrange(0, i as int).push(c));
        }
        if c == '"' {
            out.append("\\\"");
            assert("\\\""@ =~= escaped_char(c));
        } else if c == '\\' {
            out.append("\\\\");
            assert("\\\\"@ =~= escaped_char(c));
        } else {
            out.append(text.substring_char(i, i + 1));
            assert(text@.subrange(i as int, i + 1) =~= escaped_char(c));
        }
        assert(out@ =~= start + escaped(text@.subrange(0, i + 1)));
        i = i + 1;
    }
    assert(text@.subrange(0, n as int) =~= text@);
}

/// What follows a common prefix is determined by the whole.
proof fn lemma_cancel_prefix(p: Seq<char>, x: Seq<char>, y: Seq<char>)
    requires
        p + x == p + y,
    ensures
        x == y,
{
    assert(x.len() == y.len()) by {
        assert((p + x).len() == p.len() + x.len());
        assert((p + y).len() == p.len() + y.len());
    }
    assert forall|i: int| 0 <= i < x.len() implies x[i] == y[i] by {
        assert((p + x)[p.len() + i] == x[i]);
        assert((p + y)[p.len() + i] == y[i]);
    }
    assert(x =~= y);
}

/// An escaped value starts with no double quote.
proof fn lemma_escaped_starts_unquoted(a: Seq<char>, t: Seq<char>)
    requires
        a.len() > 0,
    ensures
        (escaped(a) + t).len() > 0,
        (escaped(a) + t)[0] != '"',
        escaped(a) + t == escaped_char(a[0]) + (escaped(a.drop_first()) + t),
{
    assert(escaped(a) + t =~= escaped_char(a[0]) + (escaped(a.drop_first()) + t));
    assert((escaped(a) + t)[0] == escaped_char(a[0])[0]);
}

/// An escaped value that runs up to a double quote is determined by the
/// whole, and so is what follows it.
proof fn lemma_escaped_split(a1: Seq<char>, t1: Seq<char>, a2: Seq<char>, t2: Seq<char>)
    requires
        t1.len() > 0 && t1[0] == '"',
        t2.len() > 0 && t2[0] == '"',
        escaped(a1) + t1 == escaped(a2) + t2,
    ensures
        a1 == a2,
        t1 == t2,
    decreases a1.len(),
{
    let whole = escaped(a1) + t1;
    if a1.len() == 0 || a2.len() == 0 {
        if a1.len() > 0 {
            lemma_escaped_starts_unquoted(a1, t1);
            assert(escaped(a2) + t2 =~= t2);
        } else if a2.len() > 0 {
            lemma_escaped_starts_unquoted(a2, t2);
            assert(escaped(a1) + t1 =~= t1);
        }
        assert(a1 =~= a2);
        assert(escaped(a1) + t1 =~= t1);
        assert(escaped(a2) + t2 =~= t2);
    } else {
        let c1 = a1[0];
        let c2 = a2[0];
        let r1 = escaped(a1.drop_first()) + t1;
        let r2 = escaped(a2.drop_first()) + t2;
        lemma_escaped_starts_unquoted(a1, t1);
        lemma_escaped_starts_unquoted(a2, t2);
        assert((escaped_char(c1) + r1)[0] == escaped_char(c1)[0]);
        assert((escaped_char(c2) + r2)[0] == escaped_char(c2)[0]);
        if c1 == '"' || c1 == '\\' {
            assert((escaped_char(c1) + r1)[1] == c1);
            assert(c2 == '"' || c2 == '\\');
            assert((escaped_char(c2) + r2)[1] == c2);
        } else {
            assert(c2 != '"' && c2 != '\\');
        }
        assert(c1 == c2);
        lemma_cancel_prefix(escaped_char(c1), r1, r2);
        lemma_escaped_split(a1.drop_first(), t1, a2.drop_first(), t2);
        assert(a1 =~= seq![c1] + a1.drop_first());
        assert(a2 =~= seq![c2] + a2.drop_first());
    }
}

/// The grouping key tells label sets apart: two label sets have the same key
/// exactly where they are the same, whatever characters their values hold.
pub proof fn lemma_label_key_injective(a: LabelSetView, b: LabelSetView)
    ensures
        label_key(a) == label_key(b) <==> a == b,
{
    if label_key(a) == label_key(b) {
        reveal_strlit("{account_id=\"");
        reveal_strlit("\",activity=\"");
        reveal_strlit("\",activity_code=\"");
        reveal_strlit("\",job=\"");
        reveal_strlit("\"}");
        let p0 = "{account_id=\""@;
        let p1 = "\",activity=\""@;
        let p2 = "\",activity_code=\""@;
        let p3 = "\",job=\""@;
        let p4 = "\"}"@;
        let a4 = escaped(a.job) + p4;
        let a3 = escaped(a.activity_code) + (p3 + a4);
        let a2 = escaped(a.activity) + (p2 + a3);
        let a1 = escaped(a.account_id) + (p1 + a2);
        let b4 = escaped(b.job) + p4;
        let b3 = escaped(b.activity_code) + (p3 + b4);
        let b2 = escaped(b.activity) + (p2 + b3);
        let b1 = escaped(b.account_id) + (p1 + b2);
        assert(label_key(a) =~= p0 + a1);
        assert(label_key(b) =~= p0 + b1);
        lemma_cancel_prefix(p0, a1, b1);
        lemma_escaped_split(a.account_id, p1 + a2, b.account_id, p1 + b2);
        lemma_cancel_prefix(p1, a2, b2);
        lemma_escaped_split(a.activity, p2 + a3, b.activity, p2 + b3);
        lemma_cancel_prefix(p2, a3, b3);
        lemma_escaped_split(a.activity_code, p3 + a4, b.activity_code, p3 + b4);
        lemma_cancel_prefix(p3, a4, b4);
        lemma_escaped_split(a.job, p4, b.job, p4);
    }
}

} // verus!
