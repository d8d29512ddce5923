//! Stream parser for the interleaved device output: button-event frames
//! (`km.` + mask byte) and command responses terminated by the `>>> ` prompt.

use vstd::prelude::*;
use vstd::slice::slice_subrange;
use vstd::slice::slice_to_vec;

use crate::protocol::text::{
    bytes_to_text, find_byte, text_to_string, trim_bytes, trim_pad, trim_text, trim_ws, utf8_lossy,
};

verus! {

/// Byte `i` of the button-event prefix `km.`.
pub open spec fn km_byte(i: int) -> u8 {
    if i == 0 {
        0x6bu8
    } else if i == 1 {
        0x6du8
    } else {
        0x2eu8
    }
}

/// The button-event prefix `km.`.
pub open spec fn km_prefix() -> Seq<u8> {
    seq![0x6bu8, 0x6du8, 0x2eu8]
}

/// Byte `i` of the response prompt `>>> `.
pub open spec fn prompt_byte(i: int) -> u8 {
    if i < 3 {
        0x3eu8
    } else {
        0x20u8
    }
}

/// The response prompt `>>> `.
pub open spec fn prompt() -> Seq<u8> {
    seq![0x3eu8, 0x3eu8, 0x3eu8, 0x20u8]
}

/// Events emitted by the stream parser.
#[derive(Debug, Clone, PartialEq, Eq)]
pub enum ParseEvent {
    /// A button state change event (raw mask byte from `km.` prefix).
    ButtonEvent(u8),
    /// A complete command response (everything before the `>>> ` prompt).
    Response(Vec<u8>),
}

/// Mathematical value of a [`ParseEvent`].
pub enum EventModel {
    ButtonEvent(u8),
    Response(Seq<u8>),
}

impl View for ParseEvent {
    type V = EventModel;

    open spec fn view(&self) -> EventModel {
        match self {
            ParseEvent::ButtonEvent(b) => EventModel::ButtonEvent(*b),
            ParseEvent::Response(v) => EventModel::Response(v@),
        }
    }
}

/// The value of an optional event.
pub open spec fn opt_event(e: Option<ParseEvent>) -> Option<EventModel> {
    match e {
        Some(ev) => Some(ev@),
        None => None,
    }
}

/// Mathematical state of a [`StreamParser`]: how much of `km.` is matched,
/// the response bytes accumulated so far, and how much of `>>> ` is matched.
pub struct ParserModel {
    pub km: int,
    pub buf: Seq<u8>,
    pub pm: int,
}

/// The state of a freshly created (or reset) parser.
pub open spec fn initial_model() -> ParserModel {
    ParserModel { km: 0, buf: Seq::empty(), pm: 0 }
}

/// Well-formed parser states.
pub open spec fn model_wf(s: ParserModel) -> bool {
    &&& 0 <= s.km <= 3
    &&& 0 <= s.pm <= 3
    &&& s.pm <= s.buf.len()
}

/// Appending one byte to the response buffer and tracking the prompt.
pub open spec fn push_byte_step(s: ParserModel, byte: u8) -> (ParserModel, Option<EventModel>) {
    let buf = s.buf.push(byte);
    if byte == prompt_byte(s.pm) {
        if s.pm + 1 == 4 {
            (
                ParserModel { km: s.km, buf: Seq::empty(), pm: 0 },
                Some(EventModel::Response(buf.take(buf.len() - 4))),
            )
        } else {
            (ParserModel { km: s.km, buf: buf, pm: s.pm + 1 }, None)
        }
    } else if byte == 0x3eu8 {
        // Only reached after `>>>`: the last three bytes are still `>>>`.
        (ParserModel { km: s.km, buf: buf, pm: 3 }, None)
    } else {
        (ParserModel { km: s.km, buf: buf, pm: 0 }, None)
    }
}

/// The transition of the parser on one input byte: the new state and the
/// event completed by that byte, if any.
pub open spec fn feed_step(s: ParserModel, byte: u8) -> (ParserModel, Option<EventModel>) {
    if s.km == 3 {
        if byte < 0x20 {
            (ParserModel { km: 0, buf: s.buf, pm: s.pm }, Some(EventModel::ButtonEvent(byte)))
        } else if byte == 0x6bu8 {
            (ParserModel { km: 1, buf: s.buf + km_prefix(), pm: s.pm }, None)
        } else {
            push_byte_step(ParserModel { km: 0, buf: s.buf + km_prefix(), pm: s.pm }, byte)
        }
    } else if s.km > 0 {
        if byte == km_byte(s.km) {
            (ParserModel { km: s.km + 1, buf: s.buf, pm: s.pm }, None)
        } else {
            let flushed = ParserModel { km: 0, buf: s.buf + km_prefix().take(s.km), pm: s.pm };
            if byte == 0x6bu8 {
                (ParserModel { km: 1, buf: flushed.buf, pm: flushed.pm }, None)
            } else {
                push_byte_step(flushed, byte)
            }
        }
    } else if byte == 0x6bu8 {
        (ParserModel { km: 1, buf: s.buf, pm: s.pm }, None)
    } else {
        push_byte_step(s, byte)
    }
}

/// The events of an optional event, as a sequence.
pub open spec fn opt_seq(e: Option<EventModel>) -> Seq<EventModel> {
    match e {
        Some(ev) => seq![ev],
        None => Seq::empty(),
    }
}

/// Feeding a whole byte sequence, one byte after the other: the final state
/// and the events emitted, in order.
pub open spec fn feed_all(s: ParserModel, bytes: Seq<u8>) -> (ParserModel, Seq<EventModel>)
    decreases bytes.len(),
{
    if bytes.len() == 0 {
        (s, Seq::empty())
    } else {
        let (s1, evs) = feed_all(s, bytes.drop_last());
        let (s2, e) = feed_step(s1, bytes.last());
        (s2, evs + opt_seq(e))
    }
}


/// Every transition keeps the parser state well formed.
pub proof fn lemma_feed_step_wf(s: ParserModel, byte: u8)
    requires
        model_wf(s),
    ensures
        model_wf(feed_step(s, byte).0),
{
}

/// Feeding any byte sequence keeps the parser state well formed.
pub proof fn law_feed_all_wf(s: ParserModel, bytes: Seq<u8>)
    requires
        model_wf(s),
    ensures
        model_wf(feed_all(s, bytes).0),
    decreases bytes.len(),
{
    if bytes.len() > 0 {
        law_feed_all_wf(s, bytes.drop_last());
        lemma_feed_step_wf(feed_all(s, bytes.drop_last()).0, bytes.last());
    }
}

/// Feeding `a` and then `b` is feeding `a + b`: the parser is a left fold
/// over the input, and the events of the two parts are concatenated.
pub proof fn law_feed_all_append(s: ParserModel, a: Seq<u8>, b: Seq<u8>)
    ensures
        feed_all(s, a + b) == ({
            let (s1, e1) = feed_all(s, a);
            let (s2, e2) = feed_all(s1, b);
            (s2, e1 + e2)
        }),
    decreases b.len(),
{
    if b.len() == 0 {
        assert(a + b =~= a);
        let (s1, e1) = feed_all(s, a);
        assert(e1 + Seq::<EventModel>::empty() =~= e1);
    } else {
        assert((a + b).drop_last() =~= a + b.drop_last());
        assert((a + b).last() == b.last());
        law_feed_all_append(s, a, b.drop_last());
        let (s1, e1) = feed_all(s, a);
        let (s2, e2) = feed_all(s1, b.drop_last());
        let (s3, e3) = feed_step(s2, b.last());
        assert(e1 + e2 + opt_seq(e3) =~= e1 + (e2 + opt_seq(e3)));
    }
}

/// A button event (`km.` followed by a mask byte below 0x20) received
/// between response bytes is reported as that mask and leaves the pending
/// response untouched.
pub proof fn law_button_event_transparent(s: ParserModel, mask: u8)
    requires
        model_wf(s),
        s.km == 0,
        mask < 0x20,
    ensures
        feed_all(s, seq![0x6bu8, 0x6du8, 0x2eu8, mask]) == (s, seq![EventModel::ButtonEvent(mask)]),
{
    let bytes = seq![0x6bu8, 0x6du8, 0x2eu8, mask];
    assert(bytes.drop_last() =~= seq![0x6bu8, 0x6du8, 0x2eu8]);
    assert(bytes.drop_last().drop_last() =~= seq![0x6bu8, 0x6du8]);
    assert(bytes.drop_last().drop_last().drop_last() =~= seq![0x6bu8]);
    assert(bytes.drop_last().drop_last().drop_last().drop_last() =~= Seq::<u8>::empty());
    reveal_with_fuel(feed_all, 5);
    let evs = feed_all(s, bytes).1;
    assert(evs =~= seq![EventModel::ButtonEvent(mask)]);
}

/// Bytes other than `k` and `>` are appended to the pending response as they
/// are, and complete no event.
pub proof fn law_plain_bytes(s: ParserModel, r: Seq<u8>)
    requires
        s.km == 0,
        s.pm == 0,
        forall|i: int| 0 <= i < r.len() ==> r[i] != 0x6bu8 && r[i] != 0x3eu8,
    ensures
        feed_all(s, r) == (ParserModel { km: 0, buf: s.buf + r, pm: 0 }, Seq::<EventModel>::empty()),
    decreases r.len(),
{
    if r.len() == 0 {
        assert(s.buf + r =~= s.buf);
    } else {
        law_plain_bytes(s, r.drop_last());
        assert(r[r.len() - 1] != 0x6bu8 && r[r.len() - 1] != 0x3eu8);
        assert((s.buf + r.drop_last()).push(r.last()) =~= s.buf + r);
        let e: Seq<EventModel> = Seq::empty();
        assert(e + opt_seq(None) =~= e);
    }
}

/// The prompt `>>> ` closes the pending response: it is emitted without the
/// prompt and the parser returns to its initial state.
pub proof fn law_prompt_completes(s: ParserModel)
    requires
        s.km == 0,
        s.pm == 0,
    ensures
        feed_all(s, prompt()) == (initial_model(), seq![EventModel::Response(s.buf)]),
{
    let p = prompt();
    assert(p.drop_last() =~= seq![0x3eu8, 0x3eu8, 0x3eu8]);
    assert(p.drop_last().drop_last() =~= seq![0x3eu8, 0x3eu8]);
    assert(p.drop_last().drop_last().drop_last() =~= seq![0x3eu8]);
    assert(p.drop_last().drop_last().drop_last().drop_last() =~= Seq::<u8>::empty());
    reveal_with_fuel(feed_all, 5);
    let full = s.buf + p;
    assert(s.buf.push(0x3eu8).push(0x3eu8).push(0x3eu8).push(0x20u8) =~= full);
    assert(full.take(full.len() - 4) =~= s.buf);
    let (st, evs) = feed_all(s, p);
    assert(evs =~= seq![EventModel::Response(s.buf)]);
    assert(st.buf =~= initial_model().buf);
}

/// A command echo `km.` followed by a printable byte (other than `k` and
/// `>`) is no button event: all four bytes stay in the pending response.
pub proof fn law_echo_prefix(s: ParserModel, c: u8)
    requires
        s.km == 0,
        s.pm == 0,
        c >= 0x20,
        c != 0x6bu8,
        c != 0x3eu8,
    ensures
        feed_all(s, km_prefix().push(c)) == (
            ParserModel { km: 0, buf: s.buf + km_prefix().push(c), pm: 0 },
            Seq::<EventModel>::empty(),
        ),
{
    let bytes = km_prefix().push(c);
    assert(bytes.drop_last() =~= seq![0x6bu8, 0x6du8, 0x2eu8]);
    assert(bytes.drop_last().drop_last() =~= seq![0x6bu8, 0x6du8]);
    assert(bytes.drop_last().drop_last().drop_last() =~= seq![0x6bu8]);
    assert(bytes.drop_last().drop_last().drop_last().drop_last() =~= Seq::<u8>::empty());
    reveal_with_fuel(feed_all, 5);
    assert((s.buf + km_prefix()).push(c) =~= s.buf + bytes);
    let (st, evs) = feed_all(s, bytes);
    assert(evs =~= Seq::<EventModel>::empty());
}

/// A button event arriving in the middle of a response body is reported
/// first, and the response is emitted without the event frame.
pub proof fn law_interleaved_event(s: ParserModel, r1: Seq<u8>, mask: u8, r2: Seq<u8>)
    requires
        s.km == 0,
        s.pm == 0,
        mask < 0x20,
        forall|i: int| 0 <= i < r1.len() ==> r1[i] != 0x6bu8 && r1[i] != 0x3eu8,
        no_prompt_byte(r2),
        no_event_frame(r2),
    ensures
        feed_all(s, r1 + seq![0x6bu8, 0x6du8, 0x2eu8, mask] + r2 + prompt()) == (
            initial_model(),
            seq![EventModel::ButtonEvent(mask), EventModel::Response(s.buf + r1 + r2)],
        ),
{
    let ev = seq![0x6bu8, 0x6du8, 0x2eu8, mask];
    let s1 = ParserModel { km: 0, buf: s.buf + r1, pm: 0 };
    law_feed_all_append(s, r1, ev);
    law_plain_bytes(s, r1);
    law_button_event_transparent(s1, mask);
    law_feed_all_append(s, r1 + ev, r2 + prompt());
    law_response_body(s1, r2);
    assert(r1 + ev + r2 + prompt() =~= (r1 + ev) + (r2 + prompt()));
    let e: Seq<EventModel> = Seq::empty();
    assert(e + seq![EventModel::ButtonEvent(mask)] =~= seq![EventModel::ButtonEvent(mask)]);
    assert(seq![EventModel::ButtonEvent(mask)] + seq![EventModel::Response(s1.buf + r2)] =~= seq![
        EventModel::ButtonEvent(mask),
        EventModel::Response(s.buf + r1 + r2),
    ]);
}


/// No `>` occurs in `r`.
pub open spec fn no_prompt_byte(r: Seq<u8>) -> bool {
    forall|i: int| 0 <= i < r.len() ==> r[i] != 0x3eu8
}

/// At position `i` of `r` stands `km.` followed by a byte below 0x20.
pub open spec fn event_frame_at(r: Seq<u8>, i: int) -> bool {
    &&& 0 <= i
    &&& i + 3 < r.len()
    &&& r[i] == 0x6bu8
    &&& r[i + 1] == 0x6du8
    &&& r[i + 2] == 0x2eu8
    &&& r[i + 3] < 0x20
}

/// No `km.` in `r` is followed by a byte below 0x20, so `r` holds no
/// button-event frame.
pub open spec fn no_event_frame(r: Seq<u8>) -> bool {
    forall|i: int| !#[trigger] event_frame_at(r, i)
}

/// While a body free of `>` and of event frames is fed, no event is emitted,
/// no prompt byte is matched, and the bytes so far are in the buffer except
/// for a pending partial `km.` at the end.
proof fn lemma_body_prefix(s: ParserModel, r: Seq<u8>, k: int)
    requires
        s.km == 0,
        s.pm == 0,
        no_prompt_byte(r),
        no_event_frame(r),
        0 <= k <= r.len(),
    ensures
        ({
            let (st, evs) = feed_all(s, r.take(k));
            &&& evs == Seq::<EventModel>::empty()
            &&& st.pm == 0
            &&& 0 <= st.km <= 3
            &&& st.km <= k
            &&& forall|j: int| 0 <= j < st.km ==> r[k - st.km + j] == km_byte(j)
            &&& st.buf == s.buf + r.take(k - st.km)
        }),
    decreases k,
{
    if k == 0 {
        assert(r.take(0) =~= Seq::<u8>::empty());
        assert(s.buf + r.take(0) =~= s.buf);
    } else {
        lemma_body_prefix(s, r, k - 1);
        assert(r.take(k).drop_last() =~= r.take(k - 1));
        assert(r.take(k).last() == r[k - 1]);
        let (st, evs) = feed_all(s, r.take(k - 1));
        let b = r[k - 1];
        let kk = st.km;
        assert(b != 0x3eu8);
        let (st2, e) = feed_step(st, b);
        assert(feed_all(s, r.take(k)) == (st2, evs + opt_seq(e)));
        if kk == 3 {
            assert(r[k - 4] == 0x6bu8 && r[k - 3] == 0x6du8 && r[k - 2] == 0x2eu8) by {
                assert(r[k - 1 - 3 + 0] == km_byte(0));
                assert(r[k - 1 - 3 + 1] == km_byte(1));
                assert(r[k - 1 - 3 + 2] == km_byte(2));
            }
            assert(!event_frame_at(r, k - 4));
            assert(b >= 0x20);
            assert(st.buf + km_prefix() =~= s.buf + r.take(k - 1)) by {
                assert forall|j: int| 0 <= j < 3 implies r.take(k - 1)[k - 4 + j] == km_prefix()[j] by {
                    assert(r[k - 1 - 3 + j] == km_byte(j));
                }
            }
            if b != 0x6bu8 {
                assert((s.buf + r.take(k - 1)).push(b) =~= s.buf + r.take(k));
            }
        } else if kk > 0 {
            if b == km_byte(kk) {
                assert(r.take(k - 1 - kk) =~= r.take(k - (kk + 1)));
                assert forall|j: int| 0 <= j < kk + 1 implies r[k - (kk + 1) + j] == km_byte(j) by {
                    if j < kk {
                        assert(r[k - 1 - kk + j] == km_byte(j));
                    }
                }
            } else {
                assert(st.buf + km_prefix().take(kk) =~= s.buf + r.take(k - 1)) by {
                    assert forall|j: int| 0 <= j < kk implies r.take(k - 1)[k - 1 - kk + j]
                        == km_prefix().take(kk)[j] by {
                        assert(r[k - 1 - kk + j] == km_byte(j));
                    }
                }
                if b != 0x6bu8 {
                    assert((s.buf + r.take(k - 1)).push(b) =~= s.buf + r.take(k));
                }
            }
        } else {
            if b != 0x6bu8 {
                assert((s.buf + r.take(k - 1)).push(b) =~= s.buf + r.take(k));
            }
        }
        assert(evs + opt_seq(e) =~= Seq::<EventModel>::empty());
    }
}

/// After a body whose bytes (with the pending partial `km.`) make `full`, the
/// prompt emits `full` as one response and resets the parser.
proof fn lemma_prompt_after_body(st: ParserModel, full: Seq<u8>)
    requires
        st.pm == 0,
        0 <= st.km <= 3,
        st.buf + km_prefix().take(st.km) == full,
    ensures
        feed_all(st, prompt()) == (initial_model(), seq![EventModel::Response(full)]),
{
    let s1 = ParserModel { km: 0, buf: full.push(0x3eu8), pm: 1 };
    assert(feed_step(st, 0x3eu8) == (s1, Option::<EventModel>::None)) by {
        if st.km == 0 {
            assert(km_prefix().take(0) =~= Seq::<u8>::empty());
            assert(st.buf =~= full);
        } else if st.km == 3 {
            assert(km_prefix().take(3) =~= km_prefix());
        }
    }
    let p = prompt();
    assert(p.drop_last() =~= seq![0x3eu8, 0x3eu8, 0x3eu8]);
    assert(p.drop_last().drop_last() =~= seq![0x3eu8, 0x3eu8]);
    assert(p.drop_last().drop_last().drop_last() =~= seq![0x3eu8]);
    assert(p.drop_last().drop_last().drop_last().drop_last() =~= Seq::<u8>::empty());
    reveal_with_fuel(feed_all, 5);
    let whole = full.push(0x3eu8).push(0x3eu8).push(0x3eu8).push(0x20u8);
    assert(whole.take(whole.len() - 4) =~= full);
    let (fin, evs) = feed_all(st, p);
    assert(evs =~= seq![EventModel::Response(full)]);
    assert(fin.buf =~= initial_model().buf);
}

/// A response body with no `>` and no button-event frame (`km.` followed by
/// a byte below 0x20), followed by the prompt, is emitted as exactly one
/// response holding the pending bytes and the body; the parser is then in its
/// initial state. Command echoes such as `km.left(1)` are such bodies.
pub proof fn law_response_body(s: ParserModel, r: Seq<u8>)
    requires
        s.km == 0,
        s.pm == 0,
        no_prompt_byte(r),
        no_event_frame(r),
    ensures
        feed_all(s, r + prompt()) == (initial_model(), seq![EventModel::Response(s.buf + r)]),
{
    law_feed_all_append(s, r, prompt());
    lemma_body_prefix(s, r, r.len() as int);
    assert(r.take(r.len() as int) =~= r);
    let (st, evs) = feed_all(s, r);
    assert(st.buf + km_prefix().take(st.km) =~= s.buf + r) by {
        assert forall|j: int| 0 <= j < st.km implies r[r.len() - st.km + j] == km_prefix().take(
            st.km,
        )[j] by {
            assert(r[r.len() - st.km + j] == km_byte(j));
            assert(km_prefix().take(st.km)[j] == km_prefix()[j]);
            assert(0 <= j < 3);
        }
    }
    lemma_prompt_after_body(st, s.buf + r);
    assert(evs + seq![EventModel::Response(s.buf + r)] =~= seq![EventModel::Response(s.buf + r)]);
}

/// Bodies each followed by the prompt.
pub open spec fn framed(bodies: Seq<Seq<u8>>) -> Seq<u8>
    decreases bodies.len(),
{
    if bodies.len() == 0 {
        Seq::empty()
    } else {
        framed(bodies.drop_last()) + bodies.last() + prompt()
    }
}

/// One response event per body, in order.
pub open spec fn response_events(bodies: Seq<Seq<u8>>) -> Seq<EventModel> {
    bodies.map_values(|b: Seq<u8>| EventModel::Response(b))
}

/// A stream of responses, each free of `>` and of button-event frames and
/// closed by the prompt, is split into exactly those responses, in order:
/// none lost, duplicated or reordered.
pub proof fn law_responses_framing(bodies: Seq<Seq<u8>>)
    requires
        forall|i: int|
            0 <= i < bodies.len() ==> no_prompt_byte(#[trigger] bodies[i]) && no_event_frame(
                bodies[i],
            ),
    ensures
        feed_all(initial_model(), framed(bodies)) == (initial_model(), response_events(bodies)),
    decreases bodies.len(),
{
    if bodies.len() == 0 {
        assert(response_events(bodies) =~= Seq::<EventModel>::empty());
    } else {
        let init = bodies.drop_last();
        let last = bodies.last();
        assert(no_prompt_byte(bodies[bodies.len() - 1]));
        law_responses_framing(init);
        assert(framed(bodies) =~= framed(init) + (last + prompt()));
        law_feed_all_append(initial_model(), framed(init), last + prompt());
        law_response_body(initial_model(), last);
        assert(initial_model().buf + last =~= last);
        assert(response_events(init) + seq![EventModel::Response(last)] =~= response_events(
            bodies,
        ));
    }
}


/// Every button-event frame is reported, whatever state the parser is in:
/// `km.` followed by a mask below 0x20 emits exactly that mask. A partial
/// `km.` pending before the frame goes to the response buffer, and the
/// prompt match is untouched.
pub proof fn law_frame_reported(s: ParserModel, mask: u8)
    requires
        model_wf(s),
        mask < 0x20,
    ensures
        feed_all(s, seq![0x6bu8, 0x6du8, 0x2eu8, mask]) == (
            ParserModel { km: 0, buf: s.buf + km_prefix().take(s.km), pm: s.pm },
            seq![EventModel::ButtonEvent(mask)],
        ),
{
    let bytes = seq![0x6bu8, 0x6du8, 0x2eu8, mask];
    assert(bytes.drop_last() =~= seq![0x6bu8, 0x6du8, 0x2eu8]);
    assert(bytes.drop_last().drop_last() =~= seq![0x6bu8, 0x6du8]);
    assert(bytes.drop_last().drop_last().drop_last() =~= seq![0x6bu8]);
    assert(bytes.drop_last().drop_last().drop_last().drop_last() =~= Seq::<u8>::empty());
    reveal_with_fuel(feed_all, 5);
    if s.km == 0 {
        assert(s.buf + km_prefix().take(0) =~= s.buf);
    } else if s.km == 3 {
        assert(km_prefix().take(3) =~= km_prefix());
    }
    let evs = feed_all(s, bytes).1;
    assert(evs =~= seq![EventModel::ButtonEvent(mask)]);
}

/// Wherever a button-event frame falls in the stream, its mask is reported:
/// feeding the mask byte that follows `km.` returns that mask as a button
/// event, and the whole frame adds exactly that event after the events of
/// the bytes before it.
pub proof fn law_frame_reported_anywhere(a: Seq<u8>, mask: u8)
    requires
        mask < 0x20,
    ensures
        feed_step(feed_all(initial_model(), a + km_prefix()).0, mask).1 == Some(
            EventModel::ButtonEvent(mask),
        ),
        feed_all(initial_model(), a + seq![0x6bu8, 0x6du8, 0x2eu8, mask]).1 == feed_all(
            initial_model(),
            a,
        ).1 + seq![EventModel::ButtonEvent(mask)],
{
    let frame = seq![0x6bu8, 0x6du8, 0x2eu8, mask];
    law_feed_all_append(initial_model(), a, frame);
    law_feed_all_wf(initial_model(), a);
    let st = feed_all(initial_model(), a).0;
    law_frame_reported(st, mask);
    law_feed_all_append(initial_model(), a, km_prefix());
    let km = km_prefix();
    assert(km.drop_last() =~= seq![0x6bu8, 0x6du8]);
    assert(km.drop_last().drop_last() =~= seq![0x6bu8]);
    assert(km.drop_last().drop_last().drop_last() =~= Seq::<u8>::empty());
    reveal_with_fuel(feed_all, 4);
    assert(feed_all(st, km).0.km == 3);
}

/// The number of `km.` bytes the parser holds as matched are the last bytes
/// fed.
proof fn lemma_km_suffix(s0: ParserModel, a: Seq<u8>)
    requires
        s0.km == 0,
    ensures
        ({
            let st = feed_all(s0, a).0;
            &&& st.km <= a.len()
            &&& forall|j: int| 0 <= j < st.km ==> a[a.len() - st.km + j] == km_byte(j)
        }),
    decreases a.len(),
{
    if a.len() > 0 {
        lemma_km_suffix(s0, a.drop_last());
        let st = feed_all(s0, a.drop_last()).0;
        let st2 = feed_all(s0, a).0;
        assert(st2 == feed_step(st, a.last()).0);
        assert forall|j: int| 0 <= j < st2.km implies a[a.len() - st2.km + j] == km_byte(j) by {
            if j < st2.km - 1 {
                assert(a.drop_last()[a.len() - 1 - st.km + j] == km_byte(j));
            }
        }
    }
}

/// A button event is only ever reported for the byte right after `km.`, and
/// only when that byte is below 0x20: no bare byte below 0x20 (such as the
/// CR or LF of a response) is taken for a mask.
pub proof fn law_events_only_after_prefix(a: Seq<u8>, b: u8)
    ensures
        feed_step(feed_all(initial_model(), a).0, b).1 matches Some(EventModel::ButtonEvent(m))
            ==> a.len() >= 3 && a.skip(a.len() - 3) == km_prefix() && m == b && b < 0x20,
{
    lemma_km_suffix(initial_model(), a);
    let st = feed_all(initial_model(), a).0;
    if feed_step(st, b).1 matches Some(EventModel::ButtonEvent(m)) {
        assert(st.km == 3);
        assert(a.skip(a.len() - 3) =~= km_prefix()) by {
            assert(a[a.len() - 3 + 0] == km_byte(0));
            assert(a[a.len() - 3 + 1] == km_byte(1));
            assert(a[a.len() - 3 + 2] == km_byte(2));
        }
    }
}

/// After `reset` a parser behaves as a new one: whatever it held before,
/// feeding it any bytes gives, call by call, the same events and the same
/// state as feeding them to a parser made by `new`.
pub proof fn law_reset_like_new(reset: StreamParser, fresh: StreamParser, s: Seq<u8>)
    requires
        reset.wf(),
        reset@ == initial_model(),
        fresh.wf(),
        fresh@ == initial_model(),
    ensures
        forall|i: int|
            0 <= i < s.len() ==> #[trigger] feed_step(feed_all(reset@, s.take(i)).0, s[i])
                == feed_step(feed_all(fresh@, s.take(i)).0, s[i]),
        feed_all(reset@, s) == feed_all(fresh@, s),
{
}

/// State machine that parses the interleaved device stream.
///
/// Handles:
/// - `km.` prefix detection for button events (mask byte follows)
/// - `>>> ` prompt detection for command response boundaries
/// - Interleaved button events and command responses
pub struct StreamParser {
    /// How many bytes of "km." we've matched (0-3).
    km_matched: usize,
    /// Accumulated response bytes (between prompts).
    response_buf: Vec<u8>,
    /// How many bytes of ">>> " we've matched (0-3 between calls).
    prompt_matched: usize,
}

impl View for StreamParser {
    type V = ParserModel;

    closed spec fn view(&self) -> ParserModel {
        ParserModel {
            km: self.km_matched as int,
            buf: self.response_buf@,
            pm: self.prompt_matched as int,
        }
    }
}

impl StreamParser {
    /// The parser's counters are in range and the prompt match never exceeds
    /// the buffered bytes.
    pub open spec fn wf(&self) -> bool {
        model_wf(self@)
    }

    pub fn new() -> (p: Self)
        ensures
            p.wf(),
            p@ == initial_model(),
    {
        Self { km_matched: 0, response_buf: Vec::with_capacity(256), prompt_matched: 0 }
    }

    /// Feed a single byte into the parser. Returns an event if one is complete.
    pub fn feed(&mut self, byte: u8) -> (r: Option<ParseEvent>)
        requires
            old(self).wf(),
        ensures
            final(self).wf(),
            (final(self)@, opt_event(r)) == feed_step(old(self)@, byte),
    {
        // State: we've matched the full "km." prefix, this byte is the mask.
        if self.km_matched == 3 {
            self.km_matched = 0;
            // Distinguish button mask (< 0x20) from command echo (>= 0x20).
            if byte < 0x20 {
                return Some(ParseEvent::ButtonEvent(byte));
            }
            // False positive: flush "km." to the response buffer.
            let km: [u8; 3] = [0x6b, 0x6d, 0x2e];
            self.push_response_bytes(km.as_slice());
            proof {
                assert(km@ =~= km_prefix());
            }
            // This byte may start a new "km." match.
            if byte == 0x6b {
                self.km_matched = 1;
                return None;
            }
            return self.push_response_byte(byte);
        }
        // State: partially matching the "km." prefix.
        if self.km_matched > 0 {
            let expected: u8 = if self.km_matched == 1 {
                0x6d
            } else {
                0x2e
            };
            if byte == expected {
                self.km_matched = self.km_matched + 1;
                return None;
            }
            // Mismatch: flush the partial "km" to the response buffer.
            let km: [u8; 3] = [0x6b, 0x6d, 0x2e];
            let partial = slice_subrange(km.as_slice(), 0, self.km_matched);
            proof {
                assert(partial@ =~= km_prefix().take(self.km_matched as int));
            }
            self.km_matched = 0;
            self.push_response_bytes(partial);
            // Check whether the current byte starts a new "km." match.
            if byte == 0x6b {
                self.km_matched = 1;
                return None;
            }
            return self.push_response_byte(byte);
        }
        // State: normal; check whether this byte starts the "km." prefix.
        if byte == 0x6b {
            self.km_matched = 1;
            return None;
        }
        // Normal byte: add to the response buffer and check for the prompt.
        self.push_response_byte(byte)
    }

    /// Push a single byte to the response buffer and check for prompt completion.
    fn push_response_byte(&mut self, byte: u8) -> (r: Option<ParseEvent>)
        requires
            old(self).wf(),
        ensures
            final(self).wf(),
            (final(self)@, opt_event(r)) == push_byte_step(old(self)@, byte),
    {
        self.response_buf.push(byte);
        let expected: u8 = if self.prompt_matched < 3 {
            0x3e
        } else {
            0x20
        };
        if byte == expected {
            if self.prompt_matched + 1 == 4 {
                // Complete prompt found: emit the response.
                let len = self.response_buf.len() - 4;
                let response = slice_to_vec(slice_subrange(self.response_buf.as_slice(), 0, len));
                self.prompt_matched = 0;
                self.response_buf.clear();
                return Some(ParseEvent::Response(response));
            }
            self.prompt_matched = self.prompt_matched + 1;
        } else if byte == 0x3e {
            // A `>` after `>>>`: the last three bytes are still `>>>`.
            self.prompt_matched = 3;
        } else {
            self.prompt_matched = 0;
        }
        None
    }

    /// Push multiple bytes to the response buffer, without prompt tracking.
    fn push_response_bytes(&mut self, bytes: &[u8])
        requires
            old(self).wf(),
        ensures
            final(self).wf(),
            final(self)@ == (ParserModel {
                km: old(self)@.km,
                buf: old(self)@.buf + bytes@,
                pm: old(self)@.pm,
            }),
    {
        let ghost start = self.response_buf@;
        let mut i: usize = 0;
        while i < bytes.len()
            invariant
                0 <= i <= bytes@.len(),
                self.km_matched == old(self).km_matched,
                self.prompt_matched == old(self).prompt_matched,
                self.response_buf@ == start + bytes@.take(i as int),
                start == old(self)@.buf,
                model_wf(self@),
            decreases bytes@.len() - i,
        {
            self.response_buf.push(bytes[i]);
            proof {
                assert(bytes@.take(i + 1) =~= bytes@.take(i as int).push(bytes@[i as int]));
            }
            i = i + 1;
        }
        proof {
            assert(bytes@.take(i as int) =~= bytes@);
        }
    }

    /// Reset parser state (e.g. on reconnection).
    pub fn reset(&mut self)
        ensures
            final(self).wf(),
            final(self)@ == initial_model(),
    {
        self.km_matched = 0;
        self.prompt_matched = 0;
        self.response_buf.clear();
    }
}


/// Classification of a raw response body.
#[derive(Debug, Clone, PartialEq, Eq)]
pub enum ResponseKind {
    /// No body — command executed, prompt returned immediately.
    Executed,
    /// Multi-line: echo + value. The value string is extracted.
    Value(String),
    /// Single line — might be just an echo or a value without echo.
    /// Caller must compare with sent command to disambiguate.
    ValueOrEcho(String),
}

/// Mathematical value of a [`ResponseKind`].
pub enum ResponseKindModel {
    Executed,
    Value(Seq<char>),
    ValueOrEcho(Seq<char>),
}

impl View for ResponseKind {
    type V = ResponseKindModel;

    open spec fn view(&self) -> ResponseKindModel {
        match self {
            ResponseKind::Executed => ResponseKindModel::Executed,
            ResponseKind::Value(v) => ResponseKindModel::Value(v@),
            ResponseKind::ValueOrEcho(v) => ResponseKindModel::ValueOrEcho(v@),
        }
    }
}

/// What a raw response body means: after trimming CR, LF and spaces, an empty
/// body is `Executed`; a body with a line feed carries its value after the
/// first line feed; a single line is a value or an echo.
pub open spec fn classify_spec(raw: Seq<u8>) -> ResponseKindModel {
    let body = trim_pad(raw);
    if body.len() == 0 {
        ResponseKindModel::Executed
    } else {
        match body.index_of_first(0x0au8) {
            Some(nl) => ResponseKindModel::Value(trim_ws(utf8_lossy(body.skip(nl + 1)))),
            None => ResponseKindModel::ValueOrEcho(trim_ws(utf8_lossy(body))),
        }
    }
}

/// Parse a raw response buffer into a classified result.
pub fn classify_response(raw: &[u8]) -> (r: ResponseKind)
    ensures
        r@ == classify_spec(raw@),
{
    let body = trim_bytes(raw);
    if body.len() == 0 {
        return ResponseKind::Executed;
    }
    let text = bytes_to_text(body);
    // If there's a newline: first line is the echo, rest is the return value.
    if let Some(nl) = find_byte(body, 0x0a) {
        proof {
            body@.index_of_first_ensures(0x0au8);
        }
        let rest = slice_subrange(body, nl + 1, body.len());
        proof {
            assert(rest@ =~= body@.skip(nl + 1));
        }
        let value = bytes_to_text(rest);
        return ResponseKind::Value(text_to_string(trim_text(value.as_str())));
    }
    // Single line: an echo, or a value without echo (the version query).
    ResponseKind::ValueOrEcho(text_to_string(trim_text(text.as_str())))
}

} // verus!
