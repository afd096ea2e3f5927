//! The order-preserving rewrite driver.
//!
//! Matches are consumed in non-decreasing start-offset order. The emit
//! cursor is monotonic: before each recognized span the untouched bytes are
//! copied verbatim, the span itself is replaced by directive output, and a
//! span that starts before the cursor aborts the run. After the last match
//! the remaining bytes are copied through unchanged.

use vstd::prelude::*;

use crate::directive::{directive_of, Directive};
use crate::order::OrderError;
use crate::replace::{rep_ok, replacement};
use crate::synth::RngHandle;

verus! {

/// One capture produced by evaluating the user query: its label and the
/// matched node's byte range.
pub struct Capture {
    pub label: String,
    pub start: usize,
    pub end: usize,
}

pub ghost struct CaptureView {
    pub label: Seq<char>,
    pub start: int,
    pub end: int,
}

impl View for Capture {
    type V = CaptureView;

    open spec fn view(&self) -> CaptureView {
        CaptureView { label: self.label@, start: self.start as int, end: self.end as int }
    }
}

pub open spec fn caps_view(s: Seq<Capture>) -> Seq<CaptureView> {
    Seq::new(s.len(), |i: int| s[i]@)
}

/// A capture whose label names a directive; only these are rewritten.
pub open spec fn is_active(c: CaptureView) -> bool {
    directive_of(c.label) is Some
}

/// Every capture's byte range lies within the input.
pub open spec fn wf_captures(cs: Seq<CaptureView>, len: int) -> bool {
    forall|i: int|
        0 <= i < cs.len() ==> 0 <= #[trigger] cs[i].start && cs[i].start <= cs[i].end && cs[i].end
            <= len
}

/// The active captures appear in non-decreasing order and never overlap,
/// starting from cursor position `cur`.
pub open spec fn ok_order(cs: Seq<CaptureView>, cur: int) -> bool
    decreases cs.len(),
{
    if cs.len() == 0 {
        true
    } else if !is_active(cs[0]) {
        ok_order(cs.skip(1), cur)
    } else {
        cur <= cs[0].start && ok_order(cs.skip(1), cs[0].end)
    }
}

/// Some active capture selects the Order directive.
pub open spec fn has_order_directive(cs: Seq<CaptureView>) -> bool {
    exists|i: int| 0 <= i < cs.len() && directive_of(#[trigger] cs[i].label) == Some(
        Directive::Order,
    )
}

/// No capture selects any directive: the rewrite is a verbatim copy.
pub open spec fn all_inactive(cs: Seq<CaptureView>) -> bool {
    forall|i: int| 0 <= i < cs.len() ==> !is_active(#[trigger] cs[i])
}

/// `out` is a correct rewrite of `input` from cursor `cur` under the
/// captures `cs`: the bytes between spans are copied verbatim in order,
/// each active span contributes directive-shaped replacement bytes in its
/// place, and the tail after the last span is copied verbatim. Every input
/// byte is covered exactly once — by the copied segments or by exactly one
/// replaced span — with no gaps and no overlaps.
pub open spec fn is_rewrite(input: Seq<u8>, cs: Seq<CaptureView>, cur: int, out: Seq<u8>) -> bool
    decreases cs.len(),
{
    if cs.len() == 0 {
        out == input.subrange(cur, input.len() as int)
    } else if !is_active(cs[0]) {
        is_rewrite(input, cs.skip(1), cur, out)
    } else {
        exists|rep: Seq<u8>, rest: Seq<u8>|
            #![all_triggers]
            {
                &&& out == input.subrange(cur, cs[0].start) + rep + rest
                &&& rep_ok(directive_of(cs[0].label)->Some_0, rep)
                &&& is_rewrite(input, cs.skip(1), cs[0].end, rest)
            }
    }
}

proof fn lemma_rewrite_step(
    input: Seq<u8>,
    cs: Seq<CaptureView>,
    cur: int,
    rep: Seq<u8>,
    rest: Seq<u8>,
)
    requires
        cs.len() > 0,
        is_active(cs[0]),
        rep_ok(directive_of(cs[0].label)->Some_0, rep),
        is_rewrite(input, cs.skip(1), cs[0].end, rest),
    ensures
        is_rewrite(input, cs, cur, input.subrange(cur, cs[0].start) + rep + rest),
{
    let out = input.subrange(cur, cs[0].start) + rep + rest;
    assert(exists|rep2: Seq<u8>, rest2: Seq<u8>|
        #![all_triggers]
        {
            &&& out == input.subrange(cur, cs[0].start) + rep2 + rest2
            &&& rep_ok(directive_of(cs[0].label)->Some_0, rep2)
            &&& is_rewrite(input, cs.skip(1), cs[0].end, rest2)
        });
}

/// The verbatim byte ranges of a rewrite: the gaps between active spans
/// and the tail after the last one. They depend only on the captures and
/// the input length, never on the replacement content or the randomness.
pub open spec fn verbatim_ranges(cs: Seq<CaptureView>, cur: int, len: int) -> Seq<(int, int)>
    decreases cs.len(),
{
    if cs.len() == 0 {
        seq![(cur, len)]
    } else if !is_active(cs[0]) {
        verbatim_ranges(cs.skip(1), cur, len)
    } else {
        seq![(cur, cs[0].start)] + verbatim_ranges(cs.skip(1), cs[0].end, len)
    }
}

/// Alternates the input's verbatim ranges with replacement segments.
pub open spec fn interleave(input: Seq<u8>, ranges: Seq<(int, int)>, reps: Seq<Seq<u8>>) -> Seq<
    u8,
>
    decreases ranges.len(),
{
    if ranges.len() == 0 {
        Seq::empty()
    } else if ranges.len() == 1 || reps.len() == 0 {
        input.subrange(ranges[0].0, ranges[0].1)
    } else {
        input.subrange(ranges[0].0, ranges[0].1) + reps[0] + interleave(
            input,
            ranges.skip(1),
            reps.skip(1),
        )
    }
}

/// The active captures' byte ranges, in order.
pub open spec fn active_spans(cs: Seq<CaptureView>) -> Seq<(int, int)>
    decreases cs.len(),
{
    if cs.len() == 0 {
        Seq::empty()
    } else if !is_active(cs[0]) {
        active_spans(cs.skip(1))
    } else {
        seq![(cs[0].start, cs[0].end)] + active_spans(cs.skip(1))
    }
}

/// Coverage partition: when the active captures are in order, the verbatim
/// ranges and the active spans alternate and tile the whole input — every
/// byte position from the cursor to the end falls in exactly one segment,
/// with no gaps and no overlaps.
pub proof fn lemma_partition(cs: Seq<CaptureView>, cur: int, len: int)
    requires
        ok_order(cs, cur),
        wf_captures(cs, len),
        cur <= len,
    ensures
        verbatim_ranges(cs, cur, len).len() == active_spans(cs).len() + 1,
        verbatim_ranges(cs, cur, len)[0].0 == cur,
        verbatim_ranges(cs, cur, len).last().1 == len,
        forall|k: int|
            0 <= k < active_spans(cs).len() ==> {
                &&& #[trigger] verbatim_ranges(cs, cur, len)[k].1 == active_spans(cs)[k].0
                &&& active_spans(cs)[k].1 == verbatim_ranges(cs, cur, len)[k + 1].0
            },
        forall|k: int|
            0 <= k < verbatim_ranges(cs, cur, len).len() ==> #[trigger] verbatim_ranges(
                cs,
                cur,
                len,
            )[k].0 <= verbatim_ranges(cs, cur, len)[k].1,
    decreases cs.len(),
{
    let ranges = verbatim_ranges(cs, cur, len);
    let spans = active_spans(cs);
    if cs.len() == 0 {
        assert(ranges =~= seq![(cur, len)]);
        assert(spans =~= Seq::<(int, int)>::empty());
    } else if !is_active(cs[0]) {
        assert(forall|i: int|
            0 <= i < cs.skip(1).len() ==> #[trigger] cs.skip(1)[i] == cs[i + 1]);
        lemma_partition(cs.skip(1), cur, len);
    } else {
        let c = cs[0];
        assert(forall|i: int|
            0 <= i < cs.skip(1).len() ==> #[trigger] cs.skip(1)[i] == cs[i + 1]);
        assert(c.start <= c.end && c.end <= len);
        lemma_partition(cs.skip(1), c.end, len);
        let tail_ranges = verbatim_ranges(cs.skip(1), c.end, len);
        let tail_spans = active_spans(cs.skip(1));
        assert(ranges =~= seq![(cur, c.start)] + tail_ranges);
        assert(spans =~= seq![(c.start, c.end)] + tail_spans);
        assert(ranges.last() == tail_ranges.last());
        assert forall|k: int| 0 <= k < spans.len() implies {
            &&& #[trigger] ranges[k].1 == spans[k].0
            &&& spans[k].1 == ranges[k + 1].0
        } by {
            if k > 0 {
                assert(ranges[k] == tail_ranges[k - 1]);
                assert(spans[k] == tail_spans[k - 1]);
                assert(ranges[k + 1] == tail_ranges[k]);
            } else {
                assert(ranges[1] == tail_ranges[0]);
            }
        }
        assert forall|k: int| 0 <= k < ranges.len() implies #[trigger] ranges[k].0
            <= ranges[k].1 by {
            if k > 0 {
                assert(ranges[k] == tail_ranges[k - 1]);
            }
        }
    }
}

proof fn lemma_rewrite_interleave(input: Seq<u8>, cs: Seq<CaptureView>, cur: int, out: Seq<u8>)
    requires
        is_rewrite(input, cs, cur, out),
    ensures
        exists|reps: Seq<Seq<u8>>|
            out == interleave(input, verbatim_ranges(cs, cur, input.len() as int), reps)
                && reps.len() + 1 == verbatim_ranges(cs, cur, input.len() as int).len(),
    decreases cs.len(),
{
    let len = input.len() as int;
    let ranges = verbatim_ranges(cs, cur, len);
    if cs.len() == 0 {
        let reps = Seq::<Seq<u8>>::empty();
        assert(out == interleave(input, ranges, reps) && reps.len() + 1 == ranges.len());
    } else if !is_active(cs[0]) {
        lemma_rewrite_interleave(input, cs.skip(1), cur, out);
    } else {
        let (rep, rest) = choose|rep: Seq<u8>, rest: Seq<u8>|
            #![all_triggers]
            {
                &&& out == input.subrange(cur, cs[0].start) + rep + rest
                &&& rep_ok(directive_of(cs[0].label)->Some_0, rep)
                &&& is_rewrite(input, cs.skip(1), cs[0].end, rest)
            };
        lemma_rewrite_interleave(input, cs.skip(1), cs[0].end, rest);
        let tail_ranges = verbatim_ranges(cs.skip(1), cs[0].end, len);
        let tail_reps = choose|reps: Seq<Seq<u8>>|
            rest == interleave(input, tail_ranges, reps) && reps.len() + 1 == tail_ranges.len();
        let reps = seq![rep] + tail_reps;
        assert(ranges.skip(1) =~= tail_ranges);
        assert(reps.skip(1) =~= tail_reps);
        assert(ranges[0] == (cur, cs[0].start));
        assert(ranges.len() == 1 + tail_ranges.len() && reps.len() == 1 + tail_reps.len());
        assert(interleave(input, ranges, reps) == input.subrange(cur, cs[0].start) + rep
            + interleave(input, tail_ranges, tail_reps));
        assert(out == interleave(input, ranges, reps) && reps.len() + 1 == ranges.len());
    }
}

/// Determinism of structure: two correct rewrites of the same input under
/// the same captures decompose over the same verbatim ranges — everything
/// outside the replaced spans is identical; only the replacement segments
/// may differ between the two runs.
pub proof fn lemma_structure_determinism(
    input: Seq<u8>,
    cs: Seq<CaptureView>,
    out1: Seq<u8>,
    out2: Seq<u8>,
)
    requires
        is_rewrite(input, cs, 0, out1),
        is_rewrite(input, cs, 0, out2),
    ensures
        exists|reps: Seq<Seq<u8>>|
            out1 == interleave(input, verbatim_ranges(cs, 0, input.len() as int), reps),
        exists|reps: Seq<Seq<u8>>|
            out2 == interleave(input, verbatim_ranges(cs, 0, input.len() as int), reps),
{
    lemma_rewrite_interleave(input, cs, 0, out1);
    lemma_rewrite_interleave(input, cs, 0, out2);
}

/// Why a rewrite run aborted.
#[derive(Clone, Copy, PartialEq, Eq, Structural, Debug)]
pub enum RewriteError {
    /// A capture's span starts before the emit cursor: captures are out of
    /// order or overlapping.
    OutOfOrder { start: usize, pos: usize },
    /// An Order span's payload could not be rewritten.
    Payload(OrderError),
}

/// Returns the number of bytes to copy verbatim before a matched span.
///
/// `pos` is the rewrite cursor, `start` the first byte of the next matched
/// span. A span that begins before the cursor is an out-of-order capture,
/// which is a fatal error.
pub fn plan_gap(pos: u64, start: u64) -> (r: Option<u64>)
    ensures
        pos <= start ==> r == Some((start - pos) as u64),
        pos > start ==> r is None,
{
    if pos <= start {
        Some(start - pos)
    } else {
        None
    }
}

/// Appends `input[from..to]` to `out`.
fn copy_range(out: &mut Vec<u8>, input: &Vec<u8>, from: usize, to: usize)
    requires
        from <= to <= input@.len(),
    ensures
        final(out)@ == old(out)@ + input@.subrange(from as int, to as int),
{
    let mut j = from;
    while j < to
        invariant
            from <= j <= to <= input@.len(),
            out@ == old(out)@ + input@.subrange(from as int, j as int),
        decreases to - j,
    {
        out.push(input[j]);
        proof {
            assert(input@.subrange(from as int, j + 1) =~= input@.subrange(from as int, j as int)
                + seq![input@[j as int]]);
        }
        j += 1;
    }
    proof {
        assert(out@ =~= old(out)@ + input@.subrange(from as int, to as int));
    }
}

/// Copies `input[from..to]` into a fresh vector.
fn sub_vec(input: &Vec<u8>, from: usize, to: usize) -> (r: Vec<u8>)
    requires
        from <= to <= input@.len(),
    ensures
        r@ == input@.subrange(from as int, to as int),
{
    let mut v: Vec<u8> = Vec::new();
    copy_range(&mut v, input, from, to);
    v
}

/// Rewrites a whole input under the given captures.
///
/// Captures must lie within the input. Unrecognized labels are inert: their
/// spans are copied through unchanged, so a query with no recognized
/// capture leaves the output byte-identical to the input. Active captures
/// must arrive in non-decreasing start order; a span that begins before the
/// emit cursor aborts the run. On success the output is exactly the input
/// with each active span replaced by directive-shaped bytes — nothing else
/// changes, no byte is dropped or emitted twice.
pub fn anonymize_bytes(input: &Vec<u8>, captures: &Vec<Capture>, h: &mut RngHandle) -> (r: Result<
    Vec<u8>,
    RewriteError,
>)
    requires
        wf_captures(caps_view(captures@), input@.len() as int),
    ensures
        r matches Ok(out) ==> ok_order(caps_view(captures@), 0) && is_rewrite(
            input@,
            caps_view(captures@),
            0,
            out@,
        ),
        !ok_order(caps_view(captures@), 0) ==> r matches Err(_),
        r matches Err(e) && e is OutOfOrder ==> !ok_order(caps_view(captures@), 0),
        r matches Err(e) && e is Payload ==> has_order_directive(caps_view(captures@)),
        ok_order(caps_view(captures@), 0) && !has_order_directive(caps_view(captures@))
            ==> r matches Ok(_),
        all_inactive(caps_view(captures@)) ==> (r matches Ok(out) && out@ == input@),
{
    let ghost cs = caps_view(captures@);
    let n = captures.len();
    let len = input.len();
    let mut out: Vec<u8> = Vec::new();
    let mut cursor: usize = 0;
    let mut i: usize = 0;
    proof {
        assert(cs.skip(0) =~= cs);
        assert forall|rest: Seq<u8>|
            is_rewrite(input@, cs.skip(0), 0, rest) implies is_rewrite(
            input@,
            cs,
            0,
            #[trigger] (out@ + rest),
        ) by {
            assert(out@ + rest =~= rest);
        }
    }
    while i < n
        invariant
            0 <= i <= n,
            n == captures@.len(),
            len == input@.len(),
            cs == caps_view(captures@),
            wf_captures(cs, len as int),
            cursor <= len,
            ok_order(cs, 0) == ok_order(cs.skip(i as int), cursor as int),
            forall|rest: Seq<u8>|
                is_rewrite(input@, cs.skip(i as int), cursor as int, rest) ==> is_rewrite(
                    input@,
                    cs,
                    0,
                    #[trigger] (out@ + rest),
                ),
        decreases n - i,
    {
        let c = &captures[i];
        let ghost cv = cs[i as int];
        proof {
            assert(cv == captures@[i as int]@);
            assert(cs.skip(i as int)[0] == cv);
            assert(cs.skip(i as int).skip(1) =~= cs.skip(i + 1));
        }
        match Directive::from_str(c.label.as_str()) {
            Err(_) => {
                proof {
                    assert(!is_active(cv));
                }
                i += 1;
            },
            Ok(d) => {
                proof {
                    assert(directive_of(cv.label) == Some(d));
                    assert(is_active(cv));
                }
                let start = c.start;
                let end = c.end;
                proof {
                    assert(cs[i as int].start <= cs[i as int].end && cs[i as int].end
                        <= len as int);
                }
                if cursor > start {
                    proof {
                        assert(!ok_order(cs.skip(i as int), cursor as int));
                    }
                    return Err(RewriteError::OutOfOrder { start, pos: cursor });
                }
                let ghost out_before = out@;
                copy_range(&mut out, input, cursor, start);
                let span = if d.consumes_span() {
                    sub_vec(input, start, end)
                } else {
                    Vec::new()
                };
                let rep = match replacement(d, &span, h) {
                    Ok(v) => v,
                    Err(e) => {
                        proof {
                            assert(directive_of(cs[i as int].label) == Some(Directive::Order));
                            assert(has_order_directive(cs));
                        }
                        return Err(RewriteError::Payload(e));
                    },
                };
                let ghost gap = input@.subrange(cursor as int, start as int);
                let ghost repv = rep@;
                let mut rep = rep;
                out.append(&mut rep);
                proof {
                    let s = cs.skip(i as int);
                    assert(out@ == out_before + gap + repv);
                    assert(ok_order(s, cursor as int) == ok_order(cs.skip(i + 1), end as int));
                    assert forall|rest: Seq<u8>|
                        is_rewrite(input@, cs.skip(i + 1), end as int, rest) implies is_rewrite(
                        input@,
                        cs,
                        0,
                        #[trigger] (out@ + rest),
                    ) by {
                        let w = gap + repv + rest;
                        assert(s[0] == cv && is_active(cv));
                        assert(rep_ok(directive_of(s[0].label)->Some_0, repv));
                        assert(is_rewrite(input@, s.skip(1), s[0].end, rest));
                        lemma_rewrite_step(input@, s, cursor as int, repv, rest);
                        assert(w == input@.subrange(cursor as int, s[0].start) + repv + rest);
                        assert(is_rewrite(input@, s, cursor as int, w));
                        assert(is_rewrite(input@, cs, 0, out_before + w));
                        assert(out_before + w =~= out@ + rest);
                    }
                }
                cursor = end;
                i += 1;
            },
        }
    }
    let ghost out_body = out@;
    copy_range(&mut out, input, cursor, len);
    proof {
        assert(cs.skip(n as int) =~= Seq::<CaptureView>::empty());
        let tail = input@.subrange(cursor as int, len as int);
        assert(is_rewrite(input@, cs.skip(n as int), cursor as int, tail));
        assert(is_rewrite(input@, cs, 0, out_body + tail));
        assert(out@ == out_body + tail);
        assert(ok_order(cs, 0));
        if all_inactive(cs) {
            lemma_identity(input@, cs, out@);
        }
    }
    Ok(out)
}

/// Identity: when no capture names a directive, a correct rewrite is
/// byte-identical to the input.
pub proof fn lemma_identity(input: Seq<u8>, cs: Seq<CaptureView>, out: Seq<u8>)
    requires
        all_inactive(cs),
        is_rewrite(input, cs, 0, out),
    ensures
        out == input,
{
    lemma_identity_from(input, cs, 0, out);
    assert(input.subrange(0, input.len() as int) =~= input);
}

proof fn lemma_identity_from(input: Seq<u8>, cs: Seq<CaptureView>, cur: int, out: Seq<u8>)
    requires
        all_inactive(cs),
        is_rewrite(input, cs, cur, out),
    ensures
        out == input.subrange(cur, input.len() as int),
    decreases cs.len(),
{
    if cs.len() > 0 {
        assert(!is_active(cs[0]));
        assert(all_inactive(cs.skip(1))) by {
            assert(forall|i: int|
                0 <= i < cs.skip(1).len() ==> #[trigger] cs.skip(1)[i] == cs[i + 1]);
        }
        lemma_identity_from(input, cs.skip(1), cur, out);
    }
}

} // verus!
