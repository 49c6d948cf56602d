//! The context window: fed one line decision at a time, it decides which lines
//! to emit with their leading and trailing context. A fresh window is made for
//! every batch of lines, so context never crosses a batch boundary.

use std::collections::VecDeque;
use vstd::prelude::*;

verus! {

/// Some match at or before `i - 1` lies at most `a` lines before line `i`.
pub open spec fn after_hit(ms: Seq<bool>, a: int, i: int) -> bool {
    exists|j: int| 0 <= j < i && #[trigger] ms[j] && i - j <= a
}

/// Some match after line `i` within the batch lies at most `b` lines after it.
pub open spec fn before_hit(ms: Seq<bool>, b: int, i: int) -> bool {
    exists|k: int| i < k < ms.len() && #[trigger] ms[k] && k - i <= b
}

/// Line `i` of a batch whose per-line decisions are `ms` is emitted: it matches,
/// or it is trailing context of an earlier match, or leading context of a later one.
pub open spec fn emitted(ms: Seq<bool>, b: int, a: int, i: int) -> bool {
    0 <= i < ms.len() && (ms[i] || after_hit(ms, a, i) || before_hit(ms, b, i))
}

pub open spec fn increasing(s: Seq<usize>) -> bool {
    forall|x: int, y: int| 0 <= x < y < s.len() ==> s[x] < s[y]
}

/// `out` lists, in increasing order, exactly the emitted lines of the batch `ms`.
pub open spec fn is_window_output(ms: Seq<bool>, b: int, a: int, out: Seq<usize>) -> bool {
    &&& increasing(out)
    &&& forall|i: int| 0 <= i < ms.len() ==> (out.contains(i as usize) <==> emitted(ms, b, a, i))
    &&& forall|x: int| 0 <= x < out.len() ==> out[x] < ms.len()
}

/// State of the context window over one batch.
pub struct ContextWindow {
    before_n: usize,
    after_n: usize,
    before_buf: VecDeque<usize>,
    after_remaining: usize,
    next: usize,
    history: Ghost<Seq<bool>>,
    last: Ghost<int>,
}

/// First line index held in the leading-context buffer.
pub open spec fn buf_lo(t: int, last: int, a: int, b: int) -> int {
    let start = if last >= 0 {
        last + 1 + a
    } else {
        0
    };
    let s = if start < t {
        start
    } else {
        t
    };
    if b == 0 {
        t
    } else if t - b > s {
        t - b
    } else {
        s
    }
}

/// A line that does not match changes no earlier line's fate.
proof fn lemma_push_no_match(h: Seq<bool>, b: int, a: int)
    ensures
        forall|i: int|
            0 <= i < h.len() ==> (emitted(h.push(false), b, a, i) <==> emitted(h, b, a, i)),
{
    let h2 = h.push(false);
    assert forall|i: int| 0 <= i < h.len() implies (emitted(h2, b, a, i) <==> emitted(h, b, a, i)) by {
        if after_hit(h2, a, i) {
            let j = choose|j: int| 0 <= j < i && #[trigger] h2[j] && i - j <= a;
            assert(h[j]);
        }
        if after_hit(h, a, i) {
            let j = choose|j: int| 0 <= j < i && #[trigger] h[j] && i - j <= a;
            assert(h2[j]);
        }
        if before_hit(h2, b, i) {
            let k = choose|k: int| i < k < h2.len() && #[trigger] h2[k] && k - i <= b;
            assert(h[k]);
        }
        if before_hit(h, b, i) {
            let k = choose|k: int| i < k < h.len() && #[trigger] h[k] && k - i <= b;
            assert(h2[k]);
        }
    }
}

impl ContextWindow {
    /// The decisions seen so far in this batch, oldest first.
    pub closed spec fn history(&self) -> Seq<bool> {
        self.history@
    }

    pub closed spec fn before_n(&self) -> nat {
        self.before_n as nat
    }

    pub closed spec fn after_n(&self) -> nat {
        self.after_n as nat
    }

    pub closed spec fn wf(&self) -> bool {
        let h = self.history@;
        let t = h.len() as int;
        let last = self.last@;
        let a = self.after_n as int;
        let b = self.before_n as int;
        let lo = buf_lo(t, last, a, b);
        &&& self.next as int == t
        &&& -1 <= last < t
        &&& last >= 0 ==> h[last]
        &&& forall|j: int| last < j < t ==> !#[trigger] h[j]
        &&& self.after_remaining as int == (if last >= 0 && t - 1 - last < a {
            a - (t - 1 - last)
        } else {
            0
        })
        &&& self.before_buf@.len() == t - lo
        &&& forall|k: int| 0 <= k < self.before_buf@.len() ==> self.before_buf@[k] == lo + k
    }

    /// A window that has seen no line yet.
    pub fn new(before_n: usize, after_n: usize) -> (r: Self)
        ensures
            r.wf(),
            r.history() == Seq::<bool>::empty(),
            r.before_n() == before_n,
            r.after_n() == after_n,
    {
        ContextWindow {
            before_n,
            after_n,
            before_buf: VecDeque::new(),
            after_remaining: 0,
            next: 0,
            history: Ghost(Seq::empty()),
            last: Ghost(-1),
        }
    }

    /// Feed the decision for the next line; returns the indices of the lines to
    /// emit now, oldest first.
    pub fn handle_line(&mut self, is_match: bool) -> (r: Vec<usize>)
        requires
            old(self).wf(),
            old(self).history().len() < usize::MAX,
        ensures
            final(self).wf(),
            final(self).before_n() == old(self).before_n(),
            final(self).after_n() == old(self).after_n(),
            final(self).history() == old(self).history().push(is_match),
            increasing(r@),
            forall|i: int|
                0 <= i < final(self).history().len() ==> (r@.contains(i as usize) <==> (
                emitted(final(self).history(), old(self).before_n() as int, old(self).after_n() as int, i)
                    && !emitted(old(self).history(), old(self).before_n() as int, old(self).after_n() as int, i))),
            forall|x: int| 0 <= x < r@.len() ==> r@[x] < final(self).history().len(),
            forall|i: int, x: int|
                0 <= x < r@.len() && emitted(old(self).history(), old(self).before_n() as int, old(self).after_n() as int, i)
                    ==> i < r@[x],
    {
        let ghost h = self.history@;
        let ghost t = h.len() as int;
        let ghost last = self.last@;
        let ghost a = self.after_n as int;
        let ghost b = self.before_n as int;
        let ghost lo = buf_lo(t, last, a, b);
        let ghost h2 = h.push(is_match);
        let idx = self.next;
        let mut out: Vec<usize> = Vec::new();
        if is_match {
            let ghost buf0 = self.before_buf@;
            while self.before_buf.len() > 0
                invariant
                    self.before_n == old(self).before_n,
                    self.after_n == old(self).after_n,
                    self.next == old(self).next,
                    self.history == old(self).history,
                    self.last == old(self).last,
                    buf0.len() == t - lo,
                    forall|k: int| 0 <= k < buf0.len() ==> buf0[k] == lo + k,
                    out@.len() + self.before_buf@.len() == buf0.len(),
                    forall|k: int| 0 <= k < out@.len() ==> out@[k] == buf0[k],
                    forall|k: int|
                        0 <= k < self.before_buf@.len() ==> self.before_buf@[k] == buf0[out@.len()
                            + k],
                decreases self.before_buf@.len(),
            {
                let x = self.before_buf.pop_front().unwrap();
                out.push(x);
            }
            assert(out@ == buf0);
            out.push(idx);
            assert(out@ == buf0.push(idx));
            self.after_remaining = self.after_n;
            self.last = Ghost(t);
            assert forall|i: int| 0 <= i < h2.len() implies (out@.contains(i as usize) <==> (
            emitted(h2, b, a, i) && !emitted(h, b, a, i))) by {
                assert(h2[t]);
                if i == t {
                    assert(out@[out@.len() - 1] == i);
                } else if lo <= i {
                    assert(out@[i - lo] == i);
                    assert(before_hit(h2, b, i));
                    assert(!emitted(h, b, a, i)) by {
                        if after_hit(h, a, i) {
                            let j = choose|j: int| 0 <= j < i && #[trigger] h[j] && i - j <= a;
                            assert(j <= last);
                        }
                        if before_hit(h, b, i) {
                            let k = choose|k: int| i < k < h.len() && #[trigger] h[k] && k - i <= b;
                            assert(k <= last);
                        }
                    }
                } else {
                    assert(!out@.contains(i as usize)) by {
                        if out@.contains(i as usize) {
                            let x = choose|x: int| 0 <= x < out@.len() && out@[x] == i as usize;
                            if x < out@.len() - 1 {
                                assert(out@[x] == lo + x);
                            }
                        }
                    }
                    if emitted(h2, b, a, i) && !emitted(h, b, a, i) {
                        assert(!h[i]);
                        assert(!after_hit(h, a, i));
                        assert(before_hit(h2, b, i));
                        let k = choose|k: int| i < k < h2.len() && #[trigger] h2[k] && k - i <= b;
                        if k < t {
                            assert(h[k]);
                            assert(before_hit(h, b, i));
                        } else {
                            assert(last >= 0);
                            if i < last {
                                assert(h[last]);
                                assert(before_hit(h, b, i));
                            } else if i == last {
                                assert(h[i]);
                            } else {
                                assert(h[last]);
                                assert(after_hit(h, a, i));
                            }
                        }
                    }
                }
            }
            assert forall|i: int, x: int|
                0 <= x < out@.len() && emitted(h, b, a, i) implies i < out@[x] by {
                if x < out@.len() - 1 && i >= out@[x] {
                    assert(out@[x] == lo + x);
                    if after_hit(h, a, i) {
                        let j = choose|j: int| 0 <= j < i && #[trigger] h[j] && i - j <= a;
                        assert(j <= last);
                    }
                    if before_hit(h, b, i) {
                        let k = choose|k: int| i < k < h.len() && #[trigger] h[k] && k - i <= b;
                        assert(k <= last);
                    }
                }
            }
        } else {
            proof {
                lemma_push_no_match(h, b, a);
            }
            if self.after_remaining > 0 {
                out.push(idx);
                self.after_remaining = self.after_remaining - 1;
                assert(h2[last]);
                assert(after_hit(h2, a, t));
                assert(out@ == seq![idx]);
                assert forall|i: int| 0 <= i < h2.len() implies (out@.contains(i as usize) <==> (
                emitted(h2, b, a, i) && !emitted(h, b, a, i))) by {
                    if i == t {
                        assert(out@[0] == i);
                    }
                }
            } else {
                assert(!emitted(h2, b, a, t)) by {
                    if after_hit(h2, a, t) {
                        let j = choose|j: int| 0 <= j < t && #[trigger] h2[j] && t - j <= a;
                        assert(h[j]);
                        assert(j <= last);
                    }
                }
                assert(out@.len() == 0);
                assert forall|i: int| 0 <= i < h2.len() implies (out@.contains(i as usize) <==> (
                emitted(h2, b, a, i) && !emitted(h, b, a, i))) by {}
                if self.before_n > 0 {
                    if self.before_buf.len() == self.before_n {
                        self.before_buf.pop_front();
                    }
                    self.before_buf.push_back(idx);
                }
            }
        }
        self.next = idx + 1;
        self.history = Ghost(h2);
        out
    }
}

} // verus!

verus! {

/// A further line never withdraws an earlier line from the output.
proof fn lemma_emitted_monotone(h: Seq<bool>, m: bool, b: int, a: int, i: int)
    requires
        emitted(h, b, a, i),
    ensures
        emitted(h.push(m), b, a, i),
{
    let h2 = h.push(m);
    if after_hit(h, a, i) {
        let j = choose|j: int| 0 <= j < i && #[trigger] h[j] && i - j <= a;
        assert(h2[j]);
    }
    if before_hit(h, b, i) {
        let k = choose|k: int| i < k < h.len() && #[trigger] h[k] && k - i <= b;
        assert(h2[k]);
    }
    if h[i] {
        assert(h2[i]);
    }
}

/// Run a fresh context window over one batch of per-line decisions and return
/// the indices of the lines to emit, in order.
pub fn select_lines(before_n: usize, after_n: usize, decisions: &Vec<bool>) -> (r: Vec<usize>)
    ensures
        is_window_output(decisions@, before_n as int, after_n as int, r@),
{
    let ghost b = before_n as int;
    let ghost a = after_n as int;
    let mut window = ContextWindow::new(before_n, after_n);
    let mut out: Vec<usize> = Vec::new();
    let mut k: usize = 0;
    while k < decisions.len()
        invariant
            k <= decisions@.len(),
            b == before_n as int,
            a == after_n as int,
            window.wf(),
            window.before_n() == before_n,
            window.after_n() == after_n,
            window.history() == decisions@.subrange(0, k as int),
            is_window_output(decisions@.subrange(0, k as int), b, a, out@),
        decreases decisions@.len() - k,
    {
        let ghost h = window.history();
        let ghost out0 = out@;
        let mut emitted_now = window.handle_line(decisions[k]);
        let ghost r = emitted_now@;
        let ghost h2 = window.history();
        assert(h2 == decisions@.subrange(0, k + 1));
        out.append(&mut emitted_now);
        assert(out@ == out0 + r);
        assert forall|x: int, y: int| 0 <= x < y < out@.len() implies out@[x] < out@[y] by {
            if y < out0.len() {
                assert(out@[x] == out0[x] && out@[y] == out0[y]);
            } else if x >= out0.len() {
                assert(out@[x] == r[x - out0.len()] && out@[y] == r[y - out0.len()]);
            } else {
                assert(out@[x] == out0[x]);
                assert(out@[y] == r[y - out0.len()]);
                assert(out0[x] < h.len());
                assert(out0.contains(out0[x]));
                assert(emitted(h, b, a, out0[x] as int));
            }
        }
        assert forall|i: int| 0 <= i < h2.len() implies (out@.contains(i as usize) <==> emitted(
            h2,
            b,
            a,
            i,
        )) by {
            if i < h.len() && emitted(h, b, a, i) {
                lemma_emitted_monotone(h, decisions@[k as int], b, a, i);
            }
            if out0.contains(i as usize) {
                let x = choose|x: int| 0 <= x < out0.len() && out0[x] == i as usize;
                assert(out@[x] == i as usize);
            }
            if r.contains(i as usize) {
                let x = choose|x: int| 0 <= x < r.len() && r[x] == i as usize;
                assert(out@[out0.len() + x] == i as usize);
            }
            if out@.contains(i as usize) {
                let x = choose|x: int| 0 <= x < out@.len() && out@[x] == i as usize;
                if x < out0.len() {
                    assert(out0[x] == i as usize);
                    assert(out0.contains(i as usize));
                    assert(i < h.len());
                } else {
                    assert(r[x - out0.len()] == i as usize);
                    assert(r.contains(i as usize));
                }
            }
        }
        k = k + 1;
    }
    assert(decisions@.subrange(0, k as int) == decisions@);
    out
}

} // verus!

verus! {

proof fn lemma_same_members(x: Seq<usize>, y: Seq<usize>)
    requires
        increasing(x),
        increasing(y),
        forall|v: usize| x.contains(v) <==> y.contains(v),
    ensures
        x == y,
    decreases x.len(),
{
    if x.len() == 0 {
        if y.len() > 0 {
            assert(y.contains(y[0]));
        }
        assert(y.len() == 0);
    } else {
        assert(x.contains(x[0]));
        let j = choose|j: int| 0 <= j < y.len() && y[j] == x[0];
        assert(y.contains(y[0]));
        let i = choose|i: int| 0 <= i < x.len() && x[i] == y[0];
        assert(x[0] == y[0]);
        let x1 = x.drop_first();
        let y1 = y.drop_first();
        assert forall|v: usize| x1.contains(v) implies y1.contains(v) by {
            let a = choose|a: int| 0 <= a < x1.len() && x1[a] == v;
            assert(x[a + 1] == v);
            assert(x.contains(v));
            let b = choose|b: int| 0 <= b < y.len() && y[b] == v;
            assert(b != 0);
            assert(y1[b - 1] == v);
        }
        assert forall|v: usize| y1.contains(v) implies x1.contains(v) by {
            let b = choose|b: int| 0 <= b < y1.len() && y1[b] == v;
            assert(y[b + 1] == v);
            assert(y.contains(v));
            let a = choose|a: int| 0 <= a < x.len() && x[a] == v;
            assert(a != 0);
            assert(x1[a - 1] == v);
        }
        lemma_same_members(x1, y1);
        assert(x =~= seq![x[0]] + x1);
        assert(y =~= seq![y[0]] + y1);
    }
}

/// The emitted lines of a batch are determined by its decisions: two window
/// outputs for the same batch are equal.
pub proof fn law_window_output_unique(ms: Seq<bool>, b: int, a: int, w1: Seq<usize>, w2: Seq<usize>)
    requires
        is_window_output(ms, b, a, w1),
        is_window_output(ms, b, a, w2),
    ensures
        w1 == w2,
{
    assert forall|v: usize| w1.contains(v) <==> w2.contains(v) by {
        if w1.contains(v) {
            let k = choose|k: int| 0 <= k < w1.len() && w1[k] == v;
            assert(w1[k] < ms.len());
        }
        if w2.contains(v) {
            let k = choose|k: int| 0 <= k < w2.len() && w2[k] == v;
            assert(w2[k] < ms.len());
        }
        if v < ms.len() {
            assert(w1.contains(v as int as usize) <==> emitted(ms, b, a, v as int));
        }
    }
    lemma_same_members(w1, w2);
}

/// Without context, exactly the matching lines are emitted, and a window
/// never emits a line outside its batch.
pub proof fn law_window_without_context(ms: Seq<bool>, w: Seq<usize>)
    requires
        is_window_output(ms, 0, 0, w),
    ensures
        forall|i: int| 0 <= i < ms.len() ==> (w.contains(i as usize) <==> ms[i]),
        forall|x: int| 0 <= x < w.len() ==> w[x] < ms.len(),
{
    assert forall|i: int| 0 <= i < ms.len() implies (w.contains(i as usize) <==> ms[i]) by {
        if after_hit(ms, 0, i) {
            let j = choose|j: int| 0 <= j < i && #[trigger] ms[j] && i - j <= 0;
        }
        if before_hit(ms, 0, i) {
            let k = choose|k: int| i < k < ms.len() && #[trigger] ms[k] && k - i <= 0;
        }
        assert(w.contains(i as usize) <==> emitted(ms, 0, 0, i));
        assert(emitted(ms, 0, 0, i) == ms[i]);
    }
}

} // verus!
