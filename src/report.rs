//! The aggregated profile: counted stack traces, and their folded encoding.
use vstd::prelude::*;
use vstd::seq_lib::{to_multiset_contains, to_multiset_len, to_multiset_remove};
use vstd::string::StringExecFns;

use crate::model::{frames_eq, frames_view, opt_text, opt_text_eq, FrameView, Frame, Trace};
use crate::text::{concat, decimal, is_sorted_permutation, lemma_sorted_permutation_unique, push_decimal, sort_strings, texts_of};

verus! {

/// The largest count a report holds; further observations leave it there.
pub const MAX_COUNT: u64 = 0xffff_ffff_ffff_ffff;

/// What identifies a trace in a report: its thread and its frames.
#[derive(Debug)]
pub struct TraceKey {
    pub thread_id: Option<u64>,
    pub thread_name: Option<String>,
    pub frames: Vec<Frame>,
}

/// A trace key as mathematical values.
pub ghost struct KeyView {
    pub thread_id: Option<u64>,
    pub thread_name: Option<Seq<char>>,
    pub frames: Seq<FrameView>,
}

impl View for TraceKey {
    type V = KeyView;

    open spec fn view(&self) -> KeyView {
        KeyView {
            thread_id: self.thread_id,
            thread_name: opt_text(self.thread_name),
            frames: frames_view(self.frames@),
        }
    }
}

/// The key under which a trace is counted.
pub open spec fn key_of(t: Trace) -> KeyView {
    KeyView {
        thread_id: t.thread_id,
        thread_name: opt_text(t.thread_name),
        frames: frames_view(t.frames@),
    }
}

/// The sum of the counts in `cs` whose key in `ks` is `k`.
pub open spec fn count_of(ks: Seq<KeyView>, cs: Seq<nat>, k: KeyView) -> nat
    decreases ks.len(),
{
    if ks.len() == 0 || cs.len() == 0 {
        0
    } else {
        (if ks[0] == k { cs[0] } else { 0 }) + count_of(ks.drop_first(), cs.drop_first(), k)
    }
}

/// `c` plus `n`, held at the largest count.
pub open spec fn add_capped(c: nat, n: nat) -> nat {
    if c + n <= MAX_COUNT { c + n } else { MAX_COUNT as nat }
}

/// No key occurs twice.
pub open spec fn keys_unique(ks: Seq<KeyView>) -> bool {
    forall|i: int, j: int| 0 <= i < j < ks.len() ==> ks[i] != ks[j]
}

/// The symbol that stands for a frame in the folded format: its name, else its
/// file name, else `?`.
pub open spec fn frame_label(f: FrameView) -> Seq<char> {
    match f.name {
        Some(n) => n,
        None => match f.filename {
            Some(p) => p,
            None => seq!['?'],
        },
    }
}

/// The frame symbols from root to leaf (the reverse of capture order), joined by `;`.
pub open spec fn frames_text(fs: Seq<FrameView>) -> Seq<char>
    decreases fs.len(),
{
    if fs.len() == 0 {
        Seq::empty()
    } else if fs.len() == 1 {
        frame_label(fs[0])
    } else {
        frames_text(fs.drop_first()) + seq![';'] + frame_label(fs[0])
    }
}

/// The thread column of a folded line: the thread name when it is not empty,
/// else the thread id in decimal (nothing when there is none), then `;`.
pub open spec fn thread_prefix(k: KeyView) -> Seq<char> {
    if k.thread_name is Some && k.thread_name->0.len() > 0 {
        k.thread_name->0 + seq![';']
    } else if k.thread_id is Some {
        decimal(k.thread_id->0 as nat) + seq![';']
    } else {
        seq![';']
    }
}

/// One line of the folded format.
pub open spec fn folded_line(k: KeyView, c: nat, with_thread_name: bool) -> Seq<char> {
    (if with_thread_name { thread_prefix(k) } else { Seq::empty() }) + frames_text(k.frames) + seq![' ']
        + decimal(c) + seq!['\n']
}

/// The folded lines of keys `ks` with counts `cs`, in that order.
pub open spec fn folded_lines(ks: Seq<KeyView>, cs: Seq<nat>, with_thread_name: bool) -> Seq<Seq<char>> {
    Seq::new(ks.len(), |i: int| folded_line(ks[i], cs[i], with_thread_name))
}

/// `r` is the folded lines of `ks` and `cs` in ascending order, concatenated.
pub open spec fn is_folded(ks: Seq<KeyView>, cs: Seq<nat>, with_thread_name: bool, r: Seq<char>) -> bool {
    exists|q: Seq<Seq<char>>| is_sorted_permutation(q, folded_lines(ks, cs, with_thread_name)) && r == concat(q)
}

proof fn lemma_count_push(ks: Seq<KeyView>, cs: Seq<nat>, x: KeyView, c: nat, k: KeyView)
    requires
        ks.len() == cs.len(),
    ensures
        count_of(ks.push(x), cs.push(c), k) == count_of(ks, cs, k) + (if x == k { c } else { 0 }),
    decreases ks.len(),
{
    if ks.len() > 0 {
        assert(ks.push(x).drop_first() =~= ks.drop_first().push(x));
        assert(cs.push(c).drop_first() =~= cs.drop_first().push(c));
        assert(ks.push(x)[0] == ks[0]);
        assert(cs.push(c)[0] == cs[0]);
        lemma_count_push(ks.drop_first(), cs.drop_first(), x, c, k);
    } else {
        assert(ks.push(x).drop_first() =~= Seq::<KeyView>::empty());
        assert(cs.push(c).drop_first() =~= Seq::<nat>::empty());
        assert(ks.push(x)[0] == x);
        assert(cs.push(c)[0] == c);
        assert(count_of(Seq::<KeyView>::empty(), Seq::<nat>::empty(), k) == 0);
    }
}

proof fn lemma_count_update(ks: Seq<KeyView>, cs: Seq<nat>, i: int, c: nat, k: KeyView)
    requires
        ks.len() == cs.len(),
        0 <= i < ks.len(),
    ensures
        count_of(ks, cs.update(i, c), k) + (if ks[i] == k { cs[i] } else { 0 })
            == count_of(ks, cs, k) + (if ks[i] == k { c } else { 0 }),
    decreases ks.len(),
{
    if i > 0 {
        assert(cs.update(i, c).drop_first() =~= cs.drop_first().update(i - 1, c));
        lemma_count_update(ks.drop_first(), cs.drop_first(), i - 1, c, k);
    } else {
        assert(cs.update(i, c).drop_first() =~= cs.drop_first());
    }
}

proof fn lemma_count_absent(ks: Seq<KeyView>, cs: Seq<nat>, k: KeyView)
    requires
        forall|j: int| 0 <= j < ks.len() ==> ks[j] != k,
    ensures
        count_of(ks, cs, k) == 0,
    decreases ks.len(),
{
    if ks.len() > 0 && cs.len() > 0 {
        lemma_count_absent(ks.drop_first(), cs.drop_first(), k);
    }
}

proof fn lemma_count_at(ks: Seq<KeyView>, cs: Seq<nat>, i: int)
    requires
        ks.len() == cs.len(),
        keys_unique(ks),
        0 <= i < ks.len(),
    ensures
        count_of(ks, cs, ks[i]) == cs[i],
    decreases ks.len(),
{
    if i > 0 {
        lemma_count_at(ks.drop_first(), cs.drop_first(), i - 1);
    } else {
        lemma_count_absent(ks.drop_first(), cs.drop_first(), ks[0]);
    }
}

proof fn lemma_count_bounded(ks: Seq<KeyView>, cs: Seq<nat>, k: KeyView)
    requires
        ks.len() == cs.len(),
        keys_unique(ks),
        forall|i: int| 0 <= i < cs.len() ==> cs[i] <= MAX_COUNT,
    ensures
        count_of(ks, cs, k) <= MAX_COUNT,
{
    if exists|i: int| 0 <= i < ks.len() && ks[i] == k {
        let i = choose|i: int| 0 <= i < ks.len() && ks[i] == k;
        lemma_count_at(ks, cs, i);
    } else {
        lemma_count_absent(ks, cs, k);
    }
}

proof fn lemma_concat_len(q: Seq<Seq<char>>, j: int)
    requires
        0 <= j < q.len(),
    ensures
        concat(q).len() >= q[j].len(),
    decreases q.len(),
{
    if j < q.len() - 1 {
        lemma_concat_len(q.drop_last(), j);
    }
}

/// Counted stack traces of one collection window.
#[derive(Debug)]
pub struct Report {
    keys: Vec<TraceKey>,
    counts: Vec<u64>,
}

impl Report {
    /// The keys held, in the order they were first seen.
    pub closed spec fn key_seq(&self) -> Seq<KeyView> {
        self.keys@.map_values(|k: TraceKey| k@)
    }

    /// The count of each key of `key_seq`, at the same place.
    pub closed spec fn count_seq(&self) -> Seq<nat> {
        self.counts@.map_values(|c: u64| c as nat)
    }

    /// How often `k` was observed in this window.
    pub open spec fn count(&self, k: KeyView) -> nat {
        count_of(self.key_seq(), self.count_seq(), k)
    }

    /// One count per key, each key once, each count at least one.
    pub open spec fn wf(&self) -> bool {
        &&& self.key_seq().len() == self.count_seq().len()
        &&& keys_unique(self.key_seq())
        &&& forall|i: int| 0 <= i < self.count_seq().len() ==> self.count_seq()[i] >= 1
    }

    /// The report has no entry.
    pub open spec fn spec_is_empty(&self) -> bool {
        self.key_seq().len() == 0
    }

    /// An empty report.
    pub fn new() -> (r: Report)
        ensures
            r.wf(),
            r.spec_is_empty(),
            forall|k: KeyView| r.count(k) == 0,
    {
        let r = Report { keys: Vec::new(), counts: Vec::new() };
        assert(r.key_seq().len() == 0);
        r
    }

    /// No key is counted above the largest count.
    pub proof fn lemma_count_bounded_by_max(&self, k: KeyView)
        requires
            self.wf(),
        ensures
            self.count(k) <= MAX_COUNT,
    {
        lemma_count_bounded(self.key_seq(), self.count_seq(), k);
    }

    /// A report has no entry exactly when every key has count zero.
    pub proof fn lemma_empty_iff_no_count(&self)
        requires
            self.wf(),
        ensures
            self.spec_is_empty() <==> (forall|k: KeyView| self.count(k) == 0),
    {
        if self.key_seq().len() > 0 {
            lemma_count_at(self.key_seq(), self.count_seq(), 0);
            assert(self.count(self.key_seq()[0]) >= 1);
        } else {
            assert forall|k: KeyView| self.count(k) == 0 by {}
        }
    }

    /// Whether the report holds no trace.
    pub fn is_empty(&self) -> (r: bool)
        requires
            self.wf(),
        ensures
            r == self.spec_is_empty(),
            r == (forall|k: KeyView| self.count(k) == 0),
    {
        proof {
            if self.key_seq().len() > 0 {
                lemma_count_at(self.key_seq(), self.count_seq(), 0);
                assert(self.count(self.key_seq()[0]) >= 1);
            } else {
                assert forall|k: KeyView| self.count(k) == 0 by {}
            }
        }
        self.keys.len() == 0
    }

    /// Drops every trace: the report is empty afterwards.
    pub fn clear(&mut self)
        ensures
            final(self).wf(),
            final(self).spec_is_empty(),
            forall|k: KeyView| final(self).count(k) == 0,
    {
        self.keys = Vec::new();
        self.counts = Vec::new();
        assert(self.key_seq().len() == 0);
    }

    /// Adds `n` observations of `key`.
    fn add(&mut self, key: TraceKey, n: u64)
        requires
            old(self).wf(),
            n >= 1,
        ensures
            final(self).wf(),
            !final(self).spec_is_empty(),
            forall|k: KeyView| #[trigger] final(self).count(k)
                == if k == key@ { add_capped(old(self).count(k), n as nat) } else { old(self).count(k) },
    {
        let ghost ks = self.key_seq();
        let ghost cs = self.count_seq();
        let mut i: usize = 0;
        while i < self.keys.len()
            invariant
                self.key_seq() == ks,
                self.count_seq() == cs,
                old(self).key_seq() == ks,
                old(self).count_seq() == cs,
                self.wf(),
                i <= ks.len(),
                forall|j: int| 0 <= j < i ==> ks[j] != key@,
            decreases ks.len() - i,
        {
            let same = self.keys[i].thread_id == key.thread_id
                && opt_text_eq(&self.keys[i].thread_name, &key.thread_name)
                && frames_eq(&self.keys[i].frames, &key.frames);
            if same {
                assert(ks[i as int] == key@);
                let c = self.counts[i];
                let next: u64 = if c <= MAX_COUNT - n { c + n } else { MAX_COUNT };
                self.counts[i] = next;
                proof {
                    assert(self.count_seq() =~= cs.update(i as int, next as nat));
                    assert(self.key_seq() =~= ks);
                    lemma_count_at(ks, cs, i as int);
                    assert(cs[i as int] == c as nat);
                    assert forall|k: KeyView| #[trigger] self.count(k)
                        == if k == key@ { add_capped(old(self).count(k), n as nat) } else { old(self).count(k) } by {
                        assert(old(self).count(k) == count_of(ks, cs, k));
                        lemma_count_update(ks, cs, i as int, next as nat, k);
                    }
                }
                return;
            }
            i = i + 1;
        }
        self.keys.push(key);
        self.counts.push(n);
        proof {
            assert(self.key_seq() =~= ks.push(key@));
            assert(self.count_seq() =~= cs.push(n as nat));
            lemma_count_absent(ks, cs, key@);
            assert forall|k: KeyView| #[trigger] self.count(k)
                == if k == key@ { add_capped(old(self).count(k), n as nat) } else { old(self).count(k) } by {
                assert(old(self).count(k) == count_of(ks, cs, k));
                lemma_count_push(ks, cs, key@, n as nat, k);
            }
        }
    }

    /// Adds the counts of `other` to this report: matching keys add up, the
    /// others are taken over.
    pub fn merge(&mut self, other: Report)
        requires
            old(self).wf(),
            other.wf(),
        ensures
            final(self).wf(),
            forall|k: KeyView| #[trigger] final(self).count(k) == add_capped(old(self).count(k), other.count(k)),
    {
        let ghost oks0 = other.key_seq();
        let ghost ocs0 = other.count_seq();
        let ghost n0 = oks0.len();
        let Report { keys: mut oks, counts: mut ocs } = other;
        proof {
            assert(oks0.subrange(n0 as int, n0 as int) =~= Seq::<KeyView>::empty());
            assert(ocs0.subrange(n0 as int, n0 as int) =~= Seq::<nat>::empty());
            assert forall|k: KeyView| #[trigger] self.count(k) == add_capped(old(self).count(k),
                count_of(oks0.subrange(n0 as int, n0 as int), ocs0.subrange(n0 as int, n0 as int), k)) by {
                lemma_count_bounded(self.key_seq(), self.count_seq(), k);
            }
            assert(oks@.map_values(|k: TraceKey| k@) =~= oks0.take(n0 as int));
            assert(ocs@.map_values(|c: u64| c as nat) =~= ocs0.take(n0 as int));
        }
        while oks.len() > 0
            invariant
                self.wf(),
                n0 == oks0.len(),
                n0 == ocs0.len(),
                forall|i: int| 0 <= i < n0 ==> ocs0[i] >= 1,
                oks@.len() == ocs@.len(),
                oks@.len() <= n0,
                oks@.map_values(|k: TraceKey| k@) == oks0.take(oks@.len() as int),
                ocs@.map_values(|c: u64| c as nat) == ocs0.take(oks@.len() as int),
                forall|k: KeyView| #[trigger] self.count(k) == add_capped(old(self).count(k),
                    count_of(oks0.subrange(oks@.len() as int, n0 as int), ocs0.subrange(oks@.len() as int, n0 as int), k)),
            decreases oks@.len(),
        {
            let ghost m = oks@.len() as int;
            let key = oks.pop().unwrap();
            let c = ocs.pop().unwrap();
            proof {
                assert(oks0.take(m)[m - 1] == key@);
                assert(ocs0.take(m)[m - 1] == c as nat);
                assert(oks@.map_values(|k: TraceKey| k@) =~= oks0.take(m - 1));
                assert(ocs@.map_values(|c: u64| c as nat) =~= ocs0.take(m - 1));
            }
            let ghost before = *self;
            self.add(key, c);
            proof {
                let sk = oks0.subrange(m - 1, n0 as int);
                let sc = ocs0.subrange(m - 1, n0 as int);
                assert(sk.drop_first() =~= oks0.subrange(m, n0 as int));
                assert(sc.drop_first() =~= ocs0.subrange(m, n0 as int));
                assert(sk[0] == key@);
                assert(sc[0] == c as nat);
                assert forall|k: KeyView| #[trigger] self.count(k) == add_capped(old(self).count(k),
                    count_of(sk, sc, k)) by {
                    assert(before.count(k) == add_capped(old(self).count(k),
                        count_of(oks0.subrange(m, n0 as int), ocs0.subrange(m, n0 as int), k)));
                }
            }
        }
        proof {
            assert(oks0.subrange(0, n0 as int) =~= oks0);
            assert(ocs0.subrange(0, n0 as int) =~= ocs0);
        }
    }

    /// The folded encoding of the report (see `fold`).
    pub fn encode(&self, with_thread_name: bool) -> (r: String)
        requires
            self.wf(),
        ensures
            is_folded(self.key_seq(), self.count_seq(), with_thread_name, r@),
            self.spec_is_empty() <==> r@.len() == 0,
    {
        let ghost ks = self.key_seq();
        let ghost cs = self.count_seq();
        let mut lines: Vec<String> = Vec::new();
        let mut i: usize = 0;
        while i < self.keys.len()
            invariant
                ks == self.key_seq(),
                cs == self.count_seq(),
                self.wf(),
                i <= ks.len(),
                texts_of(lines@) == folded_lines(ks, cs, with_thread_name).take(i as int),
            decreases ks.len() - i,
        {
            let line = folded_line_of(&self.keys[i], self.counts[i], with_thread_name);
            let ghost before = lines@;
            lines.push(line);
            assert(texts_of(lines@) =~= texts_of(before).push(line@));
            assert(texts_of(lines@) =~= folded_lines(ks, cs, with_thread_name).take(i as int + 1));
            i = i + 1;
        }
        assert(folded_lines(ks, cs, with_thread_name).take(ks.len() as int) =~= folded_lines(ks, cs, with_thread_name));
        sort_strings(&mut lines);
        let mut out = String::new();
        let mut j: usize = 0;
        while j < lines.len()
            invariant
                j <= lines@.len(),
                out@ == concat(texts_of(lines@).take(j as int)),
            decreases lines@.len() - j,
        {
            assert(texts_of(lines@).take(j as int + 1).drop_last() =~= texts_of(lines@).take(j as int));
            out.append(lines[j].as_str());
            j = j + 1;
        }
        proof {
            assert(texts_of(lines@).take(lines@.len() as int) =~= texts_of(lines@));
            to_multiset_len(texts_of(lines@));
            to_multiset_len(folded_lines(ks, cs, with_thread_name));
            if ks.len() == 0 {
                assert(texts_of(lines@).len() == 0);
                assert(texts_of(lines@) =~= Seq::<Seq<char>>::empty());
            } else {
                let fl = folded_lines(ks, cs, with_thread_name);
                assert(fl.contains(fl[0]));
                to_multiset_contains(fl, fl[0]);
                to_multiset_contains(texts_of(lines@), fl[0]);
                let j = choose|j: int| 0 <= j < texts_of(lines@).len() && texts_of(lines@)[j] == fl[0];
                lemma_concat_len(texts_of(lines@), j);
                assert(fl[0].len() > 0);
            }
        }
        out
    }

    /// Counts `n` more observations of the trace's thread and frames.
    pub fn record_times(&mut self, trace: Trace, n: u64)
        requires
            old(self).wf(),
            n >= 1,
        ensures
            final(self).wf(),
            !final(self).spec_is_empty(),
            forall|k: KeyView| #[trigger] final(self).count(k)
                == if k == key_of(trace) { add_capped(old(self).count(k), n as nat) } else { old(self).count(k) },
    {
        let key = TraceKey { thread_id: trace.thread_id, thread_name: trace.thread_name, frames: trace.frames };
        self.add(key, n);
    }

    /// Counts one more observation of the trace's thread and frames.
    pub fn record(&mut self, trace: Trace)
        requires
            old(self).wf(),
        ensures
            final(self).wf(),
            !final(self).spec_is_empty(),
            forall|k: KeyView| #[trigger] final(self).count(k)
                == if k == key_of(trace) { add_capped(old(self).count(k), 1) } else { old(self).count(k) },
    {
        let key = TraceKey { thread_id: trace.thread_id, thread_name: trace.thread_name, frames: trace.frames };
        self.add(key, 1);
    }
}

fn push_frame_label(out: &mut String, f: &Frame)
    ensures
        final(out)@ == old(out)@ + frame_label(f@),
{
    match &f.name {
        Some(n) => out.append(n.as_str()),
        None => match &f.filename {
            Some(p) => out.append(p.as_str()),
            None => {
                proof { reveal_strlit("?"); }
                out.append("?");
            },
        },
    }
}

fn push_frames_text(out: &mut String, frames: &Vec<Frame>)
    ensures
        final(out)@ == old(out)@ + frames_text(frames_view(frames@)),
{
    let ghost fv = frames_view(frames@);
    let ghost start = out@;
    let n = frames.len();
    let mut i: usize = n;
    assert(fv.subrange(n as int, n as int) =~= Seq::<FrameView>::empty());
    assert(out@ =~= start + frames_text(fv.subrange(n as int, n as int)));
    while i > 0
        invariant
            n == frames@.len(),
            fv == frames_view(frames@),
            i <= n,
            out@ == start + frames_text(fv.subrange(i as int, n as int)),
        decreases i,
    {
        i = i - 1;
        let ghost sub = fv.subrange(i as int, n as int);
        assert(sub.drop_first() =~= fv.subrange(i as int + 1, n as int));
        assert(sub[0] == frames@[i as int]@);
        if i + 1 < n {
            proof { reveal_strlit(";"); }
            out.append(";");
        }
        push_frame_label(out, &frames[i]);
        assert(out@ =~= start + frames_text(sub));
    }
    assert(fv.subrange(0, n as int) =~= fv);
}

fn push_thread_prefix(out: &mut String, key: &TraceKey)
    ensures
        final(out)@ == old(out)@ + thread_prefix(key@),
{
    let ghost start = out@;
    let mut named = false;
    let empty = String::new();
    match &key.thread_name {
        Some(name) => {
            if *name != empty {
                proof {
                    if name@.len() == 0 {
                        assert(name@ =~= empty@);
                    }
                }
                out.append(name.as_str());
                named = true;
            }
        },
        None => {},
    }
    if !named {
        match key.thread_id {
            Some(id) => push_decimal(out, id),
            None => {},
        }
    }
    proof { reveal_strlit(";"); }
    out.append(";");
    assert(out@ =~= start + thread_prefix(key@));
}

fn folded_line_of(key: &TraceKey, count: u64, with_thread_name: bool) -> (r: String)
    ensures
        r@ == folded_line(key@, count as nat, with_thread_name),
{
    let mut out = String::new();
    if with_thread_name {
        push_thread_prefix(&mut out, key);
    }
    push_frames_text(&mut out, &key.frames);
    proof { reveal_strlit(" "); }
    out.append(" ");
    push_decimal(&mut out, count);
    proof { reveal_strlit("\n"); }
    out.append("\n");
    assert(out@ =~= folded_line(key@, count as nat, with_thread_name));
    out
}

/// The report in the folded format: one line per key, in ascending order of
/// the lines. A line is the thread column when `with_thread_name` is set, the
/// frame symbols from root to leaf joined by `;`, a space, the count in
/// decimal and a newline.
pub fn fold(report: &Report, with_thread_name: bool) -> (r: String)
    requires
        report.wf(),
    ensures
        is_folded(report.key_seq(), report.count_seq(), with_thread_name, r@),
{
    report.encode(with_thread_name)
}

/// The count of `k` in a report that started empty and then had a trace
/// recorded for each key of `keys`, in order (each step as `record` states it).
pub open spec fn count_after_records(keys: Seq<KeyView>, k: KeyView) -> nat
    decreases keys.len(),
{
    if keys.len() == 0 {
        0
    } else {
        add_capped(count_after_records(keys.drop_last(), k), if keys.last() == k { 1 } else { 0 })
    }
}

/// Number of times `k` occurs in `keys`.
pub open spec fn key_occurrences(keys: Seq<KeyView>, k: KeyView) -> nat
    decreases keys.len(),
{
    if keys.len() == 0 {
        0
    } else {
        key_occurrences(keys.drop_last(), k) + if keys.last() == k { 1nat } else { 0nat }
    }
}

/// Recording is counting: after any sequence of records into an empty report,
/// a key that occurred `n` times has count `n` (held at the largest count),
/// whatever other keys were recorded in between.
pub proof fn law_record_counts(keys: Seq<KeyView>, k: KeyView)
    ensures
        count_after_records(keys, k) == add_capped(0, key_occurrences(keys, k)),
    decreases keys.len(),
{
    if keys.len() > 0 {
        law_record_counts(keys.drop_last(), k);
    }
}

/// A report with no entry encodes to nothing, with or without thread names:
/// so does a report right after `clear`.
pub proof fn law_empty_report_folds_to_nothing(ks: Seq<KeyView>, cs: Seq<nat>, with_thread_name: bool, r: Seq<char>)
    requires
        ks.len() == 0,
        is_folded(ks, cs, with_thread_name, r),
    ensures
        r.len() == 0,
{
    let q = choose|q: Seq<Seq<char>>| is_sorted_permutation(q, folded_lines(ks, cs, with_thread_name)) && r == concat(q);
    to_multiset_len(q);
    to_multiset_len(folded_lines(ks, cs, with_thread_name));
    assert(q =~= Seq::<Seq<char>>::empty());
}

/// The folded encoding is byte-stable: the same keys and counts always give
/// the same text.
pub proof fn law_fold_deterministic(ks: Seq<KeyView>, cs: Seq<nat>, with_thread_name: bool, r1: Seq<char>, r2: Seq<char>)
    requires
        is_folded(ks, cs, with_thread_name, r1),
        is_folded(ks, cs, with_thread_name, r2),
    ensures
        r1 == r2,
{
    let q1 = choose|q: Seq<Seq<char>>| is_sorted_permutation(q, folded_lines(ks, cs, with_thread_name)) && r1 == concat(q);
    let q2 = choose|q: Seq<Seq<char>>| is_sorted_permutation(q, folded_lines(ks, cs, with_thread_name)) && r2 == concat(q);
    lemma_sorted_permutation_unique(q1, q2);
}

proof fn lemma_count_remove(ks: Seq<KeyView>, cs: Seq<nat>, j: int, k: KeyView)
    requires
        ks.len() == cs.len(),
        0 <= j < ks.len(),
    ensures
        count_of(ks.remove(j), cs.remove(j), k) + (if ks[j] == k { cs[j] } else { 0 }) == count_of(ks, cs, k),
    decreases ks.len(),
{
    if j > 0 {
        assert(ks.remove(j).drop_first() =~= ks.drop_first().remove(j - 1));
        assert(cs.remove(j).drop_first() =~= cs.drop_first().remove(j - 1));
        assert(ks.remove(j)[0] == ks[0]);
        assert(cs.remove(j)[0] == cs[0]);
        lemma_count_remove(ks.drop_first(), cs.drop_first(), j - 1, k);
    } else {
        assert(ks.remove(0) =~= ks.drop_first());
        assert(cs.remove(0) =~= cs.drop_first());
    }
}

proof fn lemma_same_counts_same_lines(ks1: Seq<KeyView>, cs1: Seq<nat>, ks2: Seq<KeyView>, cs2: Seq<nat>, w: bool)
    requires
        ks1.len() == cs1.len(),
        ks2.len() == cs2.len(),
        keys_unique(ks1),
        keys_unique(ks2),
        forall|i: int| 0 <= i < cs1.len() ==> cs1[i] >= 1,
        forall|i: int| 0 <= i < cs2.len() ==> cs2[i] >= 1,
        forall|k: KeyView| count_of(ks1, cs1, k) == count_of(ks2, cs2, k),
    ensures
        folded_lines(ks1, cs1, w).to_multiset() == folded_lines(ks2, cs2, w).to_multiset(),
    decreases ks1.len(),
{
    if ks1.len() == 0 {
        if ks2.len() > 0 {
            lemma_count_at(ks2, cs2, 0);
            assert(count_of(ks1, cs1, ks2[0]) == 0);
        }
        assert(folded_lines(ks1, cs1, w) =~= folded_lines(ks2, cs2, w));
    } else {
        let n = ks1.len() - 1;
        let x = ks1[n];
        lemma_count_at(ks1, cs1, n);
        if forall|j: int| 0 <= j < ks2.len() ==> ks2[j] != x {
            lemma_count_absent(ks2, cs2, x);
            assert(false);
        }
        let j = choose|j: int| 0 <= j < ks2.len() && ks2[j] == x;
        lemma_count_at(ks2, cs2, j);
        let a1 = ks1.remove(n);
        let b1 = cs1.remove(n);
        let a2 = ks2.remove(j);
        let b2 = cs2.remove(j);
        assert forall|k: KeyView| count_of(a1, b1, k) == count_of(a2, b2, k) by {
            lemma_count_remove(ks1, cs1, n, k);
            lemma_count_remove(ks2, cs2, j, k);
        }
        assert forall|a: int, b: int| 0 <= a < b < a2.len() implies a2[a] != a2[b] by {
            let a3 = if a < j { a } else { a + 1 };
            let b3 = if b < j { b } else { b + 1 };
            assert(a2[a] == ks2[a3]);
            assert(a2[b] == ks2[b3]);
        }
        assert forall|i: int| 0 <= i < b2.len() implies b2[i] >= 1 by {
            if i >= j {
                assert(b2[i] == cs2[i + 1]);
            }
        }
        assert forall|a: int, b: int| 0 <= a < b < a1.len() implies a1[a] != a1[b] by {
            assert(a1[a] == ks1[a]);
            assert(a1[b] == ks1[b]);
        }
        lemma_same_counts_same_lines(a1, b1, a2, b2, w);
        let l1 = folded_lines(ks1, cs1, w);
        let l2 = folded_lines(ks2, cs2, w);
        assert(folded_lines(a1, b1, w) =~= l1.remove(n));
        assert(folded_lines(a2, b2, w) =~= l2.remove(j));
        assert(l1[n] == l2[j]);
        to_multiset_remove(l1, n);
        to_multiset_remove(l2, j);
        to_multiset_contains(l1, l1[n]);
        to_multiset_contains(l2, l2[j]);
        assert(l1.contains(l1[n]));
        assert(l2.contains(l2[j]));
        assert(l1.to_multiset() =~= l1.to_multiset().remove(l1[n]).insert(l1[n]));
        assert(l2.to_multiset() =~= l2.to_multiset().remove(l2[j]).insert(l2[j]));
    }
}

/// The folded encoding depends on the counts alone: two reports that count
/// every key alike (for instance after recording the same traces in any
/// order) encode to the same text.
pub proof fn law_fold_depends_on_counts_only(a: Report, b: Report, with_thread_name: bool, r1: Seq<char>, r2: Seq<char>)
    requires
        a.wf(),
        b.wf(),
        forall|k: KeyView| a.count(k) == b.count(k),
        is_folded(a.key_seq(), a.count_seq(), with_thread_name, r1),
        is_folded(b.key_seq(), b.count_seq(), with_thread_name, r2),
    ensures
        r1 == r2,
{
    assert forall|k: KeyView| count_of(a.key_seq(), a.count_seq(), k) == count_of(b.key_seq(), b.count_seq(), k) by {
        assert(a.count(k) == b.count(k));
    }
    lemma_same_counts_same_lines(a.key_seq(), a.count_seq(), b.key_seq(), b.count_seq(), with_thread_name);
    let q1 = choose|q: Seq<Seq<char>>| is_sorted_permutation(q, folded_lines(a.key_seq(), a.count_seq(), with_thread_name)) && r1 == concat(q);
    let q2 = choose|q: Seq<Seq<char>>| is_sorted_permutation(q, folded_lines(b.key_seq(), b.count_seq(), with_thread_name)) && r2 == concat(q);
    lemma_sorted_permutation_unique(q1, q2);
}

} // verus!
