use std::time::{Duration, Instant};
use vstd::prelude::*;

verus! {

broadcast use vstd::string::group_string_axioms;

/// How deeply a timer is nested: 0 for a timer pushed on an empty stack.
pub type Generation = u32;

/// A finished timer: its label, how long it ran, and how deeply it was nested.
pub type TimerRecord = (String, Duration, Generation);

#[verifier::external_type_specification]
#[verifier::external_body]
pub struct ExInstant(Instant);

/// Calls `std::time::Instant::now`. Nothing is claimed of the instant.
#[verifier::external_body]
fn instant_now() -> Instant {
    Instant::now()
}

/// Calls `std::time::Instant::elapsed`. Nothing is claimed of the duration,
/// which depends on the clock.
#[verifier::external_body]
fn instant_elapsed(instant: &Instant) -> Duration {
    instant.elapsed()
}

/// The label and nesting depth of a finished timer.
pub open spec fn record_log(r: TimerRecord) -> (Seq<char>, Generation) {
    (r.0@, r.2)
}

/// The groups that `s` falls into, read from the left, when a group is closed
/// right after each record of generation `g`: the closed groups of the first
/// `n` records, and the group still open after them.
pub open spec fn split_prefix(s: Seq<TimerRecord>, g: Generation, n: nat) -> (
    Seq<Seq<TimerRecord>>,
    Seq<TimerRecord>,
)
    decreases n,
{
    if n == 0 {
        (Seq::empty(), Seq::empty())
    } else {
        let (groups, open) = split_prefix(s, g, (n - 1) as nat);
        let open2 = open.push(s[n - 1]);
        if s[n - 1].2 == g {
            (groups.push(open2), Seq::empty())
        } else {
            (groups, open2)
        }
    }
}

/// `s` split into consecutive non-empty groups, each ending right after a
/// record of generation `g` (the last group may end without one).
pub open spec fn split_after(s: Seq<TimerRecord>, g: Generation) -> Seq<Seq<TimerRecord>> {
    let (groups, open) = split_prefix(s, g, s.len());
    if open.len() > 0 {
        groups.push(open)
    } else {
        groups
    }
}

proof fn lemma_split_prefix_lengths(s: Seq<TimerRecord>, g: Generation, n: nat)
    requires
        n <= s.len(),
    ensures
        split_prefix(s, g, n).1.len() <= n,
        forall|j: int|
            0 <= j < split_prefix(s, g, n).0.len() ==> 0 < (#[trigger] split_prefix(s, g, n).0[j]).len()
                <= n,
    decreases n,
{
    if n > 0 {
        lemma_split_prefix_lengths(s, g, (n - 1) as nat);
    }
}

/// Every group is non-empty and no longer than the records it comes from.
pub proof fn lemma_split_after_lengths(s: Seq<TimerRecord>, g: Generation)
    ensures
        forall|j: int|
            0 <= j < split_after(s, g).len() ==> 0 < (#[trigger] split_after(s, g)[j]).len() <= s.len(),
{
    lemma_split_prefix_lengths(s, g, s.len());
}

/// A tree of timers: a timer and the timers that ran inside it.
pub struct TimerInfo {
    pub label: String,
    pub duration: Duration,
    pub children: Vec<TimerInfo>,
}

/// `t` is the tree that the finished timers `recs` describe: the last record
/// is the root, and the records before it split into the subtrees of its
/// children, each ending with a child one generation deeper.
pub open spec fn built_from(t: TimerInfo, recs: Seq<TimerRecord>) -> bool
    decreases t,
{
    &&& recs.len() > 0
    &&& t.label@ == recs.last().0@
    &&& t.duration == recs.last().1
    &&& t.children@.len() == split_after(recs.drop_last(), (recs.last().2 + 1) as u32).len()
    &&& forall|i: int|
        0 <= i < t.children@.len() ==> built_from(
            #[trigger] t.children@[i],
            split_after(recs.drop_last(), (recs.last().2 + 1) as u32)[i],
        )
}

/// Every record is of a generation below the largest.
pub open spec fn generations_bounded(recs: Seq<TimerRecord>) -> bool {
    forall|i: int| 0 <= i < recs.len() ==> (#[trigger] recs[i]).2 < u32::MAX
}

impl TimerInfo {
    /// The tree of timers described by `input`, whose last record is the root.
    pub fn new(input: &[TimerRecord]) -> (t: TimerInfo)
        requires
            input@.len() > 0,
            generations_bounded(input@),
        ensures
            built_from(t, input@),
    {
        assert(input@.subrange(0, input@.len() as int) =~= input@);
        Self::build(input, 0, input.len())
    }

    fn build(input: &[TimerRecord], start: usize, end: usize) -> (t: TimerInfo)
        requires
            start < end <= input@.len(),
            generations_bounded(input@),
        ensures
            built_from(t, input@.subrange(start as int, end as int)),
        decreases end - start,
    {
        let ghost recs = input@.subrange(start as int, end as int);
        let (label, duration, generation) = &input[end - 1];
        let g = *generation + 1;
        let ghost rest = recs.drop_last();
        let ghost groups = split_after(rest, g);
        proof {
            assert(recs.last() == input@[end - 1]);
            lemma_split_after_lengths(rest, g);
        }
        let mut children: Vec<TimerInfo> = Vec::new();
        let mut group_start = start;
        let mut i = start;
        while i < end - 1
            invariant
                start <= group_start <= i <= end - 1,
                end <= input@.len(),
                generations_bounded(input@),
                recs == input@.subrange(start as int, end as int),
                rest == recs.drop_last(),
                split_prefix(rest, g, (i - start) as nat).1 == input@.subrange(
                    group_start as int,
                    i as int,
                ),
                children@.len() == split_prefix(rest, g, (i - start) as nat).0.len(),
                forall|j: int|
                    0 <= j < children@.len() ==> built_from(
                        #[trigger] children@[j],
                        split_prefix(rest, g, (i - start) as nat).0[j],
                    ),
            decreases end - 1 - i,
        {
            proof {
                lemma_split_prefix_lengths(rest, g, (i - start + 1) as nat);
                assert(rest[i - start] == input@[i as int]);
                assert(input@.subrange(group_start as int, i + 1) =~= input@.subrange(
                    group_start as int,
                    i as int,
                ).push(input@[i as int]));
            }
            if input[i].2 == g {
                let child = Self::build(input, group_start, i + 1);
                children.push(child);
                group_start = i + 1;
                proof {
                    assert(input@.subrange(group_start as int, i + 1) =~= Seq::<
                        TimerRecord,
                    >::empty());
                }
            }
            i = i + 1;
        }
        if group_start < end - 1 {
            let child = Self::build(input, group_start, end - 1);
            children.push(child);
        }
        proof {
            assert(rest.len() == end - 1 - start);
            assert(split_after(rest, g) =~= groups);
        }
        TimerInfo { label: label.clone(), duration: *duration, children }
    }
}

/// The trees of timers recorded by a `DebugTimer`, one per outermost timer.
pub struct DebugTimerInfo {
    pub roots: Vec<TimerInfo>,
}

/// `info` holds one tree per group of `recs` that ends with an outermost
/// (generation 0) timer, in order.
pub open spec fn roots_built_from(info: DebugTimerInfo, recs: Seq<TimerRecord>) -> bool {
    &&& info.roots@.len() == split_after(recs, 0).len()
    &&& forall|i: int|
        0 <= i < info.roots@.len() ==> built_from(#[trigger] info.roots@[i], split_after(recs, 0)[i])
}

impl DebugTimerInfo {
    /// Groups finished timers into trees, closing a tree after each outermost timer.
    pub fn new(input_vec: Vec<TimerRecord>) -> (info: DebugTimerInfo)
        requires
            generations_bounded(input_vec@),
        ensures
            roots_built_from(info, input_vec@),
    {
        let ghost recs = input_vec@;
        let input = input_vec.as_slice();
        let n = input.len();
        proof {
            lemma_split_after_lengths(recs, 0);
        }
        let mut roots: Vec<TimerInfo> = Vec::new();
        let mut group_start: usize = 0;
        let mut i: usize = 0;
        while i < n
            invariant
                n == recs.len(),
                input@ == recs,
                generations_bounded(recs),
                group_start <= i <= n,
                split_prefix(recs, 0, i as nat).1 == recs.subrange(group_start as int, i as int),
                roots@.len() == split_prefix(recs, 0, i as nat).0.len(),
                forall|j: int|
                    0 <= j < roots@.len() ==> built_from(
                        #[trigger] roots@[j],
                        split_prefix(recs, 0, i as nat).0[j],
                    ),
            decreases n - i,
        {
            proof {
                assert(recs.subrange(group_start as int, i + 1) =~= recs.subrange(
                    group_start as int,
                    i as int,
                ).push(recs[i as int]));
            }
            if input[i].2 == 0 {
                let root = TimerInfo::build(input, group_start, i + 1);
                roots.push(root);
                group_start = i + 1;
                proof {
                    assert(recs.subrange(group_start as int, i + 1) =~= Seq::<
                        TimerRecord,
                    >::empty());
                }
            }
            i = i + 1;
        }
        if group_start < n {
            let root = TimerInfo::build(input, group_start, n);
            roots.push(root);
        }
        proof {
            assert(split_after(recs, 0) =~= (if split_prefix(recs, 0, n as nat).1.len() > 0 {
                split_prefix(recs, 0, n as nat).0.push(split_prefix(recs, 0, n as nat).1)
            } else {
                split_prefix(recs, 0, n as nat).0
            }));
        }
        DebugTimerInfo { roots }
    }
}

/// A stack of running timers, and a log of the timers that have finished.
pub struct DebugTimer {
    current_gen: Generation,
    stack: Vec<(String, Instant)>,
    popped: Vec<TimerRecord>,
}

/// Popping right after a push stops the timer just pushed: the running timers
/// and the depth are back where they were, and the log gains the pushed label
/// at the depth at which it ran.
pub proof fn lemma_pop_undoes_push(t0: DebugTimer, t1: DebugTimer, t2: DebugTimer, label: Seq<char>)
    requires
        t0.wf(),
        t1.generation() == t0.generation() + 1,
        t1.running() == t0.running().push(label),
        t1.finished() == t0.finished(),
        t2.generation() == t1.generation() - 1,
        t2.running() == t1.running().drop_last(),
        t2.finished().drop_last() == t1.finished(),
        t2.finished().len() == t1.finished().len() + 1,
        record_log(t2.finished().last()) == (t1.running().last(), (t1.generation() - 1) as Generation),
    ensures
        t2.running() == t0.running(),
        t2.generation() == t0.generation(),
        t2.finished().drop_last() == t0.finished(),
        record_log(t2.finished().last()) == (label, t0.generation()),
{
    assert(t0.running().push(label).drop_last() =~= t0.running());
}

impl DebugTimer {
    /// The depth counter agrees with the stack, and the log holds only depths
    /// that a stack can reach.
    pub closed spec fn wf(&self) -> bool {
        &&& self.current_gen == self.stack@.len()
        &&& generations_bounded(self.popped@)
    }

    /// The depth of the next timer to be pushed.
    pub closed spec fn generation(&self) -> Generation {
        self.current_gen
    }

    /// The labels of the running timers, outermost first.
    pub closed spec fn running(&self) -> Seq<Seq<char>> {
        self.stack@.map_values(|e: (String, Instant)| e.0@)
    }

    /// The finished timers, in the order in which they finished.
    pub closed spec fn finished(&self) -> Seq<TimerRecord> {
        self.popped@
    }

    /// A timer with nothing running and nothing finished.
    pub fn new() -> (t: Self)
        ensures
            t.wf(),
            t.generation() == 0,
            t.running() == Seq::<Seq<char>>::empty(),
            t.finished() == Seq::<TimerRecord>::empty(),
    {
        let t = Self { current_gen: 0, stack: Vec::new(), popped: Vec::new() };
        assert(t.running() =~= Seq::<Seq<char>>::empty());
        t
    }

    /// The depth of the next timer to be pushed.
    pub fn current_gen(&self) -> (g: Generation)
        ensures
            g == self.generation(),
    {
        self.current_gen
    }

    /// The number of running timers.
    pub fn stack_len(&self) -> (n: usize)
        ensures
            n == self.running().len(),
    {
        self.stack.len()
    }

    /// The number of finished timers.
    pub fn popped_len(&self) -> (n: usize)
        ensures
            n == self.finished().len(),
    {
        self.popped.len()
    }

    /// Starts a timer named `label` inside the running ones.
    pub fn push(&mut self, label: &str)
        requires
            old(self).wf(),
            old(self).generation() < u32::MAX,
        ensures
            final(self).wf(),
            final(self).generation() == old(self).generation() + 1,
            final(self).running() == old(self).running().push(label@),
            final(self).finished() == old(self).finished(),
    {
        self.current_gen = self.current_gen + 1;
        let now = instant_now();
        self.stack.push((label.to_string(), now));
        assert(self.running() =~= old(self).running().push(label@));
    }

    /// Stops the innermost running timer, if any, and logs it with its depth.
    pub fn pop(&mut self)
        requires
            old(self).wf(),
        ensures
            final(self).wf(),
            old(self).running().len() == 0 ==> final(self).generation() == old(self).generation()
                && final(self).running() == old(self).running() && final(self).finished() == old(
                self,
            ).finished(),
            old(self).running().len() > 0 ==> {
                &&& final(self).generation() == old(self).generation() - 1
                &&& final(self).running() == old(self).running().drop_last()
                &&& final(self).finished().len() == old(self).finished().len() + 1
                &&& final(self).finished().drop_last() == old(self).finished()
                &&& record_log(final(self).finished().last()) == (
                    old(self).running().last(),
                    (old(self).generation() - 1) as Generation,
                )
            },
    {
        if let Some((label, instant)) = self.stack.pop() {
            self.current_gen = self.current_gen - 1;
            let elapsed = instant_elapsed(&instant);
            self.popped.push((label, elapsed, self.current_gen));
            proof {
                assert(self.running() =~= old(self).running().drop_last());
                assert(self.finished().drop_last() =~= old(self).finished());
            }
        }
    }

    /// Stops every running timer, innermost first, and groups all finished
    /// timers into trees.
    pub fn finish(self) -> (info: DebugTimerInfo)
        requires
            self.wf(),
        ensures
            exists|recs: Seq<TimerRecord>|
                {
                    &&& recs.len() == self.finished().len() + self.running().len()
                    &&& recs.take(self.finished().len() as int) == self.finished()
                    &&& forall|i: int|
                        0 <= i < self.running().len() ==> record_log(
                            #[trigger] recs[self.finished().len() + i],
                        ) == (
                            self.running()[self.running().len() - 1 - i],
                            (self.running().len() - 1 - i) as Generation,
                        )
                    &&& roots_built_from(info, recs)
                },
    {
        let ghost start = self;
        let ghost n0 = self.finished().len();
        let ghost m = self.running().len();
        let mut timer = self;
        while timer.stack.len() > 0
            invariant
                timer.wf(),
                timer.running() == start.running().take(timer.running().len() as int),
                timer.finished().len() == n0 + (m - timer.running().len()),
                timer.finished().take(n0 as int) == start.finished(),
                forall|i: int|
                    0 <= i < m - timer.running().len() ==> record_log(
                        #[trigger] timer.finished()[n0 + i],
                    ) == (start.running()[m - 1 - i], (m - 1 - i) as Generation),
                n0 == start.finished().len(),
                m == start.running().len(),
                timer.running().len() <= m,
            decreases timer.stack.len(),
        {
            let ghost before = timer;
            timer.pop();
            proof {
                let k = before.running().len();
                assert(timer.running() =~= start.running().take(timer.running().len() as int));
                assert(timer.finished().take(n0 as int) =~= before.finished().take(n0 as int));
                assert forall|i: int|
                    0 <= i < m - timer.running().len() implies record_log(
                    #[trigger] timer.finished()[n0 + i],
                ) == (start.running()[m - 1 - i], (m - 1 - i) as Generation) by {
                    if i < m - k {
                        assert(timer.finished()[n0 + i] == before.finished()[n0 + i]);
                    } else {
                        assert(before.running().last() == start.running()[k - 1]);
                    }
                }
            }
        }
        DebugTimerInfo::new(timer.popped)
    }
}

} // verus!
