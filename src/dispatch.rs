//! The dispatcher's decisions for one event taken from the main queue: what
//! the event's state does to the counters, where its transition leads, what
//! follows its action, and the event that is sent on.
use vstd::prelude::*;
use crate::catalog::{name_index, Events};
use crate::data::{policy_merge, Data, MergePolicy, Metadata};
use crate::events::{same_kind, same_state, ApiListenAction, EventType, NextEvent, ReferencingEvent, StateData};
use crate::json::json_merge;
use crate::numbers::{decimal, decimal_text, parse_u64, parsed_u64};

verus! {

/// What follows an event's action.
#[derive(Debug, Clone, Copy, PartialEq, Eq, Structural)]
pub enum Step {
    /// The transition leads back to the event itself: drop it.
    SelfLoop,
    /// Perform the action, then send the next event if the action succeeded.
    Forward,
    /// Perform the action; nothing is sent now (a source sends later).
    Stop,
    /// Outside its period: drop the event.
    Gated,
    /// Read the time again and hand the event to the scheduler.
    ToScheduler,
    /// Run the action on a worker, which sends the next event when done.
    Worker,
}

/// What follows an event, given the name its transition leads to and the
/// local instant.
pub open spec fn step_of(event: ReferencingEvent, next_name: Option<Seq<char>>, now: int) -> Step {
    if next_name == Some(event.name@) {
        Step::SelfLoop
    } else {
        match event.event_type {
            EventType::MqttSubscribe(_) => Step::Stop,
            EventType::MqttUnsubscribe(_) => Step::Forward,
            EventType::MqttPublish(_) => Step::Forward,
            EventType::ApiCall(_) => Step::Worker,
            EventType::ApiListen(l) => if l.action == ApiListenAction::Start { Step::Stop } else { Step::Forward },
            EventType::Period(p) => if p.0.contains(now) { Step::Forward } else { Step::Gated },
            EventType::Time(_) => Step::ToScheduler,
            EventType::Repeat(_) => Step::ToScheduler,
            EventType::FileRead(_) => Step::Forward,
            EventType::FileWrite(_) => Step::Forward,
            EventType::FileChanged(_) => Step::Stop,
            EventType::Watch(_) => Step::Forward,
            EventType::Execute(_) => Step::Worker,
            EventType::Print(_) => Step::Forward,
            EventType::ScanCodeRead(_) => Step::Stop,
            EventType::Pass => Step::Forward,
        }
    }
}

/// Decides what follows `event` (see [`step_of`]).
pub fn plan(event: &ReferencingEvent, next_name: &Option<String>, now: i64) -> (r: Step)
    ensures
        r == step_of(*event, match next_name { Some(n) => Some(n@), None => None }, now as int),
{
    let self_loop = match next_name {
        Some(n) => n.eq(&event.name),
        None => false,
    };
    if self_loop {
        return Step::SelfLoop;
    }
    match &event.event_type {
        EventType::MqttSubscribe(_) => Step::Stop,
        EventType::MqttUnsubscribe(_) => Step::Forward,
        EventType::MqttPublish(_) => Step::Forward,
        EventType::ApiCall(_) => Step::Worker,
        EventType::ApiListen(l) => match l.action {
            ApiListenAction::Start => Step::Stop,
            ApiListenAction::Stop => Step::Forward,
        },
        EventType::Period(p) => if p.is_within_period(now) {
            Step::Forward
        } else {
            Step::Gated
        },
        EventType::Time(_) => Step::ToScheduler,
        EventType::Repeat(_) => Step::ToScheduler,
        EventType::FileRead(_) => Step::Forward,
        EventType::FileWrite(_) => Step::Forward,
        EventType::FileChanged(_) => Step::Stop,
        EventType::Watch(_) => Step::Forward,
        EventType::Execute(_) => Step::Worker,
        EventType::Print(_) => Step::Forward,
        EventType::ScanCodeRead(_) => Step::Stop,
        EventType::Pass => Step::Forward,
    }
}

/// The name an event's transition leads to: the literal name, or what its
/// template rendered to (none when rendering failed).
pub fn next_name(event: &ReferencingEvent, rendered: Option<String>) -> (r: Option<String>)
    ensures
        match event.next_event {
            Some(NextEvent::Name(n)) => r == Some(n),
            Some(NextEvent::Template(_)) => r == rendered,
            None => r is None,
        },
{
    match &event.next_event {
        Some(NextEvent::Name(n)) => Some(n.clone()),
        Some(NextEvent::Template(_)) => rendered,
        None => None,
    }
}

/// Whether `out` is catalog event `c` with `data` and `metadata` folded in.
pub open spec fn forwarded(c: ReferencingEvent, data: crate::data::DataModel, metadata: crate::json::Json, out: ReferencingEvent) -> bool {
    &&& out.name == c.name
    &&& same_kind(&out.event_type, &c.event_type)
    &&& out.next_event == c.next_event
    &&& same_state(&out.state, &c.state)
    &&& out.merge_data == c.merge_data
    &&& out.data@ == policy_merge(c.data@, data, c.merge_data)
    &&& out.metadata@ == json_merge(c.metadata@, metadata)
}

/// The event sent on after an action: a copy of the catalog event named
/// `next_name`, with the payload folded in under its merge policy and the
/// metadata merged into its own.
pub fn forward(catalog: &Events, next_name: &Option<String>, data: Data, metadata: Metadata) -> (r: Option<ReferencingEvent>)
    requires
        catalog.wf(),
    ensures
        match next_name {
            None => r is None,
            Some(n) => (r is Some <==> name_index(catalog@, n@) >= 0)
                && (r matches Some(e) ==> forwarded(catalog@[name_index(catalog@, n@)], data@, metadata@, e)),
        },
{
    match next_name {
        None => None,
        Some(n) => match catalog.get_event_by_name(n.as_str()) {
            Some(mut e) => {
                e.merge(data);
                e.metadata.merge(metadata);
                Some(e)
            },
            None => None,
        },
    }
}

/// Arguments after the replacements, in order; none when a position is
/// past the end of the arguments.
pub open spec fn replaced_args(args: Seq<String>, reps: Seq<(usize, String)>) -> Option<Seq<String>>
    decreases reps.len(),
{
    if reps.len() == 0 {
        Some(args)
    } else {
        match replaced_args(args, reps.subrange(0, reps.len() - 1)) {
            None => None,
            Some(a) => {
                let (i, t) = reps[reps.len() - 1];
                if i < a.len() {
                    Some(a.update(i as int, t))
                } else {
                    None
                }
            },
        }
    }
}

/// Replaces command arguments by position with rendered texts.
pub fn apply_replace_args(args: Vec<String>, rendered: Vec<(usize, String)>) -> (r: Option<Vec<String>>)
    ensures
        match replaced_args(args@, rendered@) {
            None => r is None,
            Some(a) => r matches Some(v) && v@ == a,
        },
{
    let ghost reps = rendered@;
    let mut out = args;
    let ghost orig = out@;
    let mut rest = rendered;
    let n = rest.len();
    let mut i: usize = 0;
    while i < n
        invariant
            i <= n,
            n == reps.len(),
            rest@ == reps.subrange(i as int, n as int),
            replaced_args(orig, reps.subrange(0, i as int)) == Some(out@),
            orig == args@,
            reps == rendered@,
        decreases n - i,
    {
        let (pos, text) = rest.remove(0);
        proof {
            assert(reps[i as int] == (pos, text));
            assert(rest@ =~= reps.subrange(i + 1, n as int));
            assert(reps.subrange(0, i + 1).subrange(0, i as int) =~= reps.subrange(0, i as int));
        }
        if pos >= out.len() {
            proof {
                assert(reps.subrange(0, i + 1)[i as int] == (pos, text));
                assert(replaced_args(orig, reps.subrange(0, i + 1)) is None);
                lemma_replaced_none(orig, reps, (i + 1) as int);
            }
            return None;
        }
        out.set(pos, text);
        proof {
            assert(reps.subrange(0, i + 1)[i as int] == (pos, text));
        }
        i += 1;
    }
    proof {
        assert(reps.subrange(0, n as int) =~= reps);
    }
    Some(out)
}

/// Once a replacement fails, all longer runs of replacements fail.
proof fn lemma_replaced_none(args: Seq<String>, reps: Seq<(usize, String)>, k: int)
    requires
        0 <= k <= reps.len(),
        replaced_args(args, reps.subrange(0, k)) is None,
    ensures
        replaced_args(args, reps) is None,
    decreases reps.len() - k,
{
    if k < reps.len() {
        assert(reps.subrange(0, k + 1).subrange(0, k) =~= reps.subrange(0, k));
        lemma_replaced_none(args, reps, k + 1);
    } else {
        assert(reps.subrange(0, k) =~= reps);
    }
}

/// The views of a list of string pairs.
pub open spec fn pairs_view(s: Seq<(String, String)>) -> Seq<(Seq<char>, Seq<char>)> {
    s.map_values(|p: (String, String)| (p.0@, p.1@))
}

/// Position of the first pair keyed `k`, or -1.
pub open spec fn pair_index(m: Seq<(Seq<char>, Seq<char>)>, k: Seq<char>) -> int
    decreases m.len(),
{
    if m.len() == 0 {
        -1
    } else {
        let r = pair_index(m.subrange(0, m.len() - 1), k);
        if r >= 0 {
            r
        } else if m[m.len() - 1].0 == k {
            m.len() - 1
        } else {
            -1
        }
    }
}

proof fn lemma_pair_index(m: Seq<(Seq<char>, Seq<char>)>, k: Seq<char>)
    ensures
        -1 <= pair_index(m, k) < m.len(),
        pair_index(m, k) >= 0 ==> m[pair_index(m, k)].0 == k,
    decreases m.len(),
{
    if m.len() > 0 {
        let p = m.subrange(0, m.len() - 1);
        lemma_pair_index(p, k);
        assert forall|i: int| 0 <= i < m.len() - 1 implies m[i] == p[i] by {}
    }
}

/// `m` with key `k` set to `v`: in place when it exists, appended otherwise.
pub open spec fn pair_set(m: Seq<(Seq<char>, Seq<char>)>, k: Seq<char>, v: Seq<char>) -> Seq<(Seq<char>, Seq<char>)> {
    let i = pair_index(m, k);
    if i >= 0 {
        m.update(i, (k, v))
    } else {
        m.push((k, v))
    }
}

/// `m` with each pair of `reps` set in order.
pub open spec fn pairs_set_all(m: Seq<(Seq<char>, Seq<char>)>, reps: Seq<(Seq<char>, Seq<char>)>) -> Seq<(Seq<char>, Seq<char>)>
    decreases reps.len(),
{
    if reps.len() == 0 {
        m
    } else {
        let r = pairs_set_all(m, reps.subrange(0, reps.len() - 1));
        pair_set(r, reps[reps.len() - 1].0, reps[reps.len() - 1].1)
    }
}

/// A counter's next text: `0` the first time, else one more than its value
/// (a value that does not read as a number counts as 0; the largest value stays).
pub open spec fn bumped(current: Option<Seq<char>>) -> Seq<char> {
    match current {
        None => seq!['0'],
        Some(t) => match parsed_u64(t) {
            Some(v) => if v == u64::MAX { decimal(v as nat) } else { decimal((v + 1) as nat) },
            None => decimal(1),
        },
    }
}

/// The texts the templates see under `state`: counters and fixed values.
#[derive(Debug)]
pub struct DispatchState {
    pub values: Vec<(String, String)>,
}

impl DispatchState {
    pub open spec fn view_pairs(&self) -> Seq<(Seq<char>, Seq<char>)> {
        pairs_view(self.values@)
    }

    pub fn new() -> (r: DispatchState)
        ensures
            r.values@.len() == 0,
    {
        DispatchState { values: Vec::new() }
    }

    fn find(&self, k: &str) -> (r: Option<usize>)
        ensures
            r matches Some(i) ==> pair_index(self.view_pairs(), k@) == i,
            r is None ==> pair_index(self.view_pairs(), k@) == -1,
    {
        let ghost m = self.view_pairs();
        let mut found: Option<usize> = None;
        let mut i: usize = 0;
        while i < self.values.len()
            invariant
                i <= self.values.len(),
                m == pairs_view(self.values@),
                m.len() == self.values@.len(),
                found matches Some(j) ==> pair_index(m.subrange(0, i as int), k@) == j,
                found is None ==> pair_index(m.subrange(0, i as int), k@) == -1,
            decreases self.values.len() - i,
        {
            proof {
                assert(m.subrange(0, i + 1).subrange(0, i as int) =~= m.subrange(0, i as int));
                assert(m[i as int] == (self.values@[i as int].0@, self.values@[i as int].1@));
            }
            if found.is_none() && crate::events::str_eq(self.values[i].0.as_str(), k) {
                found = Some(i);
            }
            i += 1;
        }
        proof {
            assert(m.subrange(0, self.values.len() as int) =~= m);
        }
        found
    }

    /// The text under `k`.
    pub fn get(&self, k: &str) -> (r: Option<String>)
        ensures
            pair_index(self.view_pairs(), k@) < 0 ==> r is None,
            pair_index(self.view_pairs(), k@) >= 0 ==> (r matches Some(v) && v@ == self.view_pairs()[pair_index(self.view_pairs(), k@)].1),
    {
        proof {
            lemma_pair_index(self.view_pairs(), k@);
        }
        match self.find(k) {
            Some(i) => Some(self.values[i].1.clone()),
            None => None,
        }
    }

    /// Sets `k` to `v`.
    pub fn set(&mut self, k: &str, v: String)
        ensures
            final(self).view_pairs() == pair_set(old(self).view_pairs(), k@, v@),
    {
        proof {
            lemma_pair_index(self.view_pairs(), k@);
        }
        let key = k.to_owned();
        match self.find(k) {
            Some(i) => {
                self.values.set(i, (key, v));
                proof {
                    assert(self.view_pairs() =~= pair_set(old(self).view_pairs(), k@, v@));
                }
            },
            None => {
                self.values.push((key, v));
                proof {
                    assert(self.view_pairs() =~= pair_set(old(self).view_pairs(), k@, v@));
                }
            },
        }
    }

    /// What firing an event with `state` does: its counter is bumped, then
    /// its fixed values are set, in order.
    pub fn fire(&mut self, state: &Option<StateData>)
        ensures
            match state {
                None => final(self).view_pairs() == old(self).view_pairs(),
                Some(st) => {
                    let counted = match st.count {
                        Some(key) => pair_set(old(self).view_pairs(), key@, bumped(
                            if pair_index(old(self).view_pairs(), key@) >= 0 {
                                Some(old(self).view_pairs()[pair_index(old(self).view_pairs(), key@)].1)
                            } else {
                                None
                            },
                        )),
                        None => old(self).view_pairs(),
                    };
                    final(self).view_pairs() == pairs_set_all(counted, pairs_view(st.replace@))
                },
            },
    {
        match state {
            None => {},
            Some(st) => {
                match &st.count {
                    Some(key) => {
                        let next = match self.get(key.as_str()) {
                            None => push_zero(),
                            Some(t) => match parse_u64(t.as_str()) {
                                Some(v) => if v == u64::MAX {
                                    decimal_text(v)
                                } else {
                                    decimal_text(v + 1)
                                },
                                None => decimal_text(1),
                            },
                        };
                        self.set(key.as_str(), next);
                    },
                    None => {},
                }
                let ghost counted = self.view_pairs();
                let ghost reps = pairs_view(st.replace@);
                let mut i: usize = 0;
                while i < st.replace.len()
                    invariant
                        i <= st.replace.len(),
                        reps == pairs_view(st.replace@),
                        reps.len() == st.replace@.len(),
                        self.view_pairs() == pairs_set_all(counted, reps.subrange(0, i as int)),
                    decreases st.replace.len() - i,
                {
                    proof {
                        assert(reps.subrange(0, i + 1).subrange(0, i as int) =~= reps.subrange(0, i as int));
                        assert(reps[i as int] == (st.replace@[i as int].0@, st.replace@[i as int].1@));
                    }
                    self.set(st.replace[i].0.as_str(), st.replace[i].1.clone());
                    i += 1;
                }
                proof {
                    assert(reps.subrange(0, st.replace.len() as int) =~= reps);
                }
            },
        }
    }
}

/// What an action's output makes of the event's payload: a command's output
/// is the new payload (its input went to the command), unless the policy is
/// `no`; any other action's output is folded in under the event's policy.
pub open spec fn absorbed(event: ReferencingEvent, output: crate::data::DataModel) -> crate::data::DataModel {
    match event.event_type {
        EventType::Execute(_) => if event.merge_data == MergePolicy::No { event.data@ } else { output },
        _ => policy_merge(event.data@, output, event.merge_data),
    }
}

/// Takes an action's output into the event: the payload as [`absorbed`]
/// says, and the output's metadata merged into the event's.
pub fn absorb_output(event: &mut ReferencingEvent, output: Data, metadata: Metadata)
    ensures
        final(event).data@ == absorbed(*old(event), output@),
        final(event).metadata@ == json_merge(old(event).metadata@, metadata@),
        final(event).name == old(event).name,
        final(event).event_type == old(event).event_type,
        final(event).next_event == old(event).next_event,
        final(event).state == old(event).state,
        final(event).merge_data == old(event).merge_data,
{
    let is_command = match &event.event_type {
        EventType::Execute(_) => true,
        _ => false,
    };
    if is_command {
        match event.merge_data {
            MergePolicy::No => {},
            _ => {
                event.data = output;
            },
        }
    } else {
        let policy = event.merge_data;
        event.data.merge_with_policy(output, policy);
    }
    event.metadata.merge(metadata);
}

/// What a publish event sends: the rendered body when it has a body
/// template, else the payload's bytes; nothing when rendering failed, the
/// payload cannot be written, or the bytes are empty.
pub fn publish_body(has_template: bool, rendered: Option<Vec<u8>>, data: &Data) -> (r: Option<Vec<u8>>)
    ensures
        ({
            let chosen = if has_template {
                match rendered { Some(b) => Some(b@), None => None }
            } else {
                crate::data::data_bytes(data@)
            };
            match chosen {
                Some(b) => if b.len() > 0 { r matches Some(v) && v@ == b } else { r is None },
                None => r is None,
            }
        }),
{
    let chosen = if has_template {
        rendered
    } else {
        data.as_bytes()
    };
    match chosen {
        Some(b) => if b.len() > 0 {
            Some(b)
        } else {
            None
        },
        None => None,
    }
}

fn push_zero() -> (r: String)
    ensures
        r@ == seq!['0'],
{
    crate::text::push_char(String::new(), '0')
}

} // verus!
