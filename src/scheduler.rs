//! The timer scheduler: pending time and repeat events keyed by event id,
//! a cool-down after each firing, and the decisions of each tick.
use vstd::prelude::*;
use crate::catalog::{catalog_entries, map_index_of, map_insert, map_new, map_set, map_take_all, next_event_spec, next_resolves, Events};
use crate::data::{policy_merge, DataModel};
use crate::events::{EventType, ReferencingEvent};
use crate::time::{COOL_DOWN_MS, EXECUTION_PERIOD_MS};

verus! {

/// Position of the first entry keyed `k`, or -1.
pub open spec fn id_index<V>(s: Seq<(String, V)>, k: Seq<char>) -> int
    decreases s.len(),
{
    if s.len() == 0 {
        -1
    } else {
        let r = id_index(s.subrange(0, s.len() - 1), k);
        if r >= 0 {
            r
        } else if s[s.len() - 1].0@ == k {
            s.len() - 1
        } else {
            -1
        }
    }
}

pub proof fn lemma_id_index<V>(s: Seq<(String, V)>, k: Seq<char>)
    ensures
        -1 <= id_index(s, k) < s.len(),
        id_index(s, k) >= 0 ==> s[id_index(s, k)].0@ == k,
        id_index(s, k) == -1 <==> forall|i: int| 0 <= i < s.len() ==> s[i].0@ != k,
    decreases s.len(),
{
    if s.len() > 0 {
        let p = s.subrange(0, s.len() - 1);
        lemma_id_index(p, k);
        assert forall|i: int| 0 <= i < s.len() - 1 implies s[i] == p[i] by {}
    }
}

/// Whether no two entries share a key.
pub open spec fn ids_unique<V>(s: Seq<(String, V)>) -> bool {
    forall|i: int, j: int| 0 <= i < j < s.len() ==> #[trigger] s[i].0@ != #[trigger] s[j].0@
}

/// The elements of `s` that satisfy `p`, in order.
pub open spec fn keep<A>(s: Seq<A>, p: spec_fn(A) -> bool) -> Seq<A>
    decreases s.len(),
{
    if s.len() == 0 {
        s
    } else {
        let r = keep(s.subrange(0, s.len() - 1), p);
        if p(s[s.len() - 1]) {
            r.push(s[s.len() - 1])
        } else {
            r
        }
    }
}

/// Whether the time trigger of `e` is due at `now`.
pub open spec fn due(e: ReferencingEvent, now: int) -> bool {
    match e.event_type {
        EventType::Time(t) => -EXECUTION_PERIOD_MS < t.execute_time.reading(now) - t.execute_time.value() < EXECUTION_PERIOD_MS,
        EventType::Repeat(t) => -EXECUTION_PERIOD_MS < t.execute_time.reading(now) - t.execute_time.value() < EXECUTION_PERIOD_MS,
        _ => false,
    }
}

/// Whether the moment of `e` is more than a second past (never for a time of day).
pub open spec fn expired_at(e: ReferencingEvent, now: int) -> bool {
    match e.event_type {
        EventType::Time(t) => !(t.execute_time is Time) && t.execute_time.value() < now - EXECUTION_PERIOD_MS,
        EventType::Repeat(t) => !(t.execute_time is Time) && t.execute_time.value() < now - EXECUTION_PERIOD_MS,
        _ => false,
    }
}

/// Whether a pending entry fires: its id is not cooling down, it is due,
/// and its transition leads somewhere.
pub open spec fn ready(catalog: Seq<ReferencingEvent>, cooling: Seq<(String, i64)>, now: int, entry: (String, ReferencingEvent)) -> bool {
    id_index(cooling, entry.0@) < 0 && due(entry.1, now) && next_resolves(catalog, entry.1)
}

/// The event sent on when `e` fires: the event its transition leads to, with
/// the payload of `e` folded in under that event's merge policy.
pub open spec fn fired_next(catalog: Seq<ReferencingEvent>, e: ReferencingEvent, out: ReferencingEvent) -> bool {
    exists|n: ReferencingEvent|
        next_event_spec(catalog, e, Some(n)) && out == (ReferencingEvent { data: out.data, ..n })
            && out.data@ == policy_merge(n.data@, e.data@, n.merge_data)
}

/// One pending entry that fired.
#[derive(Debug)]
pub struct Firing {
    /// The event id, to forget in the persistent store.
    pub id: String,
    /// The next event, to send to the main queue.
    pub next: ReferencingEvent,
    /// A repeat event itself, to send to the main queue after `next`.
    pub repeat: Option<ReferencingEvent>,
}

/// What a tick decided.
#[derive(Debug)]
pub struct Tick {
    /// The entries that fired, in pending order.
    pub fired: Vec<Firing>,
    /// The ids of expired entries that were dropped (only when nothing fired).
    pub expired: Vec<String>,
}

/// Pending time and repeat events, and the ids cooling down.
#[derive(Debug)]
pub struct Scheduler {
    /// Pending events keyed by event id, in insertion order.
    pub pending: indexmap::IndexMap<String, ReferencingEvent>,
    /// Ids that fired, with the instant they fired.
    pub cooldown: Vec<(String, i64)>,
}

impl Scheduler {
    /// The pending entries, in insertion order.
    pub open spec fn pending_list(&self) -> Seq<(String, ReferencingEvent)> {
        catalog_entries(self.pending)
    }

    /// At most one pending entry per event id.
    pub open spec fn wf(&self) -> bool {
        ids_unique(self.pending_list())
    }

    /// A scheduler with nothing pending.
    pub fn new() -> (r: Scheduler)
        ensures
            r.wf(),
            r.pending_list().len() == 0,
            r.cooldown@.len() == 0,
    {
        Scheduler { pending: map_new(), cooldown: Vec::new() }
    }

    /// Schedules `event` under `id`, replacing (in place) any entry of the same id.
    pub fn schedule(&mut self, id: String, event: ReferencingEvent)
        requires
            old(self).wf(),
        ensures
            final(self).wf(),
            final(self).cooldown == old(self).cooldown,
            id_index(old(self).pending_list(), id@) >= 0 ==> final(self).pending_list() == old(self).pending_list().update(
                id_index(old(self).pending_list(), id@),
                (old(self).pending_list()[id_index(old(self).pending_list(), id@)].0, event),
            ),
            id_index(old(self).pending_list(), id@) < 0 ==> final(self).pending_list() == old(self).pending_list().push((id, event)),
    {
        let ghost before = self.pending_list();
        proof {
            lemma_id_index(before, id@);
        }
        match map_index_of(&self.pending, id.as_str()) {
            Some(i) => {
                proof {
                    let k = id_index(before, id@);
                    if k != i as int {
                        if k < i {
                            assert(before[k].0@ != before[i as int].0@);
                        } else {
                            assert(before[i as int].0@ != before[k].0@);
                        }
                    }
                }
                map_set(&mut self.pending, i, event);
                proof {
                    assert forall|a: int, b: int| 0 <= a < b < self.pending_list().len() implies #[trigger] self.pending_list()[a].0@
                        != #[trigger] self.pending_list()[b].0@ by {
                        assert(self.pending_list()[a].0 == before[a].0 && self.pending_list()[b].0 == before[b].0);
                    }
                }
            },
            None => {
                map_insert(&mut self.pending, id, event);
                proof {
                    assert forall|a: int, b: int| 0 <= a < b < self.pending_list().len() implies #[trigger] self.pending_list()[a].0@
                        != #[trigger] self.pending_list()[b].0@ by {
                        if b < before.len() {
                            assert(self.pending_list()[a] == before[a] && self.pending_list()[b] == before[b]);
                        } else {
                            assert(self.pending_list()[a] == before[a]);
                        }
                    }
                }
            },
        }
    }

    /// One tick at `now`: forgets cool-downs older than the cool-down span,
    /// fires every ready entry, and, when none fired, drops expired entries.
    pub fn tick(&mut self, catalog: &Events, now: i64) -> (r: Tick)
        requires
            old(self).wf(),
            catalog.wf(),
        ensures
            final(self).wf(),
            ({
                let cooling = keep(old(self).cooldown@, |c: (String, i64)| now - c.1 <= COOL_DOWN_MS);
                let fires = |e: (String, ReferencingEvent)| ready(catalog@, cooling, now as int, e);
                let firing = keep(old(self).pending_list(), fires);
                let staying = keep(old(self).pending_list(), |e: (String, ReferencingEvent)| !fires(e));
                &&& r.fired@.len() == firing.len()
                &&& forall|i: int| 0 <= i < firing.len() ==> {
                    &&& (#[trigger] r.fired@[i]).id == firing[i].0
                    &&& due(firing[i].1, now as int)
                    &&& id_index(cooling, firing[i].0@) < 0
                    &&& fired_next(catalog@, firing[i].1, r.fired@[i].next)
                    &&& r.fired@[i].repeat == if firing[i].1.event_type is Repeat { Some(firing[i].1) } else { None }
                }
                &&& firing.len() > 0 ==> final(self).pending_list() == staying && r.expired@.len() == 0
                &&& firing.len() == 0 ==> final(self).pending_list() == keep(old(self).pending_list(), |e: (String, ReferencingEvent)| !expired_at(e.1, now as int))
                &&& firing.len() == 0 ==> strings_of_keys(r.expired@) == keys_of(keep(old(self).pending_list(), |e: (String, ReferencingEvent)| expired_at(e.1, now as int)))
                &&& final(self).cooldown@.len() == cooling.len() + firing.len()
                &&& final(self).cooldown@.subrange(0, cooling.len() as int) == cooling
                &&& forall|i: int| 0 <= i < firing.len() ==> (#[trigger] final(self).cooldown@[cooling.len() + i]).0@ == firing[i].0@
                    && final(self).cooldown@[cooling.len() + i].1 == now
            }),
    {
        let ghost cd_old = self.cooldown@;
        let ghost keep_cd = |c: (String, i64)| now - c.1 <= COOL_DOWN_MS;
        let mut old_cd: Vec<(String, i64)> = Vec::new();
        std::mem::swap(&mut self.cooldown, &mut old_cd);
        let mut cooling: Vec<(String, i64)> = Vec::new();
        let n = old_cd.len();
        let mut i: usize = 0;
        while i < n
            invariant
                i <= n,
                n == cd_old.len(),
                old_cd@ == cd_old.subrange(i as int, n as int),
                keep_cd == (|c: (String, i64)| now - c.1 <= COOL_DOWN_MS),
                cooling@ == keep(cd_old.subrange(0, i as int), keep_cd),
            decreases n - i,
        {
            let c = old_cd.remove(0);
            proof {
                assert(cd_old[i as int] == c);
                assert(old_cd@ =~= cd_old.subrange(i + 1, n as int));
                assert(cd_old.subrange(0, i + 1).subrange(0, i as int) =~= cd_old.subrange(0, i as int));
            }
            if (now as i128 - c.1 as i128) <= COOL_DOWN_MS as i128 {
                cooling.push(c);
            }
            i += 1;
        }
        proof {
            assert(cd_old.subrange(0, n as int) =~= cd_old);
        }
        let ghost cool = cooling@;
        let ghost fires = |e: (String, ReferencingEvent)| ready(catalog@, cool, now as int, e);
        let ghost pend = self.pending_list();
        let mut rest = map_take_all(&mut self.pending);
        let mut staying: Vec<(String, ReferencingEvent)> = Vec::new();
        let mut fired: Vec<Firing> = Vec::new();
        let mut fired_ids: Vec<(String, i64)> = Vec::new();
        let m = rest.len();
        let mut j: usize = 0;
        while j < m
            invariant
                j <= m,
                m == pend.len(),
                rest@ == pend.subrange(j as int, m as int),
                cooling@ == cool,
                catalog.wf(),
                fires == (|e: (String, ReferencingEvent)| ready(catalog@, cool, now as int, e)),
                staying@ == keep(pend.subrange(0, j as int), |e: (String, ReferencingEvent)| !fires(e)),
                fired@.len() == keep(pend.subrange(0, j as int), fires).len(),
                fired_ids@.len() == fired@.len(),
                forall|k: int| 0 <= k < fired_ids@.len() ==> (#[trigger] fired_ids@[k]).0@ == fired@[k].id@ && fired_ids@[k].1 == now,
                forall|k: int| 0 <= k < fired@.len() ==> {
                    let f = keep(pend.subrange(0, j as int), fires)[k];
                    &&& (#[trigger] fired@[k]).id == f.0
                    &&& due(f.1, now as int)
                    &&& id_index(cool, f.0@) < 0
                    &&& fired_next(catalog@, f.1, fired@[k].next)
                    &&& fired@[k].repeat == if f.1.event_type is Repeat { Some(f.1) } else { None }
                },
            decreases m - j,
        {
            let (id, ev) = rest.remove(0);
            let ghost entry = (id, ev);
            proof {
                assert(pend[j as int] == entry);
                assert(rest@ =~= pend.subrange(j + 1, m as int));
                assert(pend.subrange(0, j + 1).subrange(0, j as int) =~= pend.subrange(0, j as int));
                assert(pend.subrange(0, j + 1)[j as int] == entry);
            }
            let cool_ok = find_id(&cooling, &id).is_none();
            let due_ok = match ev.time_event() {
                Some(t) => t.matches(now),
                None => false,
            };
            let next_opt = if cool_ok && due_ok {
                catalog.get_next_event(&ev)
            } else {
                None
            };
            proof {
                assert(next_opt is Some <==> fires(entry));
            }
            match next_opt {
                Some(mut next) => {
                    let ghost before = next;
                    next.merge(ev.data.copy());
                    proof {
                        assert(next == (ReferencingEvent { data: next.data, ..before }));
                        assert(fired_next(catalog@, ev, next));
                    }
                    let repeat = match &ev.event_type {
                        EventType::Repeat(_) => true,
                        _ => false,
                    };
                    let rep = if repeat { Some(ev) } else { None };
                    fired_ids.push((id.clone(), now));
                    fired.push(Firing { id, next, repeat: rep });
                },
                None => {
                    staying.push((id, ev));
                },
            }
            j += 1;
        }
        proof {
            assert(pend.subrange(0, m as int) =~= pend);
            lemma_keep_unique(pend, |e: (String, ReferencingEvent)| !fires(e));
        }
        let mut expired: Vec<String> = Vec::new();
        if fired.len() == 0 {
            proof {
                lemma_keep_none(pend, fires);
                assert((|e: (String, ReferencingEvent)| !(|e: (String, ReferencingEvent)| !fires(e))(e)) =~= fires);
            }
            let ghost st = staying@;
            let ghost live = |e: (String, ReferencingEvent)| !expired_at(e.1, now as int);
            let ghost dead = |e: (String, ReferencingEvent)| expired_at(e.1, now as int);
            let k = staying.len();
            let mut kept: Vec<(String, ReferencingEvent)> = Vec::new();
            let mut q: usize = 0;
            while q < k
                invariant
                    q <= k,
                    k == st.len(),
                    st == pend,
                    ids_unique(pend),
                    staying@ == st.subrange(q as int, k as int),
                    live == (|e: (String, ReferencingEvent)| !expired_at(e.1, now as int)),
                    dead == (|e: (String, ReferencingEvent)| expired_at(e.1, now as int)),
                    kept@ == keep(st.subrange(0, q as int), live),
                    strings_of_keys(expired@) == keys_of(keep(st.subrange(0, q as int), dead)),
                decreases k - q,
            {
                let (id, ev) = staying.remove(0);
                proof {
                    assert(st[q as int] == (id, ev));
                    assert(staying@ =~= st.subrange(q + 1, k as int));
                    assert(st.subrange(0, q + 1).subrange(0, q as int) =~= st.subrange(0, q as int));
                    assert(st.subrange(0, q + 1)[q as int] == (id, ev));
                }
                let gone = match ev.time_event() {
                    Some(t) => t.expired(now),
                    None => false,
                };
                proof {
                    assert(gone == dead((id, ev)));
                }
                if gone {
                    proof {
                        let ghost ks = keep(st.subrange(0, q as int), dead);
                        assert(strings_of_keys(expired@.push(id)) =~= strings_of_keys(expired@).push(id@));
                        assert(keys_of(ks.push((id, ev))) =~= keys_of(ks).push(id@));
                    }
                    expired.push(id);
                } else {
                    kept.push((id, ev));
                }
                q += 1;
            }
            proof {
                assert(st.subrange(0, k as int) =~= st);
                lemma_keep_unique(pend, live);
            }
            self.pending = map_from_vec(kept);
        } else {
            self.pending = map_from_vec(staying);
        }
        let mut f: usize = 0;
        let c0 = cooling.len();
        while f < fired_ids.len()
            invariant
                f <= fired_ids.len(),
                cooling@.len() == c0 + f,
                c0 == cool.len(),
                cooling@.subrange(0, c0 as int) == cool,
                forall|k: int| 0 <= k < f ==> (#[trigger] cooling@[c0 + k]).0@ == fired_ids@[k].0@ && cooling@[c0 + k].1 == now,
            decreases fired_ids.len() - f,
        {
            let ghost before = cooling@;
            cooling.push((fired_ids[f].0.clone(), now));
            proof {
                assert(cooling@.subrange(0, c0 as int) =~= before.subrange(0, c0 as int));
                assert forall|k: int| 0 <= k < f + 1 implies (#[trigger] cooling@[c0 + k]).0@ == fired_ids@[k].0@ && cooling@[c0 + k].1 == now by {
                    if k < f {
                        assert(cooling@[c0 + k] == before[c0 + k]);
                    }
                }
            }
            f += 1;
        }
        self.cooldown = cooling;
        Tick { fired, expired }
    }
}

proof fn lemma_keep_member<A>(s: Seq<A>, p: spec_fn(A) -> bool)
    ensures
        keep(s, p).len() <= s.len(),
        forall|i: int| 0 <= i < keep(s, p).len() ==> exists|j: int| 0 <= j < s.len() && s[j] == #[trigger] keep(s, p)[i],
    decreases s.len(),
{
    if s.len() > 0 {
        let q = s.subrange(0, s.len() - 1);
        lemma_keep_member(q, p);
        assert forall|i: int| 0 <= i < keep(s, p).len() implies exists|j: int| 0 <= j < s.len() && s[j] == #[trigger] keep(s, p)[i] by {
            if i < keep(q, p).len() {
                let j = choose|j: int| 0 <= j < q.len() && q[j] == keep(q, p)[i];
                assert(s[j] == q[j]);
            } else {
                assert(s[s.len() - 1] == keep(s, p)[i]);
            }
        }
    }
}

proof fn lemma_keep_unique<V>(s: Seq<(String, V)>, p: spec_fn((String, V)) -> bool)
    requires
        ids_unique(s),
    ensures
        ids_unique(keep(s, p)),
    decreases s.len(),
{
    if s.len() > 0 {
        let q = s.subrange(0, s.len() - 1);
        assert(ids_unique(q)) by {
            assert forall|i: int, j: int| 0 <= i < j < q.len() implies #[trigger] q[i].0@ != #[trigger] q[j].0@ by {
                assert(q[i] == s[i] && q[j] == s[j]);
            }
        }
        lemma_keep_unique(q, p);
        lemma_keep_member(q, p);
        let kq = keep(q, p);
        if p(s[s.len() - 1]) {
            let k = keep(s, p);
            assert(k == kq.push(s[s.len() - 1]));
            assert forall|i: int, j: int| 0 <= i < j < k.len() implies #[trigger] k[i].0@ != #[trigger] k[j].0@ by {
                if j == k.len() - 1 {
                    let a = choose|a: int| 0 <= a < q.len() && q[a] == kq[i];
                    assert(s[a] == q[a]);
                } else {
                    assert(k[i] == kq[i] && k[j] == kq[j]);
                }
            }
        }
    }
}

proof fn lemma_keep_none<A>(s: Seq<A>, p: spec_fn(A) -> bool)
    requires
        keep(s, p).len() == 0,
    ensures
        keep(s, |x: A| !p(x)) == s,
    decreases s.len(),
{
    if s.len() > 0 {
        let q = s.subrange(0, s.len() - 1);
        if keep(q, p).len() > 0 {
            lemma_keep_member(q, p);
        }
        lemma_keep_none(q, p);
        assert(q.push(s[s.len() - 1]) =~= s);
    }
}

/// The views of a list of strings.
pub open spec fn strings_of_keys(s: Seq<String>) -> Seq<Seq<char>> {
    s.map_values(|x: String| x@)
}

/// The views of the keys of a list of entries.
pub open spec fn keys_of<V>(s: Seq<(String, V)>) -> Seq<Seq<char>> {
    s.map_values(|x: (String, V)| x.0@)
}

/// An index map holding the given entries, in order.
fn map_from_vec(v: Vec<(String, ReferencingEvent)>) -> (r: indexmap::IndexMap<String, ReferencingEvent>)
    requires
        ids_unique(v@),
    ensures
        catalog_entries(r) == v@,
{
    let ghost src = v@;
    let mut m = map_new();
    let mut rest = v;
    let n = rest.len();
    let mut i: usize = 0;
    proof {
        assert(src.subrange(0, 0) =~= catalog_entries(m));
    }
    while i < n
        invariant
            i <= n,
            n == src.len(),
            ids_unique(src),
            rest@ == src.subrange(i as int, n as int),
            catalog_entries(m) == src.subrange(0, i as int),
        decreases n - i,
    {
        let (k, e) = rest.remove(0);
        proof {
            assert(src[i as int] == (k, e));
            assert(rest@ =~= src.subrange(i + 1, n as int));
            assert forall|j: int| 0 <= j < catalog_entries(m).len() implies (#[trigger] catalog_entries(m)[j]).0@ != k@ by {
                assert(catalog_entries(m)[j] == src[j]);
            }
        }
        map_insert(&mut m, k, e);
        i += 1;
        proof {
            assert(catalog_entries(m) =~= src.subrange(0, i as int));
        }
    }
    proof {
        assert(src.subrange(0, n as int) =~= src);
    }
    m
}

/// Position of the entry keyed `k`.
fn find_id<V>(s: &Vec<(String, V)>, k: &String) -> (r: Option<usize>)
    ensures
        r matches Some(i) ==> id_index(s@, k@) == i,
        r is None ==> id_index(s@, k@) == -1,
{
    let mut found: Option<usize> = None;
    let mut i: usize = 0;
    while i < s.len()
        invariant
            i <= s.len(),
            found matches Some(j) ==> id_index(s@.subrange(0, i as int), k@) == j,
            found is None ==> id_index(s@.subrange(0, i as int), k@) == -1,
        decreases s.len() - i,
    {
        proof {
            assert(s@.subrange(0, i + 1).subrange(0, i as int) =~= s@.subrange(0, i as int));
        }
        if found.is_none() && s[i].0.eq(k) {
            found = Some(i);
        }
        i += 1;
    }
    proof {
        assert(s@.subrange(0, s.len() as int) =~= s@);
    }
    found
}

} // verus!

verus! {

/// A scheduler holds at most one pending entry per event id: two entries
/// keyed the same are the same entry.
pub proof fn lemma_one_pending_per_id(s: Scheduler, k: Seq<char>, i: int, j: int)
    requires
        s.wf(),
        0 <= i < s.pending_list().len(),
        0 <= j < s.pending_list().len(),
        s.pending_list()[i].0@ == k,
        s.pending_list()[j].0@ == k,
    ensures
        i == j,
{
    if i < j {
        assert(s.pending_list()[i].0@ != s.pending_list()[j].0@);
    } else if j < i {
        assert(s.pending_list()[j].0@ != s.pending_list()[i].0@);
    }
}

} // verus!

verus! {

proof fn lemma_keep_contains<A>(s: Seq<A>, p: spec_fn(A) -> bool, j: int)
    requires
        0 <= j < s.len(),
        p(s[j]),
    ensures
        exists|i: int| 0 <= i < keep(s, p).len() && keep(s, p)[i] == s[j],
    decreases s.len(),
{
    let q = s.subrange(0, s.len() - 1);
    if j == s.len() - 1 {
        assert(keep(s, p) == keep(q, p).push(s[s.len() - 1]));
        let w = keep(q, p).len() as int;
        assert(keep(s, p)[w] == s[j]);
    } else {
        assert(q[j] == s[j]);
        lemma_keep_contains(q, p, j);
        let i = choose|i: int| 0 <= i < keep(q, p).len() && keep(q, p)[i] == q[j];
        if p(s[s.len() - 1]) {
            assert(keep(s, p) == keep(q, p).push(s[s.len() - 1]));
            assert(keep(s, p)[i] == keep(q, p)[i]);
        } else {
            assert(keep(s, p) == keep(q, p));
        }
        assert(0 <= i < keep(s, p).len() && keep(s, p)[i] == s[j]);
    }
}

/// The cool-down holds across ticks: an id recorded as fired at `t1` (as
/// `tick` records it) is not ready in a tick at any `now` up to the cool-down
/// span after `t1`, so it does not fire there.
pub proof fn lemma_cooldown_blocks_refiring(
    catalog: Seq<ReferencingEvent>,
    cooldown: Seq<(String, i64)>,
    j: int,
    now: i64,
    entry: (String, ReferencingEvent),
)
    requires
        0 <= j < cooldown.len(),
        entry.0@ == cooldown[j].0@,
        now - cooldown[j].1 <= COOL_DOWN_MS,
    ensures
        !ready(catalog, keep(cooldown, |c: (String, i64)| now - c.1 <= COOL_DOWN_MS), now as int, entry),
{
    let p = |c: (String, i64)| now - c.1 <= COOL_DOWN_MS;
    lemma_keep_contains(cooldown, p, j);
    let cooling = keep(cooldown, p);
    let i = choose|i: int| 0 <= i < cooling.len() && cooling[i] == cooldown[j];
    lemma_id_index(cooling, entry.0@);
    assert(cooling[i].0@ == entry.0@);
}

} // verus!
