use crate::types::{IqPkt, RtPkt};
use vstd::prelude::*;

verus! {

/// How long (in timestamp ticks, i.e. µs) an unmatched packet stays eligible
/// behind the newest tick observed on either stream.
pub const STALE_WINDOW_US: u64 = 1_000;

/// Whether some entry of `s` carries key `k`.
spec fn has_key<V>(s: Seq<(u64, V)>, k: u64) -> bool {
    exists|i: int| 0 <= i < s.len() && s[i].0 == k
}

/// The index carrying key `k` (unique when `unique_keys` holds).
spec fn key_index<V>(s: Seq<(u64, V)>, k: u64) -> int {
    choose|i: int| 0 <= i < s.len() && s[i].0 == k
}

/// No two entries share a key.
spec fn unique_keys<V>(s: Seq<(u64, V)>) -> bool {
    forall|i: int, j: int| 0 <= i < j < s.len() ==> s[i].0 != s[j].0
}

/// The mapping an entry sequence stands for.
spec fn map_of<V>(s: Seq<(u64, V)>) -> Map<u64, V> {
    Map::new(|k: u64| has_key(s, k), |k: u64| s[key_index(s, k)].1)
}

proof fn lemma_map_of_entry<V>(s: Seq<(u64, V)>, i: int)
    requires
        unique_keys(s),
        0 <= i < s.len(),
    ensures
        map_of(s).contains_key(s[i].0),
        map_of(s)[s[i].0] == s[i].1,
{
    assert(has_key(s, s[i].0));
    let j = key_index(s, s[i].0);
    assert(0 <= j < s.len() && s[j].0 == s[i].0);
    assert(j == i);
}

proof fn lemma_remove_view<V>(s: Seq<(u64, V)>, i: int)
    requires
        unique_keys(s),
        0 <= i < s.len(),
    ensures
        unique_keys(s.remove(i)),
        map_of(s.remove(i)) == map_of(s).remove(s[i].0),
{
    let t = s.remove(i);
    let key = s[i].0;
    s.remove_ensures(i);
    assert forall|a: int, b: int| 0 <= a < b < t.len() implies t[a].0 != t[b].0 by {
        let a0 = if a < i { a } else { a + 1 };
        let b0 = if b < i { b } else { b + 1 };
        assert(t[a] == s[a0] && t[b] == s[b0]);
    }
    assert forall|k: u64| #[trigger] has_key(t, k) implies has_key(s, k) && k != key by {
        let a = choose|a: int| 0 <= a < t.len() && t[a].0 == k;
        let a0 = if a < i { a } else { a + 1 };
        assert(s[a0].0 == k);
        assert(a0 != i);
    }
    assert forall|k: u64| has_key(s, k) && k != key implies #[trigger] has_key(t, k) by {
        let j = choose|j: int| 0 <= j < s.len() && s[j].0 == k;
        assert(j != i);
        let a = if j < i { j } else { j - 1 };
        assert(t[a].0 == k);
    }
    assert forall|k: u64| #[trigger] has_key(t, k) implies map_of(t)[k] == map_of(s)[k] by {
        let a = key_index(t, k);
        assert(0 <= a < t.len() && t[a].0 == k);
        let a0 = if a < i { a } else { a + 1 };
        assert(t[a] == s[a0]);
        lemma_map_of_entry(t, a);
        lemma_map_of_entry(s, a0);
    }
    assert(map_of(t) =~= map_of(s).remove(key));
}

proof fn lemma_push_view<V>(s: Seq<(u64, V)>, key: u64, v: V)
    requires
        unique_keys(s),
        !has_key(s, key),
    ensures
        unique_keys(s.push((key, v))),
        map_of(s.push((key, v))) == map_of(s).insert(key, v),
{
    let t = s.push((key, v));
    assert forall|a: int, b: int| 0 <= a < b < t.len() implies t[a].0 != t[b].0 by {
        if b < s.len() {
            assert(t[a] == s[a] && t[b] == s[b]);
        } else {
            assert(t[a] == s[a] && t[b].0 == key);
        }
    }
    assert forall|k: u64| #[trigger] has_key(t, k) implies k == key || has_key(s, k) by {
        let a = choose|a: int| 0 <= a < t.len() && t[a].0 == k;
        if a < s.len() {
            assert(s[a].0 == k);
        }
    }
    assert(t[s.len() as int].0 == key);
    assert(has_key(t, key));
    assert forall|k: u64| #[trigger] has_key(s, k) implies has_key(t, k) by {
        let j = choose|j: int| 0 <= j < s.len() && s[j].0 == k;
        assert(t[j].0 == k);
    }
    assert forall|k: u64| #[trigger] has_key(t, k) implies map_of(t)[k] == map_of(s).insert(
        key,
        v,
    )[k] by {
        let a = key_index(t, k);
        assert(0 <= a < t.len() && t[a].0 == k);
        lemma_map_of_entry(t, a);
        if a < s.len() {
            lemma_map_of_entry(s, a);
        }
    }
    assert(map_of(t) =~= map_of(s).insert(key, v));
}

proof fn lemma_update_view<V>(s: Seq<(u64, V)>, i: int, v: V)
    requires
        unique_keys(s),
        0 <= i < s.len(),
    ensures
        unique_keys(s.update(i, (s[i].0, v))),
        map_of(s.update(i, (s[i].0, v))) == map_of(s).insert(s[i].0, v),
{
    let key = s[i].0;
    let t = s.update(i, (key, v));
    assert forall|a: int, b: int| 0 <= a < b < t.len() implies t[a].0 != t[b].0 by {
        assert(t[a].0 == s[a].0 && t[b].0 == s[b].0);
    }
    assert forall|k: u64| #[trigger] has_key(t, k) implies has_key(s, k) by {
        let a = choose|a: int| 0 <= a < t.len() && t[a].0 == k;
        assert(s[a].0 == k);
    }
    assert forall|k: u64| #[trigger] has_key(s, k) implies has_key(t, k) by {
        let a = choose|a: int| 0 <= a < s.len() && s[a].0 == k;
        assert(t[a].0 == k);
    }
    assert(t[i].0 == key);
    assert(has_key(t, key));
    assert forall|k: u64| #[trigger] has_key(t, k) implies map_of(t)[k] == map_of(s).insert(
        key,
        v,
    )[k] by {
        let a = key_index(t, k);
        assert(0 <= a < t.len() && t[a].0 == k);
        lemma_map_of_entry(t, a);
        if k == key {
            assert(a == i);
        } else {
            assert(a != i);
            lemma_map_of_entry(s, a);
        }
    }
    assert(map_of(t) =~= map_of(s).insert(key, v));
}

/// `m` with every key below `cutoff` dropped.
pub open spec fn spec_evict<V>(m: Map<u64, V>, cutoff: u64) -> Map<u64, V> {
    Map::new(|k: u64| m.contains_key(k) && k >= cutoff, |k: u64| m[k])
}

proof fn lemma_evict_insert<V>(m: Map<u64, V>, key: u64, v: V, cutoff: u64)
    ensures
        key >= cutoff ==> spec_evict(m.insert(key, v), cutoff) == spec_evict(m, cutoff).insert(
            key,
            v,
        ),
        key < cutoff ==> spec_evict(m.insert(key, v), cutoff) == spec_evict(m, cutoff),
{
    if key >= cutoff {
        assert(spec_evict(m.insert(key, v), cutoff) =~= spec_evict(m, cutoff).insert(key, v));
    } else {
        assert(spec_evict(m.insert(key, v), cutoff) =~= spec_evict(m, cutoff));
    }
}

/// Packets waiting for their counterpart, keyed by their tick.  At most one
/// packet waits per tick; a later one silently overwrites the earlier.
pub struct PendingMap<V> {
    entries: Vec<(u64, V)>,
}

impl<V> View for PendingMap<V> {
    type V = Map<u64, V>;

    closed spec fn view(&self) -> Map<u64, V> {
        map_of(self.entries@)
    }
}

impl<V> PendingMap<V> {
    /// The entry sequence carries each key at most once.
    pub closed spec fn wf(&self) -> bool {
        unique_keys(self.entries@)
    }

    /// An empty store.
    pub fn new() -> (r: Self)
        ensures
            r.wf(),
            r@ == Map::<u64, V>::empty(),
    {
        let r = PendingMap { entries: Vec::new() };
        proof {
            assert(r@ =~= Map::<u64, V>::empty());
        }
        r
    }

    /// Removes and returns the packet waiting under `key`, if any.
    pub fn take(&mut self, key: u64) -> (r: Option<V>)
        requires
            old(self).wf(),
        ensures
            final(self).wf(),
            r is Some <==> old(self)@.contains_key(key),
            r matches Some(v) ==> v == old(self)@[key] && final(self)@ == old(self)@.remove(key),
            r is None ==> final(self)@ == old(self)@,
    {
        let ghost s = self.entries@;
        let mut i: usize = 0;
        while i < self.entries.len()
            invariant
                s == old(self).entries@,
                self.entries@ == s,
                unique_keys(s),
                i <= s.len(),
                forall|j: int| 0 <= j < i ==> s[j].0 != key,
            decreases s.len() - i,
        {
            if self.entries[i].0 == key {
                proof {
                    lemma_map_of_entry(s, i as int);
                    lemma_remove_view(s, i as int);
                }
                let entry = self.entries.remove(i);
                return Some(entry.1);
            }
            i = i + 1;
        }
        proof {
            assert(!has_key(s, key));
        }
        None
    }

    /// Puts `v` under `key`, overwriting any packet already waiting there.
    pub fn insert(&mut self, key: u64, v: V)
        requires
            old(self).wf(),
        ensures
            final(self).wf(),
            final(self)@ == old(self)@.insert(key, v),
    {
        let ghost s = self.entries@;
        let mut i: usize = 0;
        while i < self.entries.len()
            invariant
                s == old(self).entries@,
                self.entries@ == s,
                unique_keys(s),
                i <= s.len(),
                forall|j: int| 0 <= j < i ==> s[j].0 != key,
            decreases s.len() - i,
        {
            if self.entries[i].0 == key {
                proof {
                    lemma_update_view(s, i as int, v);
                }
                self.entries.set(i, (key, v));
                return ;
            }
            i = i + 1;
        }
        proof {
            assert(!has_key(s, key));
            lemma_push_view(s, key, v);
        }
        self.entries.push((key, v));
    }

    /// Discards every packet whose tick is below `cutoff`.
    pub fn evict_below(&mut self, cutoff: u64)
        requires
            old(self).wf(),
        ensures
            final(self).wf(),
            final(self)@ == spec_evict(old(self)@, cutoff),
    {
        let ghost s = self.entries@;
        let ghost mut p: int = 0;
        let mut kept: Vec<(u64, V)> = Vec::new();
        proof {
            assert(s.take(0) =~= Seq::<(u64, V)>::empty());
            assert(map_of(kept@) =~= spec_evict(map_of(s.take(0)), cutoff));
        }
        while self.entries.len() > 0
            invariant
                s == old(self).entries@,
                unique_keys(s),
                0 <= p <= s.len(),
                self.entries@ == s.skip(p),
                unique_keys(kept@),
                map_of(kept@) == spec_evict(map_of(s.take(p)), cutoff),
            decreases self.entries@.len(),
        {
            proof {
                assert(s.skip(p)[0] == s[p]);
            }
            let entry = self.entries.remove(0);
            proof {
                assert(s.skip(p).remove(0) =~= s.skip(p + 1));
                assert(s.take(p + 1) =~= s.take(p).push(s[p]));
                assert forall|j: int| 0 <= j < p implies s.take(p)[j].0 == s[j].0 by {}
                assert(!has_key(s.take(p), s[p].0));
                lemma_push_view(s.take(p), s[p].0, s[p].1);
                lemma_evict_insert(map_of(s.take(p)), s[p].0, s[p].1, cutoff);
            }
            if entry.0 >= cutoff {
                proof {
                    if has_key(kept@, entry.0) {
                        assert(map_of(kept@).contains_key(entry.0));
                        assert(map_of(s.take(p)).contains_key(entry.0));
                        assert(has_key(s.take(p), entry.0));
                        assert(false);
                    }
                    lemma_push_view(kept@, entry.0, entry.1);
                }
                kept.push(entry);
            }
            proof {
                p = p + 1;
            }
        }
        proof {
            assert(s.take(p) =~= s);
        }
        self.entries = kept;
    }
}

/// The correlator's whole mathematical state: both waiting sides and the
/// newest tick observed from either stream.
pub ghost struct CorrState {
    pub rt: Map<u64, RtPkt>,
    pub iq: Map<u64, IqPkt>,
    pub watermark: u64,
}

/// The larger of two ticks.
pub open spec fn spec_max(a: u64, b: u64) -> u64 {
    if a > b {
        a
    } else {
        b
    }
}

/// The eviction threshold: `watermark − window`, saturating at zero.
pub open spec fn spec_cutoff(watermark: u64, window: u64) -> u64 {
    if watermark >= window {
        (watermark - window) as u64
    } else {
        0
    }
}

/// One correlator step on a frame packet: raise the watermark; if an IQ
/// packet with the identical tick waits, dispatch the pair, else leave the
/// frame waiting (overwriting any earlier frame at that tick); then sweep
/// every tick below the new cutoff from both sides.
pub open spec fn spec_step_frame(s: CorrState, window: u64, pkt: RtPkt) -> (CorrState, Option<
    (RtPkt, IqPkt),
>) {
    let w = spec_max(s.watermark, pkt.tsf);
    let c = spec_cutoff(w, window);
    if s.iq.contains_key(pkt.tsf) {
        (
            CorrState {
                rt: spec_evict(s.rt, c),
                iq: spec_evict(s.iq.remove(pkt.tsf), c),
                watermark: w,
            },
            Some((pkt, s.iq[pkt.tsf])),
        )
    } else {
        (
            CorrState {
                rt: spec_evict(s.rt.insert(pkt.tsf, pkt), c),
                iq: spec_evict(s.iq, c),
                watermark: w,
            },
            None,
        )
    }
}

/// One correlator step on an IQ packet, symmetric to [`spec_step_frame`].
pub open spec fn spec_step_iq(s: CorrState, window: u64, pkt: IqPkt) -> (CorrState, Option<
    (RtPkt, IqPkt),
>) {
    let w = spec_max(s.watermark, pkt.tsf);
    let c = spec_cutoff(w, window);
    if s.rt.contains_key(pkt.tsf) {
        (
            CorrState {
                rt: spec_evict(s.rt.remove(pkt.tsf), c),
                iq: spec_evict(s.iq, c),
                watermark: w,
            },
            Some((s.rt[pkt.tsf], pkt)),
        )
    } else {
        (
            CorrState {
                rt: spec_evict(s.rt, c),
                iq: spec_evict(s.iq.insert(pkt.tsf, pkt), c),
                watermark: w,
            },
            None,
        )
    }
}

/// After every step, all waiting ticks sit at or above the cutoff.
pub open spec fn state_wf(s: CorrState, window: u64) -> bool {
    &&& forall|k: u64| #[trigger] s.rt.contains_key(k) ==> k >= spec_cutoff(s.watermark, window)
    &&& forall|k: u64| #[trigger] s.iq.contains_key(k) ==> k >= spec_cutoff(s.watermark, window)
}

/// The correlation engine: matches the two streams by exact tick equality
/// under bounded memory.  A packet is handed out if and only if a packet
/// with the identical tick has been observed on the other stream and not yet
/// matched or evicted; no packet is ever handed out twice.
pub struct Matcher {
    rt_waiting: PendingMap<RtPkt>,
    iq_waiting: PendingMap<IqPkt>,
    newest_tsf: u64,
    stale_window: u64,
}

impl View for Matcher {
    type V = CorrState;

    closed spec fn view(&self) -> CorrState {
        CorrState { rt: self.rt_waiting@, iq: self.iq_waiting@, watermark: self.newest_tsf }
    }
}

impl Matcher {
    /// The configured stale window, in ticks.
    pub closed spec fn window(&self) -> u64 {
        self.stale_window
    }

    /// Both waiting stores are well formed and no stale tick lingers.
    pub closed spec fn wf(&self) -> bool {
        &&& self.rt_waiting.wf()
        &&& self.iq_waiting.wf()
        &&& state_wf(self@, self.window())
    }

    /// A fresh engine with nothing waiting, a zero watermark, and the given
    /// stale window.
    pub fn new(stale_window: u64) -> (r: Matcher)
        ensures
            r.wf(),
            state_wf(r@, r.window()),
            r@.rt == Map::<u64, RtPkt>::empty(),
            r@.iq == Map::<u64, IqPkt>::empty(),
            r@.watermark == 0,
            r.window() == stale_window,
    {
        Matcher {
            rt_waiting: PendingMap::new(),
            iq_waiting: PendingMap::new(),
            newest_tsf: 0,
            stale_window,
        }
    }

    /// Handles one frame packet, returning the matched pair to dispatch, if
    /// this packet completes one.  Exactly [`spec_step_frame`].
    pub fn on_frame(&mut self, pkt: RtPkt) -> (r: Option<(RtPkt, IqPkt)>)
        requires
            old(self).wf(),
        ensures
            final(self).wf(),
            state_wf(final(self)@, final(self).window()),
            final(self).window() == old(self).window(),
            (final(self)@, r) == spec_step_frame(old(self)@, old(self).window(), pkt),
    {
        let tsf = pkt.tsf;
        if tsf > self.newest_tsf {
            self.newest_tsf = tsf;
        }
        let r = match self.iq_waiting.take(tsf) {
            Some(iq) => Some((pkt, iq)),
            None => {
                self.rt_waiting.insert(tsf, pkt);
                None
            },
        };
        let cutoff = if self.newest_tsf >= self.stale_window {
            self.newest_tsf - self.stale_window
        } else {
            0
        };
        self.rt_waiting.evict_below(cutoff);
        self.iq_waiting.evict_below(cutoff);
        r
    }

    /// Handles one IQ packet, symmetric to [`on_frame`](Self::on_frame).
    /// Exactly [`spec_step_iq`].
    pub fn on_iq(&mut self, pkt: IqPkt) -> (r: Option<(RtPkt, IqPkt)>)
        requires
            old(self).wf(),
        ensures
            final(self).wf(),
            state_wf(final(self)@, final(self).window()),
            final(self).window() == old(self).window(),
            (final(self)@, r) == spec_step_iq(old(self)@, old(self).window(), pkt),
    {
        let tsf = pkt.tsf;
        if tsf > self.newest_tsf {
            self.newest_tsf = tsf;
        }
        let r = match self.rt_waiting.take(tsf) {
            Some(rt) => Some((rt, pkt)),
            None => {
                self.iq_waiting.insert(tsf, pkt);
                None
            },
        };
        let cutoff = if self.newest_tsf >= self.stale_window {
            self.newest_tsf - self.stale_window
        } else {
            0
        };
        self.rt_waiting.evict_below(cutoff);
        self.iq_waiting.evict_below(cutoff);
        r
    }
}

/// Law: a frame packet and an IQ packet carrying the same tick, arriving in
/// either order into a state where neither side already waits on that tick
/// and the tick is not already stale, produce exactly one dispatch — of that
/// exact pair — and leave neither side waiting on that tick.
pub proof fn lemma_match_either_order(s: CorrState, window: u64, rt: RtPkt, iq: IqPkt)
    requires
        rt.tsf == iq.tsf,
        !s.rt.contains_key(rt.tsf),
        !s.iq.contains_key(rt.tsf),
        rt.tsf >= spec_cutoff(s.watermark, window),
    ensures
        ({
            let (s1, r1) = spec_step_frame(s, window, rt);
            let (s2, r2) = spec_step_iq(s1, window, iq);
            r1 is None && r2 == Some((rt, iq)) && !s2.rt.contains_key(rt.tsf)
                && !s2.iq.contains_key(rt.tsf)
        }),
        ({
            let (s1, r1) = spec_step_iq(s, window, iq);
            let (s2, r2) = spec_step_frame(s1, window, rt);
            r1 is None && r2 == Some((rt, iq)) && !s2.rt.contains_key(rt.tsf)
                && !s2.iq.contains_key(rt.tsf)
        }),
{
}

/// Law: a packet whose tick already lies below the stale cutoff is never
/// dispatched — it is dropped at once, and its true counterpart arriving
/// right after with the identical tick still finds nothing to match.
/// Eviction is driven by watermark progression alone.
pub proof fn lemma_stale_never_dispatched(s: CorrState, window: u64, rt: RtPkt, iq: IqPkt)
    requires
        state_wf(s, window),
        rt.tsf == iq.tsf,
        rt.tsf < spec_cutoff(s.watermark, window),
    ensures
        ({
            let (s1, r1) = spec_step_frame(s, window, rt);
            let (s2, r2) = spec_step_iq(s1, window, iq);
            r1 is None && r2 is None && !s1.rt.contains_key(rt.tsf) && !s2.iq.contains_key(
                rt.tsf,
            )
        }),
        ({
            let (s1, r1) = spec_step_iq(s, window, iq);
            let (s2, r2) = spec_step_frame(s1, window, rt);
            r1 is None && r2 is None && !s1.iq.contains_key(rt.tsf) && !s2.rt.contains_key(
                rt.tsf,
            )
        }),
{
}

/// Law: two frame packets carrying the same tick, arriving before any match,
/// leave only the second waiting — overwrite semantics.
pub proof fn lemma_overwrite_frame(s: CorrState, window: u64, rt1: RtPkt, rt2: RtPkt)
    requires
        rt1.tsf == rt2.tsf,
        !s.iq.contains_key(rt1.tsf),
        rt1.tsf >= spec_cutoff(s.watermark, window),
    ensures
        ({
            let (s1, r1) = spec_step_frame(s, window, rt1);
            let (s2, r2) = spec_step_frame(s1, window, rt2);
            r1 is None && r2 is None && s2.rt.contains_key(rt2.tsf) && s2.rt[rt2.tsf] == rt2
        }),
{
}

/// Law: two IQ packets carrying the same tick, arriving before any match,
/// leave only the second waiting — overwrite semantics.
pub proof fn lemma_overwrite_iq(s: CorrState, window: u64, iq1: IqPkt, iq2: IqPkt)
    requires
        iq1.tsf == iq2.tsf,
        !s.rt.contains_key(iq1.tsf),
        iq1.tsf >= spec_cutoff(s.watermark, window),
    ensures
        ({
            let (s1, r1) = spec_step_iq(s, window, iq1);
            let (s2, r2) = spec_step_iq(s1, window, iq2);
            r1 is None && r2 is None && s2.iq.contains_key(iq2.tsf) && s2.iq[iq2.tsf] == iq2
        }),
{
}

} // verus!
