//! An event emitter: listeners registered under event names, called in
//! order when their event is emitted.
use vstd::prelude::*;
use crate::text::{chars_eq, chars_of, decimal, decimal_string, views_of};

verus! {

/// Listeners by event name, events kept in the order they were first
/// registered, with a soft limit on listeners per event.
pub struct EventEmitter<L> {
    listeners: Vec<(String, Vec<L>)>,
    max_listeners: usize,
}

/// The first index at or after `i` of the event named `k`, or -1.
pub open spec fn event_index<L>(s: Seq<(String, Vec<L>)>, k: Seq<char>, i: int) -> int
    decreases s.len() - i,
{
    if i < 0 || i >= s.len() {
        -1
    } else if s[i].0@ == k {
        i
    } else {
        event_index(s, k, i + 1)
    }
}

proof fn lemma_event_index<L>(s: Seq<(String, Vec<L>)>, k: Seq<char>, i: int)
    requires
        0 <= i,
    ensures
        event_index(s, k, i) == -1 || (i <= event_index(s, k, i) < s.len() && s[event_index(
            s,
            k,
            i,
        )].0@ == k),
        event_index(s, k, i) == -1 ==> forall|j: int| i <= j < s.len() ==> #[trigger] s[j].0@ != k,
    decreases s.len() - i,
{
    if i < s.len() && s[i].0@ != k {
        lemma_event_index(s, k, i + 1);
    }
}

impl<L> EventEmitter<L> {
    /// Each event name occurs once.
    pub closed spec fn wf(&self) -> bool {
        forall|i: int, j: int|
            0 <= i < j < self.listeners@.len() ==> #[trigger] self.listeners@[i].0@
                != #[trigger] self.listeners@[j].0@
    }

    /// The listeners of each registered event, in registration order.
    pub closed spec fn listeners_view(&self) -> Map<Seq<char>, Seq<L>> {
        Map::new(
            |k: Seq<char>| event_index(self.listeners@, k, 0) >= 0,
            |k: Seq<char>| self.listeners@[event_index(self.listeners@, k, 0)].1@,
        )
    }

    /// The registered event names, in the order they were first registered.
    pub closed spec fn names_view(&self) -> Seq<Seq<char>> {
        self.listeners@.map_values(|e: (String, Vec<L>)| e.0@)
    }

    pub closed spec fn max_view(&self) -> usize {
        self.max_listeners
    }

    /// The listeners of `event` (none when it is not registered).
    pub open spec fn listeners_of(&self, event: Seq<char>) -> Seq<L> {
        if self.listeners_view().dom().contains(event) {
            self.listeners_view()[event]
        } else {
            seq![]
        }
    }

    /// The names are those of the registered events, each once.
    pub proof fn lemma_names(&self)
        requires
            self.wf(),
        ensures
            self.names_view().no_duplicates(),
            forall|k: Seq<char>|
                #[trigger] self.names_view().contains(k) <==> self.listeners_view().dom().contains(k),
    {
        let s = self.listeners@;
        assert forall|k: Seq<char>| #[trigger] self.names_view().contains(k) <==> self.listeners_view().dom().contains(
            k,
        ) by {
            lemma_event_index(s, k, 0);
            if self.names_view().contains(k) {
                let i = choose|i: int| 0 <= i < self.names_view().len() && self.names_view()[i] == k;
                assert(s[i].0@ == k);
            }
            if event_index(s, k, 0) >= 0 {
                assert(self.names_view()[event_index(s, k, 0)] == k);
            }
        }
    }

    /// An emitter with no listeners and a limit of 10 per event.
    pub fn new() -> (e: EventEmitter<L>)
        ensures
            e.wf(),
            e.listeners_view() == Map::<Seq<char>, Seq<L>>::empty(),
            e.names_view().len() == 0,
            e.max_view() == 10,
    {
        let e = EventEmitter { listeners: Vec::new(), max_listeners: 10 };
        proof {
            assert(e.listeners_view() =~= Map::<Seq<char>, Seq<L>>::empty());
            assert(e.names_view() =~= Seq::<Seq<char>>::empty());
        }
        e
    }

    fn find(&self, event: &str) -> (r: Option<usize>)
        ensures
            match r {
                Some(i) => i == event_index(self.listeners@, event@, 0) && i < self.listeners@.len(),
                None => event_index(self.listeners@, event@, 0) == -1,
            },
    {
        let k = chars_of(event);
        let mut i: usize = 0;
        while i < self.listeners.len()
            invariant
                i <= self.listeners@.len(),
                k@ == event@,
                event_index(self.listeners@, event@, 0) == event_index(
                    self.listeners@,
                    event@,
                    i as int,
                ),
            decreases self.listeners@.len() - i,
        {
            if chars_eq(chars_of(self.listeners[i].0.as_str()).as_slice(), k.as_slice()) {
                return Some(i);
            }
            i = i + 1;
        }
        None
    }

    /// The number of listeners of an event.
    pub fn listener_count(&self, event: &str) -> (n: usize)
        ensures
            n == self.listeners_of(event@).len(),
    {
        match self.find(event) {
            Some(i) => self.listeners[i].1.len(),
            None => 0,
        }
    }

    /// Sets the soft limit on listeners per event.
    pub fn set_max_listeners(&mut self, n: usize)
        requires
            old(self).wf(),
        ensures
            final(self).wf(),
            final(self).listeners_view() == old(self).listeners_view(),
            final(self).names_view() == old(self).names_view(),
            final(self).max_view() == n,
    {
        self.max_listeners = n;
    }

    /// The soft limit on listeners per event.
    pub fn get_max_listeners(&self) -> (n: usize)
        ensures
            n == self.max_view(),
    {
        self.max_listeners
    }

    /// Registers a listener for an event, after those it has. When the
    /// event already has at least the limit of listeners, the listener is
    /// still added and the warning to print is returned.
    pub fn on(&mut self, event: &str, listener: L) -> (warning: Option<String>)
        requires
            old(self).wf(),
        ensures
            final(self).wf(),
            final(self).listeners_view() == old(self).listeners_view().insert(
                event@,
                old(self).listeners_of(event@).push(listener),
            ),
            old(self).listeners_view().dom().contains(event@) ==> final(self).names_view()
                == old(self).names_view(),
            !old(self).listeners_view().dom().contains(event@) ==> final(self).names_view()
                == old(self).names_view().push(event@),
            final(self).max_view() == old(self).max_view(),
            old(self).listeners_of(event@).len() >= old(self).max_view() ==> (warning matches Some(
                w,
            ) && w@ == max_listeners_warning(old(self).listeners_of(event@).len(), event@)),
            old(self).listeners_of(event@).len() < old(self).max_view() ==> warning is None,
    {
        let ghost old_s = self.listeners@;
        proof {
            lemma_event_index(old_s, event@, 0);
        }
        match self.find(event) {
            Some(i) => {
                let n = self.listeners[i].1.len();
                let warning = if n >= self.max_listeners {
                    Some(max_listeners_warning_text(n, event))
                } else {
                    None
                };
                let mut entry = self.listeners.remove(i);
                entry.1.push(listener);
                self.listeners.insert(i, entry);
                proof {
                    let s = self.listeners@;
                    assert(s =~= old_s.update(i as int, s[i as int]));
                    assert(s[i as int].0@ == event@);
                    assert(s[i as int].1@ == old_s[i as int].1@.push(listener));
                    self.lemma_update_view(old_s, i as int, event@);
                }
                warning
            },
            None => {
                let mut v: Vec<L> = Vec::new();
                v.push(listener);
                self.listeners.push((event.to_owned(), v));
                proof {
                    let s = self.listeners@;
                    assert(s.drop_last() =~= old_s);
                    assert forall|a: int, b: int| 0 <= a < b < s.len() implies #[trigger] s[a].0@
                        != #[trigger] s[b].0@ by {
                        if b == old_s.len() {
                            assert(old_s[a] == s[a]);
                        } else {
                            assert(old_s[a] == s[a]);
                            assert(old_s[b] == s[b]);
                        }
                    }
                    self.lemma_push_view(old_s, event@);
                }
                if 0 >= self.max_listeners {
                    Some(max_listeners_warning_text(0, event))
                } else {
                    None
                }
            },
        }
    }

    /// Registers a listener; the same as `on`.
    pub fn once(&mut self, event: &str, listener: L) -> (warning: Option<String>)
        requires
            old(self).wf(),
        ensures
            final(self).wf(),
            final(self).listeners_view() == old(self).listeners_view().insert(
                event@,
                old(self).listeners_of(event@).push(listener),
            ),
            old(self).listeners_view().dom().contains(event@) ==> final(self).names_view()
                == old(self).names_view(),
            !old(self).listeners_view().dom().contains(event@) ==> final(self).names_view()
                == old(self).names_view().push(event@),
            final(self).max_view() == old(self).max_view(),
            old(self).listeners_of(event@).len() >= old(self).max_view() ==> (warning matches Some(
                w,
            ) && w@ == max_listeners_warning(old(self).listeners_of(event@).len(), event@)),
            old(self).listeners_of(event@).len() < old(self).max_view() ==> warning is None,
    {
        self.on(event, listener)
    }

    proof fn lemma_update_view(&self, old_s: Seq<(String, Vec<L>)>, i: int, k: Seq<char>)
        requires
            0 <= i < old_s.len(),
            old_s[i].0@ == k,
            self.listeners@.len() == old_s.len(),
            forall|j: int| 0 <= j < old_s.len() && j != i ==> #[trigger] self.listeners@[j] == old_s[j],
            self.listeners@[i].0@ == k,
            i == event_index(old_s, k, 0),
        ensures
            forall|j: int| 0 <= j < old_s.len() ==> #[trigger] self.listeners@[j].0@ == old_s[j].0@,
            forall|kk: Seq<char>| event_index(self.listeners@, kk, 0) == #[trigger] event_index(old_s, kk, 0),
            self.listeners_view() == Map::new(
                |kk: Seq<char>| event_index(old_s, kk, 0) >= 0,
                |kk: Seq<char>| old_s[event_index(old_s, kk, 0)].1@,
            ).insert(k, self.listeners@[i].1@),
            self.names_view() == old_s.map_values(|e: (String, Vec<L>)| e.0@),
    {
        let s = self.listeners@;
        assert forall|j: int| 0 <= j < old_s.len() implies #[trigger] s[j].0@ == old_s[j].0@ by {
            if j != i {
                assert(s[j] == old_s[j]);
            }
        }
        assert forall|kk: Seq<char>| event_index(s, kk, 0) == #[trigger] event_index(old_s, kk, 0) by {
            lemma_same_keys(s, old_s, kk, 0);
        }
        let m_old = Map::new(
            |kk: Seq<char>| event_index(old_s, kk, 0) >= 0,
            |kk: Seq<char>| old_s[event_index(old_s, kk, 0)].1@,
        );
        assert forall|kk: Seq<char>| #[trigger] self.listeners_view().dom().contains(kk) == m_old.insert(
            k,
            s[i].1@,
        ).dom().contains(kk) by {
            assert(event_index(s, kk, 0) == event_index(old_s, kk, 0));
        }
        assert forall|kk: Seq<char>| #[trigger] self.listeners_view().dom().contains(kk) implies self.listeners_view()[kk]
            == m_old.insert(k, s[i].1@)[kk] by {
            assert(event_index(s, kk, 0) == event_index(old_s, kk, 0));
            lemma_event_index(old_s, kk, 0);
            let j = event_index(old_s, kk, 0);
            if j != i {
                assert(s[j] == old_s[j]);
                assert(kk != k);
            }
        }
        assert(self.listeners_view() =~= m_old.insert(k, s[i].1@));
        assert(self.names_view() =~= old_s.map_values(|e: (String, Vec<L>)| e.0@));
    }

    proof fn lemma_push_view(&self, old_s: Seq<(String, Vec<L>)>, k: Seq<char>)
        requires
            self.listeners@.drop_last() == old_s,
            self.listeners@.len() == old_s.len() + 1,
            self.listeners@.last().0@ == k,
            event_index(old_s, k, 0) == -1,
        ensures
            self.listeners_view() == Map::new(
                |kk: Seq<char>| event_index(old_s, kk, 0) >= 0,
                |kk: Seq<char>| old_s[event_index(old_s, kk, 0)].1@,
            ).insert(k, self.listeners@.last().1@),
            self.names_view() == old_s.map_values(|e: (String, Vec<L>)| e.0@).push(k),
    {
        let s = self.listeners@;
        let n = old_s.len() as int;
        assert forall|kk: Seq<char>| #[trigger] event_index(s, kk, 0) == if event_index(old_s, kk, 0)
            >= 0 {
            event_index(old_s, kk, 0)
        } else if kk == k {
            n
        } else {
            -1
        } by {
            lemma_push_index(old_s, s, kk, 0);
        }
        let m_old = Map::new(
            |kk: Seq<char>| event_index(old_s, kk, 0) >= 0,
            |kk: Seq<char>| old_s[event_index(old_s, kk, 0)].1@,
        );
        assert forall|kk: Seq<char>| #[trigger] self.listeners_view().dom().contains(kk) == m_old.insert(
            k,
            s.last().1@,
        ).dom().contains(kk) by {
            assert(event_index(s, kk, 0) == event_index(s, kk, 0));
        }
        assert forall|kk: Seq<char>| #[trigger] self.listeners_view().dom().contains(kk) implies self.listeners_view()[kk]
            == m_old.insert(k, s.last().1@)[kk] by {
            assert(event_index(s, kk, 0) == event_index(s, kk, 0));
            lemma_event_index(old_s, kk, 0);
            if event_index(old_s, kk, 0) >= 0 {
                assert(s[event_index(old_s, kk, 0)] == old_s[event_index(old_s, kk, 0)]);
            }
        }
        assert(self.listeners_view() =~= m_old.insert(k, s.last().1@));
        assert(self.names_view() =~= old_s.map_values(|e: (String, Vec<L>)| e.0@).push(k));
    }

    /// Drops the most recently added listener of the event, if it has one;
    /// the event stays registered. The index is not used.
    pub fn remove_listener(&mut self, event: &str, index: usize)
        requires
            old(self).wf(),
        ensures
            final(self).wf(),
            old(self).listeners_of(event@).len() > 0 ==> final(self).listeners_view()
                == old(self).listeners_view().insert(
                event@,
                old(self).listeners_of(event@).drop_last(),
            ),
            old(self).listeners_of(event@).len() == 0 ==> final(self).listeners_view()
                == old(self).listeners_view(),
            final(self).names_view() == old(self).names_view(),
            final(self).max_view() == old(self).max_view(),
    {
        let ghost old_s = self.listeners@;
        proof {
            lemma_event_index(old_s, event@, 0);
        }
        match self.find(event) {
            Some(i) => {
                if self.listeners[i].1.len() > 0 {
                    let mut entry = self.listeners.remove(i);
                    entry.1.pop();
                    self.listeners.insert(i, entry);
                    proof {
                        let s = self.listeners@;
                        assert(s =~= old_s.update(i as int, s[i as int]));
                        assert(s[i as int].1@ == old_s[i as int].1@.drop_last());
                        self.lemma_update_view(old_s, i as int, event@);
                        assert forall|a: int, b: int| 0 <= a < b < s.len() implies #[trigger] s[a].0@
                            != #[trigger] s[b].0@ by {
                            assert(s[a].0@ == old_s[a].0@);
                            assert(s[b].0@ == old_s[b].0@);
                        }
                        let m_old = Map::new(
                            |kk: Seq<char>| event_index(old_s, kk, 0) >= 0,
                            |kk: Seq<char>| old_s[event_index(old_s, kk, 0)].1@,
                        );
                        assert(m_old == old(self).listeners_view());
                    }
                }
            },
            None => {},
        }
    }

    /// Forgets the listeners of one event (and the event), or of all events.
    pub fn remove_all_listeners(&mut self, event: Option<&str>)
        requires
            old(self).wf(),
        ensures
            final(self).wf(),
            final(self).max_view() == old(self).max_view(),
            match event {
                Some(e) => final(self).listeners_view() == old(self).listeners_view().remove(e@)
                    && final(self).names_view() == without(old(self).names_view(), e@),
                None => final(self).listeners_view() == Map::<Seq<char>, Seq<L>>::empty()
                    && final(self).names_view().len() == 0,
            },
    {
        match event {
            Some(e) => {
                let ghost old_s = self.listeners@;
                proof {
                    lemma_event_index(old_s, e@, 0);
                }
                match self.find(e) {
                    Some(i) => {
                        self.listeners.remove(i);
                        proof {
                            self.lemma_remove_view(old_s, i as int, e@);
                        }
                    },
                    None => {
                        proof {
                            assert(old(self).listeners_view().remove(e@) =~= old(self).listeners_view());
                            let ns = old_s.map_values(|x: (String, Vec<L>)| x.0@);
                            assert forall|j: int| 0 <= j < ns.len() implies ns[j] != e@ by {
                                assert(old_s[j].0@ != e@);
                            }
                            lemma_without_absent(ns, e@);
                        }
                    },
                }
            },
            None => {
                self.listeners = Vec::new();
                proof {
                    assert(self.listeners_view() =~= Map::<Seq<char>, Seq<L>>::empty());
                }
            },
        }
    }

    proof fn lemma_remove_view(&self, old_s: Seq<(String, Vec<L>)>, i: int, k: Seq<char>)
        requires
            0 <= i < old_s.len(),
            old_s[i].0@ == k,
            i == event_index(old_s, k, 0),
            self.listeners@ == old_s.remove(i),
            forall|a: int, b: int| 0 <= a < b < old_s.len() ==> #[trigger] old_s[a].0@ != #[trigger] old_s[b].0@,
        ensures
            self.wf(),
            self.listeners_view() == Map::new(
                |kk: Seq<char>| event_index(old_s, kk, 0) >= 0,
                |kk: Seq<char>| old_s[event_index(old_s, kk, 0)].1@,
            ).remove(k),
            self.names_view() == without(old_s.map_values(|e: (String, Vec<L>)| e.0@), k),
    {
        let s = self.listeners@;
        assert forall|a: int, b: int| 0 <= a < b < s.len() implies #[trigger] s[a].0@ != #[trigger] s[b].0@ by {
            let a2 = if a < i { a } else { a + 1 };
            let b2 = if b < i { b } else { b + 1 };
            assert(s[a] == old_s[a2]);
            assert(s[b] == old_s[b2]);
        }
        let m_old = Map::new(
            |kk: Seq<char>| event_index(old_s, kk, 0) >= 0,
            |kk: Seq<char>| old_s[event_index(old_s, kk, 0)].1@,
        );
        assert forall|kk: Seq<char>| #[trigger] self.listeners_view().dom().contains(kk) == m_old.remove(k).dom().contains(kk)
            && (self.listeners_view().dom().contains(kk) ==> self.listeners_view()[kk] == m_old[kk]) by {
            lemma_event_index(old_s, kk, 0);
            lemma_event_index(s, kk, 0);
            let j = event_index(old_s, kk, 0);
            let q = event_index(s, kk, 0);
            if q >= 0 {
                let q2 = if q < i { q } else { q + 1 };
                assert(s[q] == old_s[q2]);
                if j == -1 {
                    assert(old_s[q2].0@ != kk);
                }
                if kk == k {
                    assert(old_s[q2].0@ == old_s[i].0@);
                    assert(q2 != i);
                }
                if j >= 0 && j != q2 {
                    if j < q2 {
                        assert(old_s[j].0@ != old_s[q2].0@);
                    } else {
                        assert(old_s[q2].0@ != old_s[j].0@);
                    }
                }
            }
            if j >= 0 && kk != k {
                assert(j != i);
                let j2 = if j < i { j } else { j - 1 };
                assert(s[j2] == old_s[j]);
                if q == -1 {
                    assert(s[j2].0@ != kk);
                }
            }
        }
        assert(self.listeners_view() =~= m_old.remove(k));
        let ns = old_s.map_values(|e: (String, Vec<L>)| e.0@);
        assert forall|j: int| 0 <= j < ns.len() && j != i implies ns[j] != k by {
            if j < i {
                assert(old_s[j].0@ != old_s[i].0@);
            } else {
                assert(old_s[i].0@ != old_s[j].0@);
            }
        }
        lemma_without_once(ns, i, k);
        assert(self.names_view() =~= old_s.map_values(|e: (String, Vec<L>)| e.0@).remove(i));
    }

    /// The registered event names, in the order they were first registered.
    pub fn event_names(&self) -> (names: Vec<String>)
        ensures
            views_of(names@) == self.names_view(),
    {
        let mut out: Vec<String> = Vec::new();
        let mut i: usize = 0;
        while i < self.listeners.len()
            invariant
                i <= self.listeners@.len(),
                views_of(out@) == self.names_view().take(i as int),
            decreases self.listeners@.len() - i,
        {
            let ghost before = out@;
            out.push(self.listeners[i].0.clone());
            proof {
                assert(views_of(out@) =~= views_of(before).push(self.listeners@[i as int].0@));
                assert(self.names_view().take(i + 1) =~= self.names_view().take(i as int).push(
                    self.listeners@[i as int].0@,
                ));
            }
            i = i + 1;
        }
        proof {
            assert(self.names_view().take(self.listeners@.len() as int) =~= self.names_view());
        }
        out
    }

    /// Calls each listener of the event, in order, with the arguments;
    /// whether the event had any listener.
    pub fn emit(&self, event: &str, args: &[String]) -> (had: bool) where L: Fn(&[String])
        requires
            forall|j: int|
                0 <= j < self.listeners_of(event@).len() ==> call_requires(
                    #[trigger] self.listeners_of(event@)[j],
                    (args,),
                ),
        ensures
            had == (self.listeners_of(event@).len() > 0),
            forall|j: int|
                0 <= j < self.listeners_of(event@).len() ==> call_ensures(
                    #[trigger] self.listeners_of(event@)[j],
                    (args,),
                    (),
                ),
    {
        proof {
            lemma_event_index(self.listeners@, event@, 0);
        }
        match self.find(event) {
            Some(i) => {
                let ls = &self.listeners[i].1;
                let mut j: usize = 0;
                while j < ls.len()
                    invariant
                        j <= ls@.len(),
                        ls@ == self.listeners_of(event@),
                        forall|q: int|
                            0 <= q < self.listeners_of(event@).len() ==> call_requires(
                                #[trigger] self.listeners_of(event@)[q],
                                (args,),
                            ),
                        forall|q: int| 0 <= q < j ==> call_ensures(#[trigger] ls@[q], (args,), ()),
                    decreases ls@.len() - j,
                {
                    let f = &ls[j];
                    f(args);
                    j = j + 1;
                }
                ls.len() > 0
            },
            None => false,
        }
    }
}

impl<L> Default for EventEmitter<L> {
    fn default() -> (e: Self)
        ensures
            e.wf(),
            e.listeners_view() == Map::<Seq<char>, Seq<L>>::empty(),
            e.names_view().len() == 0,
            e.max_view() == 10,
    {
        Self::new()
    }
}

/// Registering a listener adds exactly one to its event's count and none
/// to any other event's; removing all of an event's listeners leaves it none.
pub proof fn law_listener_counts<L>(
    before: EventEmitter<L>,
    after_on: EventEmitter<L>,
    after_clear: EventEmitter<L>,
    event: Seq<char>,
    other: Seq<char>,
    listener: L,
)
    requires
        after_on.listeners_view() == before.listeners_view().insert(
            event,
            before.listeners_of(event).push(listener),
        ),
        after_clear.listeners_view() == before.listeners_view().remove(event),
        other != event,
    ensures
        after_on.listeners_of(event).len() == before.listeners_of(event).len() + 1,
        after_on.listeners_of(event).last() == listener,
        after_on.listeners_of(other) == before.listeners_of(other),
        after_clear.listeners_of(event).len() == 0,
        after_clear.listeners_of(other) == before.listeners_of(other),
{
}

/// Registration ignores the limit: when `on` has added `listeners`, one
/// call each and in order, to an event that had none, the event's listeners
/// are exactly those and its count is their number, whatever limit
/// `set_max_listeners` set (past the limit `on` only returns a warning).
/// `states[i]` is the emitter before the `i`-th call, and the step between
/// two states is what `on` ensures.
pub proof fn law_ons_register_all<L>(
    states: Seq<EventEmitter<L>>,
    event: Seq<char>,
    listeners: Seq<L>,
)
    requires
        states.len() == listeners.len() + 1,
        states[0].listeners_of(event).len() == 0,
        forall|i: int|
            1 <= i <= listeners.len() ==> #[trigger] states[i].listeners_view()
                == states[i - 1].listeners_view().insert(
                event,
                states[i - 1].listeners_of(event).push(listeners[i - 1]),
            ),
    ensures
        states.last().listeners_of(event) == listeners,
        states.last().listeners_of(event).len() == listeners.len(),
    decreases listeners.len(),
{
    if listeners.len() == 0 {
        assert(states[0].listeners_of(event) =~= listeners);
    } else {
        let n = listeners.len() - 1;
        let pre = states.take(n + 1);
        let ls = listeners.take(n);
        assert forall|i: int| 1 <= i <= ls.len() implies #[trigger] pre[i].listeners_view()
            == pre[i - 1].listeners_view().insert(
            event,
            pre[i - 1].listeners_of(event).push(ls[i - 1]),
        ) by {
            assert(pre[i] == states[i]);
            assert(pre[i - 1] == states[i - 1]);
            assert(states[i].listeners_view() == states[i - 1].listeners_view().insert(
                event,
                states[i - 1].listeners_of(event).push(listeners[i - 1]),
            ));
        }
        assert(pre[0] == states[0]);
        law_ons_register_all(pre, event, ls);
        assert(pre.last() == states[n]);
        assert(states[n + 1].listeners_view() == states[n].listeners_view().insert(
            event,
            states[n].listeners_of(event).push(listeners[n]),
        ));
        assert(ls.push(listeners[n]) =~= listeners);
    }
}

/// The sequence without the elements equal to `k`.
pub open spec fn without(s: Seq<Seq<char>>, k: Seq<char>) -> Seq<Seq<char>>
    decreases s.len(),
{
    if s.len() == 0 {
        s
    } else if s.last() == k {
        without(s.drop_last(), k)
    } else {
        without(s.drop_last(), k).push(s.last())
    }
}

proof fn lemma_without_absent(s: Seq<Seq<char>>, k: Seq<char>)
    requires
        forall|j: int| 0 <= j < s.len() ==> s[j] != k,
    ensures
        without(s, k) == s,
    decreases s.len(),
{
    if s.len() > 0 {
        lemma_without_absent(s.drop_last(), k);
        assert(s.drop_last().push(s.last()) =~= s);
    }
}

proof fn lemma_without_once(s: Seq<Seq<char>>, i: int, k: Seq<char>)
    requires
        0 <= i < s.len(),
        s[i] == k,
        forall|j: int| 0 <= j < s.len() && j != i ==> s[j] != k,
    ensures
        without(s, k) == s.remove(i),
    decreases s.len(),
{
    if i == s.len() - 1 {
        lemma_without_absent(s.drop_last(), k);
        assert(s.remove(i) =~= s.drop_last());
    } else {
        lemma_without_once(s.drop_last(), i, k);
        assert(s.drop_last().remove(i).push(s.last()) =~= s.remove(i));
    }
}

/// Since the entries hold the same names, the indices of a name agree.
proof fn lemma_same_keys<L>(s: Seq<(String, Vec<L>)>, t: Seq<(String, Vec<L>)>, k: Seq<char>, i: int)
    requires
        s.len() == t.len(),
        forall|j: int| 0 <= j < s.len() ==> #[trigger] s[j].0@ == t[j].0@,
    ensures
        event_index(s, k, i) == event_index(t, k, i),
    decreases s.len() - i,
{
    if 0 <= i < s.len() {
        lemma_same_keys(s, t, k, i + 1);
    }
}

proof fn lemma_push_index<L>(old_s: Seq<(String, Vec<L>)>, s: Seq<(String, Vec<L>)>, k: Seq<char>, i: int)
    requires
        s.drop_last() == old_s,
        s.len() == old_s.len() + 1,
        0 <= i <= old_s.len(),
    ensures
        event_index(s, k, i) == if event_index(old_s, k, i) >= 0 {
            event_index(old_s, k, i)
        } else if s.last().0@ == k {
            old_s.len() as int
        } else {
            -1
        },
    decreases s.len() - i,
{
    if i < old_s.len() {
        assert(s[i] == old_s[i]);
        if s[i].0@ != k {
            lemma_push_index(old_s, s, k, i + 1);
        }
    } else {
        if s[i].0@ != k {
            assert(event_index(s, k, i + 1) == -1);
        }
    }
}

/// The warning printed when an event gets a listener beyond the limit.
pub open spec fn max_listeners_warning(n: nat, event: Seq<char>) -> Seq<char> {
    "MaxListenersExceededWarning: Possible EventEmitter memory leak detected. "@ + decimal(n)
        + " listeners added to '"@ + event + "'. Use emitter.setMaxListeners() to increase limit."@
}

fn max_listeners_warning_text(n: usize, event: &str) -> (w: String)
    ensures
        w@ == max_listeners_warning(n as nat, event@),
{
    let count = decimal_string(n as u64);
    let head = crate::report::cat3(
        "MaxListenersExceededWarning: Possible EventEmitter memory leak detected. ",
        count.as_str(),
        " listeners added to '",
    );
    crate::report::cat3(
        head.as_str(),
        event,
        "'. Use emitter.setMaxListeners() to increase limit.",
    )
}

} // verus!
