//! .NET events on Linux: runtime events are emitted through proxy events,
//! and each provider remembers which proxy events stand for which runtime
//! events.

use std::collections::HashSet;

use vstd::prelude::*;

use crate::event::{str_eq, Event};
use crate::dotnet::push_str_chars;
use crate::etw::tdh::{decimal_chars, push_decimal};
use crate::text::string_push;
use crate::intern::str_from_utf8;
use crate::exporting::formats::nettrace::{
    le16, le32, le64, push_u16, push_u32, push_u64, push_u8, unicode_units,
};

verus! {

/// A runtime event as enabled through a proxy event: the proxy event's id,
/// and the keyword and level to enable.
#[derive(Debug, Clone, Copy)]
pub struct LinuxDotNetEvent {
    pub proxy_id: usize,
    pub keyword: u64,
    pub level: u8,
}

/// The runtime events of one provider: for each, its .NET id and how it is
/// enabled through a proxy event, in the order they were added.
pub struct LinuxDotNetProvider {
    events: Vec<(usize, LinuxDotNetEvent)>,
}

/// The keywords of the events whose proxy event is in `proxies`, or-ed.
pub open spec fn proxied_keywords(s: Seq<(usize, usize, u64, u8)>, proxies: Set<usize>) -> u64
    decreases s.len(),
{
    if s.len() == 0 {
        0
    } else {
        let rest = proxied_keywords(s.drop_last(), proxies);
        if proxies.contains(s.last().1) { rest | s.last().2 } else { rest }
    }
}

/// The levels of the events whose proxy event is in `proxies`, or-ed.
pub open spec fn proxied_levels(s: Seq<(usize, usize, u64, u8)>, proxies: Set<usize>) -> u8
    decreases s.len(),
{
    if s.len() == 0 {
        0
    } else {
        let rest = proxied_levels(s.drop_last(), proxies);
        if proxies.contains(s.last().1) { rest | s.last().3 } else { rest }
    }
}

/// The .NET ids of the events whose proxy event is in `proxies`.
pub open spec fn proxied_ids(s: Seq<(usize, usize, u64, u8)>, proxies: Set<usize>) -> Set<usize> {
    Set::new(|d: usize| exists|i: int| 0 <= i < s.len() && #[trigger] s[i].0 == d && proxies.contains(s[i].1))
}

impl View for LinuxDotNetProvider {
    type V = Seq<(usize, usize, u64, u8)>;

    closed spec fn view(&self) -> Seq<(usize, usize, u64, u8)> {
        self.events@.map_values(|e: (usize, LinuxDotNetEvent)| (e.0, e.1.proxy_id, e.1.keyword, e.1.level))
    }
}

impl LinuxDotNetProvider {
    pub fn new() -> (p: Self)
        ensures
            p@ == Seq::<(usize, usize, u64, u8)>::empty(),
    {
        let p = Self { events: Vec::new() };
        assert(p@ =~= Seq::<(usize, usize, u64, u8)>::empty());
        p
    }

    /// Adds a runtime event with .NET id `dotnet_id`.
    pub fn add_event(&mut self, dotnet_id: usize, event: LinuxDotNetEvent)
        ensures
            final(self)@ == old(self)@.push((dotnet_id, event.proxy_id, event.keyword, event.level)),
    {
        self.events.push((dotnet_id, event));
        assert(self@ =~= old(self)@.push((dotnet_id, event.proxy_id, event.keyword, event.level)));
    }

    /// For the runtime events whose proxy event is in `proxy_id_set`: adds
    /// their .NET ids to `dotnet_id_set` and ors their keywords into
    /// `keyword` and their levels into `level`.
    pub fn proxy_id_to_events(
        &self,
        proxy_id_set: &HashSet<usize>,
        dotnet_id_set: &mut HashSet<usize>,
        keyword: &mut u64,
        level: &mut u8,
    )
        ensures
            *final(keyword) == *old(keyword) | proxied_keywords(self@, proxy_id_set@),
            *final(level) == *old(level) | proxied_levels(self@, proxy_id_set@),
            final(dotnet_id_set)@ == old(dotnet_id_set)@.union(proxied_ids(self@, proxy_id_set@)),
    {
        proof {
            broadcast use vstd::std_specs::hash::group_hash_axioms;
        }
        let ghost s = self@;
        let ghost proxies = proxy_id_set@;
        let ghost k0 = *keyword;
        let ghost l0 = *level;
        let mut i: usize = 0;
        assert(s.take(0) =~= Seq::<(usize, usize, u64, u8)>::empty());
        assert(k0 | 0 == k0) by (bit_vector);
        assert(l0 | 0 == l0) by (bit_vector);
        assert(proxied_ids(s.take(0), proxies) =~= Set::<usize>::empty());
        while i < self.events.len()
            invariant
                s == self@,
                proxies == proxy_id_set@,
                i <= self.events@.len(),
                *keyword == k0 | proxied_keywords(s.take(i as int), proxies),
                *level == l0 | proxied_levels(s.take(i as int), proxies),
                dotnet_id_set@ == old(dotnet_id_set)@.union(proxied_ids(s.take(i as int), proxies)),
            decreases self.events@.len() - i,
        {
            let (dotnet_id, event) = self.events[i];
            assert(s.take(i + 1).drop_last() =~= s.take(i as int));
            assert(s.take(i + 1).last() == (dotnet_id, event.proxy_id, event.keyword, event.level));
            let ghost kb = *keyword;
            let ghost lb = *level;
            if proxy_id_set.contains(&event.proxy_id) {
                *keyword = *keyword | event.keyword;
                *level = *level | event.level;
                dotnet_id_set.insert(dotnet_id);
                let ghost pk = proxied_keywords(s.take(i as int), proxies);
                let ghost pl = proxied_levels(s.take(i as int), proxies);
                let ek = event.keyword;
                let el = event.level;
                assert((k0 | pk) | ek == k0 | (pk | ek)) by (bit_vector);
                assert((l0 | pl) | el == l0 | (pl | el)) by (bit_vector);
                assert(proxied_ids(s.take(i + 1), proxies) =~= proxied_ids(s.take(i as int), proxies).insert(dotnet_id)) by {
                    assert(s.take(i + 1)[i as int].0 == dotnet_id);
                    assert forall|d: usize| #[trigger] proxied_ids(s.take(i + 1), proxies).contains(d) implies
                        proxied_ids(s.take(i as int), proxies).insert(dotnet_id).contains(d) by {
                        let j = choose|j: int| 0 <= j < s.take(i + 1).len() && #[trigger] s.take(i + 1)[j].0 == d
                            && proxies.contains(s.take(i + 1)[j].1);
                        if j < i {
                            assert(s.take(i as int)[j] == s.take(i + 1)[j]);
                        }
                    }
                    assert forall|d: usize| #[trigger] proxied_ids(s.take(i as int), proxies).contains(d) implies
                        proxied_ids(s.take(i + 1), proxies).contains(d) by {
                        let j = choose|j: int| 0 <= j < s.take(i as int).len() && #[trigger] s.take(i as int)[j].0 == d
                            && proxies.contains(s.take(i as int)[j].1);
                        assert(s.take(i + 1)[j] == s.take(i as int)[j]);
                    }
                }
            } else {
                assert(proxied_ids(s.take(i + 1), proxies) =~= proxied_ids(s.take(i as int), proxies)) by {
                    assert forall|d: usize| #[trigger] proxied_ids(s.take(i + 1), proxies).contains(d) implies
                        proxied_ids(s.take(i as int), proxies).contains(d) by {
                        let j = choose|j: int| 0 <= j < s.take(i + 1).len() && #[trigger] s.take(i + 1)[j].0 == d
                            && proxies.contains(s.take(i + 1)[j].1);
                        assert(j < i);
                        assert(s.take(i as int)[j] == s.take(i + 1)[j]);
                    }
                    assert forall|d: usize| #[trigger] proxied_ids(s.take(i as int), proxies).contains(d) implies
                        proxied_ids(s.take(i + 1), proxies).contains(d) by {
                        let j = choose|j: int| 0 <= j < s.take(i as int).len() && #[trigger] s.take(i as int)[j].0 == d
                            && proxies.contains(s.take(i as int)[j].1);
                        assert(s.take(i + 1)[j] == s.take(i as int)[j]);
                    }
                }
            }
            i = i + 1;
        }
        assert(s.take(i as int) =~= s);
    }
}

/// Why a runtime event could not be created.
#[derive(Debug, Clone, Copy, PartialEq, Eq)]
pub enum DotNetFactoryError {
    /// The proxy gave no event for the name.
    ProxyFailed,
}

/// Creates runtime events through a proxy that makes an event for a name,
/// and remembers, per provider, the runtime events each proxy event stands
/// for.
pub struct OSDotNetEventFactory<F: FnMut(String) -> Option<Event>> {
    proxy: F,
    providers: Vec<(String, LinuxDotNetProvider)>,
}

/// The runtime events a provider list holds for a provider name (none when
/// the provider is not listed).
pub open spec fn provider_events(list: Seq<(Seq<char>, Seq<(usize, usize, u64, u8)>)>, name: Seq<char>) -> Seq<(usize, usize, u64, u8)>
    decreases list.len(),
{
    if list.len() == 0 {
        Seq::empty()
    } else if list[0].0 == name {
        list[0].1
    } else {
        provider_events(list.drop_first(), name)
    }
}

impl<F: FnMut(String) -> Option<Event>> OSDotNetEventFactory<F> {
    /// The providers with their runtime events, in the order first used.
    pub closed spec fn spec_providers(&self) -> Seq<(Seq<char>, Seq<(usize, usize, u64, u8)>)> {
        self.providers@.map_values(|p: (String, LinuxDotNetProvider)| (p.0@, p.1@))
    }

    pub closed spec fn spec_proxy(&self) -> F {
        self.proxy
    }

    pub fn new(proxy: F) -> (f: Self)
        ensures
            f.spec_providers() == Seq::<(Seq<char>, Seq<(usize, usize, u64, u8)>)>::empty(),
            f.spec_proxy() == proxy,
    {
        let f = Self { proxy, providers: Vec::new() };
        assert(f.spec_providers() =~= Seq::<(Seq<char>, Seq<(usize, usize, u64, u8)>)>::empty());
        f
    }

    fn find_provider(&self, name: &str) -> (r: Option<usize>)
        ensures
            match r {
                Some(i) => i < self.providers@.len() && self.providers@[i as int].0@ == name@
                    && forall|j: int| 0 <= j < i ==> self.providers@[j].0@ != name@,
                None => forall|j: int| 0 <= j < self.providers@.len() ==> self.providers@[j].0@ != name@,
            },
    {
        let mut i: usize = 0;
        while i < self.providers.len()
            invariant
                i <= self.providers@.len(),
                forall|j: int| 0 <= j < i ==> self.providers@[j].0@ != name@,
            decreases self.providers@.len() - i,
        {
            if str_eq(self.providers[i].0.as_str(), name) {
                return Some(i);
            }
            i = i + 1;
        }
        None
    }

    /// Creates the runtime event `id` of a provider through the proxy,
    /// which makes an event named `name`; the provider remembers that this
    /// proxy event stands for the runtime event, with its keyword and
    /// level. An error, changing nothing, when the proxy gives no event.
    pub fn new_event(&mut self, provider_name: &str, keyword: u64, level: u8, id: usize, name: String) -> (r: Result<Event, DotNetFactoryError>)
        requires
            call_requires(old(self).spec_proxy(), (name,)),
        ensures
            final(self).spec_proxy() == old(self).spec_proxy(),
            r matches Err(e) ==> call_ensures(old(self).spec_proxy(), (name,), None),
            r matches Ok(e) ==> call_ensures(old(self).spec_proxy(), (name,), Some(e)),
            r matches Err(e) ==> e == DotNetFactoryError::ProxyFailed && final(self).spec_providers() == old(self).spec_providers(),
            r matches Ok(e) ==> provider_events(final(self).spec_providers(), provider_name@) == provider_events(
                old(self).spec_providers(),
                provider_name@,
            ).push((id, e.spec_id(), keyword, level)),
            r matches Ok(e) ==> forall|other: Seq<char>| other != provider_name@ ==> provider_events(
                final(self).spec_providers(),
                other,
            ) == provider_events(old(self).spec_providers(), other),
    {
        broadcast use vstd::function::group_function_axioms;
        let event = match (self.proxy)(name) {
            Some(event) => event,
            None => {
                return Err(DotNetFactoryError::ProxyFailed);
            },
        };
        let dotnet_event = LinuxDotNetEvent { proxy_id: event.id(), keyword, level };
        let ghost before = self.spec_providers();
        match self.find_provider(provider_name) {
            Some(i) => {
                let (pname, mut provider) = self.providers.remove(i);
                provider.add_event(id, dotnet_event);
                self.providers.insert(i, (pname, provider));
                proof {
                    assert(self.spec_providers() =~= before.update(i as int, (before[i as int].0, provider@)));
                    lemma_provider_events_update(before, i as int, provider@);
                }
            },
            None => {
                let mut provider = LinuxDotNetProvider::new();
                provider.add_event(id, dotnet_event);
                self.providers.push((provider_name.to_owned(), provider));
                proof {
                    assert(self.spec_providers() =~= before.push((provider_name@, provider@)));
                    lemma_provider_events_push(before, provider_name@, provider@);
                }
            },
        }
        Ok(event)
    }
}

/// Replacing the events of the first entry for a name changes only that
/// name's events.
proof fn lemma_provider_events_update(
    list: Seq<(Seq<char>, Seq<(usize, usize, u64, u8)>)>,
    i: int,
    events: Seq<(usize, usize, u64, u8)>,
)
    requires
        0 <= i < list.len(),
        forall|j: int| 0 <= j < i ==> list[j].0 != list[i].0,
    ensures
        provider_events(list, list[i].0) == list[i].1,
        provider_events(list.update(i, (list[i].0, events)), list[i].0) == events,
        forall|other: Seq<char>| other != list[i].0 ==> provider_events(list.update(i, (list[i].0, events)), other)
            == provider_events(list, other),
    decreases i,
{
    let updated = list.update(i, (list[i].0, events));
    if i > 0 {
        assert(updated.drop_first() =~= list.drop_first().update(i - 1, (list[i].0, events)));
        lemma_provider_events_update(list.drop_first(), i - 1, events);
        assert(updated[0] == list[0]);
        assert forall|other: Seq<char>| other != list[i].0 implies provider_events(updated, other)
            == provider_events(list, other) by {
            if list[0].0 != other {
                assert(provider_events(updated, other) == provider_events(updated.drop_first(), other));
                assert(provider_events(list, other) == provider_events(list.drop_first(), other));
            } else {
                assert(provider_events(updated, other) == updated[0].1);
                assert(provider_events(list, other) == list[0].1);
            }
        }
    } else {
        assert(updated.drop_first() =~= list.drop_first());
        assert(updated[0].0 == list[0].0);
        assert forall|other: Seq<char>| other != list[i].0 implies provider_events(updated, other)
            == provider_events(list, other) by {
            assert(provider_events(updated, other) == provider_events(updated.drop_first(), other));
            assert(provider_events(list, other) == provider_events(list.drop_first(), other));
        }
    }
}

/// Appending an entry for a name not listed gives that name its events.
proof fn lemma_provider_events_push(
    list: Seq<(Seq<char>, Seq<(usize, usize, u64, u8)>)>,
    name: Seq<char>,
    events: Seq<(usize, usize, u64, u8)>,
)
    requires
        forall|j: int| 0 <= j < list.len() ==> list[j].0 != name,
    ensures
        provider_events(list, name) == Seq::<(usize, usize, u64, u8)>::empty(),
        provider_events(list.push((name, events)), name) == events,
        forall|other: Seq<char>| other != name ==> provider_events(list.push((name, events)), other) == provider_events(list, other),
    decreases list.len(),
{
    let pushed = list.push((name, events));
    if list.len() > 0 {
        assert(pushed.drop_first() =~= list.drop_first().push((name, events)));
        lemma_provider_events_push(list.drop_first(), name, events);
        assert(pushed[0] == list[0]);
        assert forall|other: Seq<char>| other != name implies provider_events(pushed, other) == provider_events(list, other) by {
            if list[0].0 != other {
                assert(provider_events(pushed, other) == provider_events(pushed.drop_first(), other));
                assert(provider_events(list, other) == provider_events(list.drop_first(), other));
            } else {
                assert(provider_events(pushed, other) == pushed[0].1);
                assert(provider_events(list, other) == list[0].1);
            }
        }
    } else {
        assert(pushed.drop_first() =~= Seq::<(Seq<char>, Seq<(usize, usize, u64, u8)>)>::empty());
        assert(pushed[0] == (name, events));
        assert forall|other: Seq<char>| other != name implies provider_events(pushed, other) == provider_events(list, other) by {
            assert(provider_events(pushed, other) == provider_events(pushed.drop_first(), other));
            assert(provider_events(pushed.drop_first(), other) == Seq::<(usize, usize, u64, u8)>::empty());
            assert(provider_events(list, other) == Seq::<(usize, usize, u64, u8)>::empty());
        }
    }
}

} // verus!

verus! {

/// The runtime events (by .NET id) that one tracepoint carries.
pub struct UserEventTracepointEvents {
    pub tracepoint: String,
    pub events: Vec<u16>,
}

/// The tracepoints of one provider, with the keywords (or-ed) and the
/// highest level to enable.
pub struct UserEventProviderEvents {
    pub events: Vec<UserEventTracepointEvents>,
    pub keyword: u64,
    pub level: u8,
}

/// The number of runtime events over tracepoints.
pub open spec fn tracepoint_event_total(tps: Seq<UserEventTracepointEvents>) -> nat
    decreases tps.len(),
{
    if tps.len() == 0 {
        0
    } else {
        tracepoint_event_total(tps.drop_last()) + tps.last().events@.len()
    }
}

impl UserEventProviderEvents {
    pub fn new() -> (p: Self)
        ensures
            p.events@.len() == 0,
            p.keyword == 0,
            p.level == 0,
    {
        Self { events: Vec::new(), keyword: 0, level: 0 }
    }

    /// The number of runtime events over all tracepoints.
    pub fn event_count(&self) -> (n: usize)
        requires
            tracepoint_event_total(self.events@) <= usize::MAX,
        ensures
            n == tracepoint_event_total(self.events@),
    {
        let mut count: usize = 0;
        let mut i: usize = 0;
        while i < self.events.len()
            invariant
                i <= self.events@.len(),
                count == tracepoint_event_total(self.events@.take(i as int)),
                tracepoint_event_total(self.events@) <= usize::MAX,
            decreases self.events@.len() - i,
        {
            proof {
                assert(self.events@.take(i + 1).drop_last() =~= self.events@.take(i as int));
                lemma_tracepoint_total_prefix(self.events@, i + 1);
            }
            count = count + self.events[i].events.len();
            i = i + 1;
        }
        assert(self.events@.take(i as int) =~= self.events@);
        count
    }

    /// The number of runtime events over all tracepoints, or `None` when it
    /// does not fit in a `usize`.
    pub fn checked_event_count(&self) -> (n: Option<usize>)
        ensures
            match n {
                Some(c) => c == tracepoint_event_total(self.events@),
                None => tracepoint_event_total(self.events@) > usize::MAX,
            },
    {
        let mut count: usize = 0;
        let mut i: usize = 0;
        while i < self.events.len()
            invariant
                i <= self.events@.len(),
                count == tracepoint_event_total(self.events@.take(i as int)),
            decreases self.events@.len() - i,
        {
            assert(self.events@.take(i + 1).drop_last() =~= self.events@.take(i as int));
            match count.checked_add(self.events[i].events.len()) {
                Some(c) => {
                    count = c;
                },
                None => {
                    proof {
                        lemma_tracepoint_total_prefix(self.events@, i + 1);
                    }
                    return None;
                },
            }
            i = i + 1;
        }
        assert(self.events@.take(i as int) =~= self.events@);
        Some(count)
    }

    /// Adds a tracepoint carrying the given runtime events (each id taken
    /// to 16 bits, in the order the set gives them), or-ing in its keyword
    /// and raising the level to its level.
    pub fn add(&mut self, tracepoint: String, dotnet_events: &HashSet<usize>, keyword: u64, level: u8)
        ensures
            final(self).keyword == old(self).keyword | keyword,
            final(self).level == if level > old(self).level { level } else { old(self).level },
            final(self).events@.len() == old(self).events@.len() + 1,
            final(self).events@.drop_last() == old(self).events@,
            final(self).events@.last().tracepoint@ == tracepoint@,
            final(self).events@.last().events@.len() == dotnet_events@.len(),
            final(self).events@.last().events@.to_set() == ids_u16(dotnet_events@),
    {
        broadcast use vstd::std_specs::hash::group_hash_axioms;
        let mut events: Vec<u16> = Vec::new();
        let ghost keys = vstd::std_specs::iter::IteratorSpec::remaining(&vstd::std_specs::hash::spec_hash_keys_iter(dotnet_events));
        for x in it: dotnet_events.iter()
            invariant
                events@.len() == it.index(),
                it.seq() == keys,
                forall|i: int| 0 <= i < it.index() ==> events@[i] == (*keys[i]) as u16,
        {
            events.push(*x as u16);
        }
        proof {
            assert(keys.unref().to_set() == dotnet_events@);
            assert(events@.len() == keys.len());
            assert(events@.to_set() =~= ids_u16(dotnet_events@)) by {
                assert forall|v: u16| #[trigger] events@.to_set().contains(v) implies
                    ids_u16(dotnet_events@).contains(v) by {
                    let k = choose|k: int| 0 <= k < events@.len() && events@[k] == v;
                    assert(keys.unref()[k] == *keys[k]);
                    assert(keys.unref().contains(*keys[k]));
                    assert(dotnet_events@.contains(*keys[k]));
                }
                assert forall|v: u16| #[trigger] ids_u16(dotnet_events@).contains(v) implies
                    events@.to_set().contains(v) by {
                    let e = choose|e: usize| dotnet_events@.contains(e) && v == e as u16;
                    assert(keys.unref().to_set().contains(e));
                    let k = choose|k: int| 0 <= k < keys.unref().len() && keys.unref()[k] == e;
                    assert(events@[k] == e as u16);
                }
            }
        }

        self.keyword = self.keyword | keyword;
        if level > self.level {
            self.level = level;
        }
        let ghost ev = events@;
        self.events.push(UserEventTracepointEvents { tracepoint, events });
        assert(self.events@.last().events@ == ev);
    }
}

/// Ids taken to 16 bits.
pub open spec fn ids_u16(ids: Set<usize>) -> Set<u16> {
    ids.map(|e: usize| e as u16)
}

proof fn lemma_tracepoint_total_prefix(tps: Seq<UserEventTracepointEvents>, n: int)
    requires
        0 <= n <= tps.len(),
    ensures
        tracepoint_event_total(tps.take(n)) <= tracepoint_event_total(tps),
    decreases tps.len(),
{
    if n < tps.len() {
        assert(tps.drop_last().take(n) =~= tps.take(n));
        lemma_tracepoint_total_prefix(tps.drop_last(), n);
    } else {
        assert(tps.take(n) =~= tps);
    }
}

} // verus!

verus! {

/// A string as the .NET diagnostics protocol sends it: nothing but a zero
/// count when empty, else the count of 16-bit units with the terminating
/// zero, the units (each character's code truncated to 16 bits), and the
/// zero.
pub open spec fn ipc_string(s: Seq<char>) -> Seq<u8> {
    if s.len() == 0 {
        le32(0)
    } else {
        le32(((s.len() as u32) + 1) as u32) + unicode_units(s) + le16(0)
    }
}

/// 16-bit values, little-endian, one after the other.
pub open spec fn le16s(s: Seq<u16>) -> Seq<u8>
    decreases s.len(),
{
    if s.len() == 0 {
        Seq::empty()
    } else {
        le16s(s.drop_last()) + le16(s.last())
    }
}

/// The runtime event ids of all tracepoints.
pub open spec fn tracepoint_ids(tps: Seq<UserEventTracepointEvents>) -> Seq<u8>
    decreases tps.len(),
{
    if tps.len() == 0 {
        Seq::empty()
    } else {
        tracepoint_ids(tps.drop_last()) + le16s(tps.last().events@)
    }
}

/// Each tracepoint's name, its event count and its event ids.
pub open spec fn tracepoint_configs(tps: Seq<UserEventTracepointEvents>) -> Seq<u8>
    decreases tps.len(),
{
    if tps.len() == 0 {
        Seq::empty()
    } else {
        let tp = tps.last();
        tracepoint_configs(tps.drop_last()) + ipc_string(tp.tracepoint@) + le32(tp.events@.len() as u32)
            + le16s(tp.events@)
    }
}

/// One provider's part of a request to enable events: keywords, level,
/// name, no filter data, an allow-list of its event ids, no default
/// tracepoint, and its tracepoints.
pub open spec fn ipc_provider(name: Seq<char>, p: UserEventProviderEvents) -> Seq<u8> {
    le64(p.keyword) + le32(p.level as u32) + ipc_string(name) + ipc_string(Seq::empty()) + seq![1u8]
        + le32(tracepoint_event_total(p.events@) as u32) + tracepoint_ids(p.events@)
        + ipc_string(Seq::empty()) + le32(p.events@.len() as u32) + tracepoint_configs(p.events@)
}

/// The parts of all providers.
pub open spec fn ipc_providers(ps: Seq<(String, UserEventProviderEvents)>) -> Seq<u8>
    decreases ps.len(),
{
    if ps.len() == 0 {
        Seq::empty()
    } else {
        ipc_providers(ps.drop_last()) + ipc_provider(ps.last().0@, ps.last().1)
    }
}

/// The magic that starts a .NET diagnostics message: `DOTNET_IPC_V1` and
/// a zero byte.
pub open spec fn ipc_magic() -> Seq<u8> {
    seq![68u8, 79, 84, 78, 69, 84, 95, 73, 80, 67, 95, 86, 49, 0]
}

/// What follows the length of a request to start an EventPipe session
/// (command set 2, command 6) in the tracepoint output format with no
/// rundown: the command, format, rundown keywords and providers.
pub open spec fn ipc_enable_body(ps: Seq<(String, UserEventProviderEvents)>) -> Seq<u8> {
    seq![2u8, 6, 0, 0] + le32(1) + le64(0) + le32(ps.len() as u32) + ipc_providers(ps)
}

/// A request to start an EventPipe session for the providers: the magic,
/// the total length in 16 bits (truncated), and the body.
pub open spec fn ipc_enable_message(ps: Seq<(String, UserEventProviderEvents)>) -> Seq<u8> {
    ipc_magic() + le16(((16 + ipc_enable_body(ps).len()) % 65536) as u16) + ipc_enable_body(ps)
}

/// Whether the strings and counts of the providers can be written: each
/// name's length leaves room for the terminating zero in 32 bits, and the
/// event count of each provider fits in memory.
pub open spec fn ipc_writable(ps: Seq<(String, UserEventProviderEvents)>) -> bool {
    forall|i: int| 0 <= i < ps.len() ==> {
        &&& ((#[trigger] ps[i]).0@.len() as u32) < u32::MAX
        &&& tracepoint_event_total(ps[i].1.events@) <= usize::MAX
        &&& forall|j: int| 0 <= j < ps[i].1.events@.len()
            ==> ((#[trigger] ps[i].1.events@[j]).tracepoint@.len() as u32) < u32::MAX
    }
}

fn write_ipc_string(buffer: &mut Vec<u8>, value: &str)
    requires
        (value@.len() as u32) < u32::MAX,
    ensures
        final(buffer)@ == old(buffer)@ + ipc_string(value@),
{
    let n = value.unicode_len();
    if n == 0 {
        push_u32(buffer, 0);
        return;
    }
    push_u32(buffer, (n as u32) + 1);
    let ghost head = buffer@;
    let mut i: usize = 0;
    while i < n
        invariant
            n == value@.len(),
            i <= n,
            buffer@ == head + unicode_units(value@.take(i as int)),
        decreases n - i,
    {
        let c = value.get_char(i);
        push_u16(buffer, ((c as u32) % 65536) as u16);
        assert(value@.take(i + 1).drop_last() =~= value@.take(i as int));
        assert(buffer@ =~= head + unicode_units(value@.take(i + 1)));
        i = i + 1;
    }
    assert(value@.take(n as int) =~= value@);
    push_u16(buffer, 0);
    assert(buffer@ =~= old(buffer)@ + ipc_string(value@));
}

fn write_le16s(buffer: &mut Vec<u8>, values: &Vec<u16>)
    ensures
        final(buffer)@ == old(buffer)@ + le16s(values@),
{
    let ghost head = buffer@;
    let mut i: usize = 0;
    while i < values.len()
        invariant
            i <= values@.len(),
            buffer@ == head + le16s(values@.take(i as int)),
        decreases values@.len() - i,
    {
        push_u16(buffer, values[i]);
        assert(values@.take(i + 1).drop_last() =~= values@.take(i as int));
        assert(buffer@ =~= head + le16s(values@.take(i + 1)));
        i = i + 1;
    }
    assert(values@.take(i as int) =~= values@);
}

fn write_ipc_provider(buffer: &mut Vec<u8>, name: &String, provider: &UserEventProviderEvents)
    requires
        (name@.len() as u32) < u32::MAX,
        tracepoint_event_total(provider.events@) <= usize::MAX,
        forall|j: int| 0 <= j < provider.events@.len()
            ==> ((#[trigger] provider.events@[j]).tracepoint@.len() as u32) < u32::MAX,
    ensures
        final(buffer)@ == old(buffer)@ + ipc_provider(name@, *provider),
{
    proof {
        reveal_strlit("");
        assert(""@ =~= Seq::<char>::empty());
    }
    push_u64(buffer, provider.keyword);
    push_u32(buffer, provider.level as u32);
    write_ipc_string(buffer, name.as_str());
    write_ipc_string(buffer, "");
    push_u8(buffer, 1);
    let count = provider.event_count() as u32;
    push_u32(buffer, count);
    let ghost head = buffer@;
    let tps = &provider.events;
    let mut i: usize = 0;
    while i < tps.len()
        invariant
            tps@ == provider.events@,
            i <= tps@.len(),
            buffer@ == head + tracepoint_ids(tps@.take(i as int)),
        decreases tps@.len() - i,
    {
        write_le16s(buffer, &tps[i].events);
        assert(tps@.take(i + 1).drop_last() =~= tps@.take(i as int));
        assert(buffer@ =~= head + tracepoint_ids(tps@.take(i + 1)));
        i = i + 1;
    }
    assert(tps@.take(i as int) =~= tps@);
    write_ipc_string(buffer, "");
    push_u32(buffer, tps.len() as u32);
    let ghost head2 = buffer@;
    let mut i: usize = 0;
    while i < tps.len()
        invariant
            tps@ == provider.events@,
            forall|j: int| 0 <= j < tps@.len() ==> ((#[trigger] tps@[j]).tracepoint@.len() as u32) < u32::MAX,
            i <= tps@.len(),
            buffer@ == head2 + tracepoint_configs(tps@.take(i as int)),
        decreases tps@.len() - i,
    {
        let tp = &tps[i];
        write_ipc_string(buffer, tp.tracepoint.as_str());
        push_u32(buffer, tp.events.len() as u32);
        write_le16s(buffer, &tp.events);
        assert(tps@.take(i + 1).drop_last() =~= tps@.take(i as int));
        assert(buffer@ =~= head2 + tracepoint_configs(tps@.take(i + 1)));
        i = i + 1;
    }
    assert(tps@.take(i as int) =~= tps@);
    assert(buffer@ =~= old(buffer)@ + ipc_provider(name@, *provider));
}

/// Fills `buffer` with the request that asks a .NET process to start an
/// EventPipe session that writes the providers' events to their
/// tracepoints (see `ipc_enable_message`).
pub fn enable_events_message(buffer: &mut Vec<u8>, providers: &[(String, UserEventProviderEvents)])
    requires
        ipc_writable(providers@),
    ensures
        final(buffer)@ == ipc_enable_message(providers@),
{
    buffer.clear();
    let magic: [u8; 14] = [68, 79, 84, 78, 69, 84, 95, 73, 80, 67, 95, 86, 49, 0];
    let mut k: usize = 0;
    while k < 14
        invariant
            k <= 14,
            magic@ == ipc_magic(),
            buffer@ == ipc_magic().take(k as int),
        decreases 14 - k,
    {
        push_u8(buffer, magic[k]);
        assert(buffer@ =~= ipc_magic().take(k + 1));
        k = k + 1;
    }
    assert(ipc_magic().take(14) =~= ipc_magic());
    push_u16(buffer, 0);
    push_u8(buffer, 2);
    push_u8(buffer, 6);
    push_u8(buffer, 0);
    push_u8(buffer, 0);
    push_u32(buffer, 1);
    push_u64(buffer, 0);
    push_u32(buffer, providers.len() as u32);
    let ghost head = buffer@;
    let mut i: usize = 0;
    while i < providers.len()
        invariant
            ipc_writable(providers@),
            i <= providers@.len(),
            buffer@ == head + ipc_providers(providers@.take(i as int)),
        decreases providers@.len() - i,
    {
        let entry = &providers[i];
        assert(providers@[i as int] == *entry);
        write_ipc_provider(buffer, &entry.0, &entry.1);
        assert(providers@.take(i + 1).drop_last() =~= providers@.take(i as int));
        assert(buffer@ =~= head + ipc_providers(providers@.take(i + 1)));
        i = i + 1;
    }
    assert(providers@.take(i as int) =~= providers@);
    let len = buffer.len();
    let len16 = (len % 65536) as u16;
    buffer.set(14, (len16 % 256) as u8);
    buffer.set(15, (len16 / 256) as u8);
    proof {
        let body = ipc_enable_body(providers@);
        assert(buffer@ =~= ipc_magic() + le16(len16) + body);
        assert(len == 16 + body.len());
    }
}

/// Whether the response to a request reports success: its status bytes
/// (at 16 and 17) are `0xFF` and `0x00`.
pub fn enable_response_ok(result: &[u8; 20]) -> (ok: bool)
    ensures
        ok == (result@[16] == 0xFF && result@[17] == 0x00),
{
    result[16] == 0xFF && result[17] == 0x00
}

} // verus!

verus! {

/// A provider name made safe for a tracepoint name: `-` becomes `_`, and
/// `/`, `?` and `*` are dropped.
pub open spec fn tracefs_safe(name: Seq<char>) -> Seq<char>
    decreases name.len(),
{
    if name.len() == 0 {
        Seq::empty()
    } else {
        let c = name.last();
        let rest = tracefs_safe(name.drop_last());
        if c == '-' {
            rest.push('_')
        } else if c == '/' || c == '?' || c == '*' {
            rest
        } else {
            rest.push(c)
        }
    }
}

/// The provider name made safe for a tracepoint name (see `tracefs_safe`).
pub fn tracefs_safe_name(name: &str) -> (safe: String)
    ensures
        safe@ == tracefs_safe(name@),
{
    let mut safe = String::new();
    let n = name.unicode_len();
    let mut i: usize = 0;
    while i < n
        invariant
            n == name@.len(),
            i <= n,
            safe@ == tracefs_safe(name@.take(i as int)),
        decreases n - i,
    {
        let c = name.get_char(i);
        if c == '-' {
            string_push(&mut safe, '_');
        } else if c == '/' || c == '?' || c == '*' {
        } else {
            string_push(&mut safe, c);
        }
        assert(name@.take(i + 1).drop_last() =~= name@.take(i as int));
        i = i + 1;
    }
    assert(name@.take(n as int) =~= name@);
    safe
}

/// The tracepoint that carries a provider's runtime events for process
/// `pid`: `OC_DotNet_`, the safe provider name, `_`, the pid, and `_C` for
/// the one whose events take callstacks.
pub open spec fn dotnet_tracepoint(safe_name: Seq<char>, pid: u32, callstacks: bool) -> Seq<char> {
    "OC_DotNet_"@ + safe_name + "_"@ + decimal_chars(pid as u64) + if callstacks { "_C"@ } else { Seq::empty() }
}

/// The tracepoint name for a provider's runtime events in process `pid`
/// (see `dotnet_tracepoint`).
pub fn dotnet_tracepoint_name(safe_name: &str, pid: u32, callstacks: bool) -> (t: String)
    ensures
        t@ == dotnet_tracepoint(safe_name@, pid, callstacks),
{
    let mut t = String::new();
    push_str_chars(&mut t, "OC_DotNet_");
    push_str_chars(&mut t, safe_name);
    push_str_chars(&mut t, "_");
    push_decimal(&mut t, pid as u64);
    if callstacks {
        push_str_chars(&mut t, "_C");
    } else {
        assert(t@ =~= t@ + Seq::<char>::empty());
    }
    t
}

/// The proxy events among `events` (id, whether it is a proxy event,
/// whether it goes without callstacks) that are in `wanted`, split into
/// those that take callstacks and those that do not.
pub open spec fn wanted_proxies(events: Seq<(usize, bool, bool)>, wanted: Set<usize>, no_callstack: bool) -> Set<usize> {
    Set::new(|id: usize| exists|i: int| 0 <= i < events.len() && #[trigger] events[i].0 == id
        && events[i].1 && wanted.contains(id) && events[i].2 == no_callstack)
}

/// Splits the wanted proxy events: into `callstacks` those that take
/// callstacks, into `no_callstacks` those that do not.
pub fn split_proxy_events(
    events: &[(usize, bool, bool)],
    wanted: &HashSet<usize>,
    callstacks: &mut HashSet<usize>,
    no_callstacks: &mut HashSet<usize>,
)
    ensures
        final(callstacks)@ == old(callstacks)@.union(wanted_proxies(events@, wanted@, false)),
        final(no_callstacks)@ == old(no_callstacks)@.union(wanted_proxies(events@, wanted@, true)),
{
    proof {
        broadcast use vstd::std_specs::hash::group_hash_axioms;
    }
    let ghost c0 = callstacks@;
    let ghost n0 = no_callstacks@;
    let mut i: usize = 0;
    while i < events.len()
        invariant
            i <= events@.len(),
            callstacks@ == c0.union(wanted_proxies(events@.take(i as int), wanted@, false)),
            no_callstacks@ == n0.union(wanted_proxies(events@.take(i as int), wanted@, true)),
        decreases events@.len() - i,
    {
        let (id, proxy, no_callstack) = events[i];
        if proxy && wanted.contains(&id) {
            if no_callstack {
                no_callstacks.insert(id);
            } else {
                callstacks.insert(id);
            }
        }
        proof {
            let t0 = events@.take(i as int);
            let t1 = events@.take(i + 1);
            assert forall|x: usize, nc: bool| #[trigger] wanted_proxies(t1, wanted@, nc).contains(x) <==>
                (wanted_proxies(t0, wanted@, nc).contains(x) || (x == id && proxy && wanted@.contains(id) && no_callstack == nc)) by {
                if wanted_proxies(t1, wanted@, nc).contains(x) {
                    let j = choose|j: int| 0 <= j < t1.len() && #[trigger] t1[j].0 == x && t1[j].1
                        && wanted@.contains(x) && t1[j].2 == nc;
                    if j < i {
                        assert(t0[j] == t1[j]);
                    }
                }
                if wanted_proxies(t0, wanted@, nc).contains(x) {
                    let j = choose|j: int| 0 <= j < t0.len() && #[trigger] t0[j].0 == x && t0[j].1
                        && wanted@.contains(x) && t0[j].2 == nc;
                    assert(t1[j] == t0[j]);
                }
                if x == id && proxy && wanted@.contains(id) && no_callstack == nc {
                    assert(t1[i as int].0 == x);
                }
            }
            assert(callstacks@ =~= c0.union(wanted_proxies(t1, wanted@, false)));
            assert(no_callstacks@ =~= n0.union(wanted_proxies(t1, wanted@, true)));
        }
        i = i + 1;
    }
    assert(events@.take(i as int) =~= events@);
}

impl LinuxDotNetProvider {
    /// The proxy events of the provider's runtime events.
    pub open spec fn spec_proxy_ids(&self) -> Set<usize> {
        Set::new(|p: usize| exists|i: int| 0 <= i < self@.len() && #[trigger] self@[i].1 == p)
    }

    /// Puts into `ids`, after clearing it, the proxy event of each of the
    /// provider's runtime events.
    pub fn wanted_proxy_ids(&self, ids: &mut HashSet<usize>)
        ensures
            final(ids)@ == self.spec_proxy_ids(),
    {
        proof {
            broadcast use vstd::std_specs::hash::group_hash_axioms;
        }
        ids.clear();
        let ghost s = self@;
        let mut i: usize = 0;
        while i < self.events.len()
            invariant
                s == self@,
                i <= s.len(),
                ids@ == Set::new(|p: usize| exists|k: int| 0 <= k < i && #[trigger] s[k].1 == p),
            decreases s.len() - i,
        {
            ids.insert(self.events[i].1.proxy_id);
            proof {
                assert(s[i as int].1 == self.events@[i as int].1.proxy_id);
                assert(ids@ =~= Set::new(|p: usize| exists|k: int| 0 <= k < i + 1 && #[trigger] s[k].1 == p)) by {
                    assert forall|p: usize| ids@.contains(p) implies
                        exists|k: int| 0 <= k < i + 1 && #[trigger] s[k].1 == p by {
                        if p != s[i as int].1 {
                            let k = choose|k: int| 0 <= k < i && #[trigger] s[k].1 == p;
                        }
                    }
                }
            }
            i = i + 1;
        }
        assert(ids@ =~= self.spec_proxy_ids());
    }
}

} // verus!

verus! {

/// Whether `bytes` starts with the (ASCII) characters of `pat`.
pub open spec fn bytes_start_with(bytes: Seq<u8>, pat: Seq<char>) -> bool {
    bytes.len() >= pat.len() && forall|i: int| 0 <= i < pat.len() ==> bytes[i] as u32 == #[trigger] pat[i] as u32
}

/// Whether `bytes` ends with the (ASCII) characters of `pat`.
pub open spec fn bytes_end_with(bytes: Seq<u8>, pat: Seq<char>) -> bool {
    bytes.len() >= pat.len() && forall|i: int| 0 <= i < pat.len()
        ==> bytes[bytes.len() - pat.len() + i] as u32 == #[trigger] pat[i] as u32
}

/// Whether an environment entry turns the perf map on: valid UTF-8 that
/// sets `COMPlus_PerfMapEnabled` or `DOTNET_PerfMapEnabled` to anything
/// but a value ending in `=0`.
pub open spec fn enables_perf_map(entry: Seq<u8>) -> bool {
    &&& vstd::utf8::valid_utf8(entry)
    &&& bytes_start_with(entry, "COMPlus_PerfMapEnabled="@) || bytes_start_with(entry, "DOTNET_PerfMapEnabled="@)
    &&& !bytes_end_with(entry, "=0"@)
}

/// The index of the first zero byte of `data` from `from` on, or the length.
pub open spec fn next_zero(data: Seq<u8>, from: int) -> int
    decreases data.len() - from,
{
    if from >= data.len() {
        data.len() as int
    } else if data[from] == 0 {
        from
    } else {
        next_zero(data, from + 1)
    }
}

/// The end of the chunk that starts at `from`: just after its zero byte,
/// or the end of the data when no zero byte follows.
pub open spec fn chunk_end(data: Seq<u8>, from: int) -> int {
    if next_zero(data, from) < data.len() { next_zero(data, from) + 1 } else { data.len() as int }
}

/// Whether an entry of the environment block from `from` on turns the
/// perf map on. The block is read in chunks that end after a zero byte (or
/// at the end), and each chunk's last byte is dropped.
pub open spec fn environ_enables_perf_map(data: Seq<u8>, from: int) -> bool
    decreases data.len() - from,
{
    if from < 0 || from >= data.len() {
        false
    } else {
        let end = chunk_end(data, from);
        enables_perf_map(data.subrange(from, end - 1)) || (end > from && environ_enables_perf_map(data, end))
    }
}

proof fn lemma_next_zero_bounds(data: Seq<u8>, from: int)
    requires
        0 <= from <= data.len(),
    ensures
        from <= next_zero(data, from) <= data.len(),
        next_zero(data, from) < data.len() ==> data[next_zero(data, from)] == 0,
        forall|k: int| from <= k < next_zero(data, from) ==> data[k] != 0,
    decreases data.len() - from,
{
    if from < data.len() && data[from] != 0 {
        lemma_next_zero_bounds(data, from + 1);
    }
}

fn starts_with_ascii(bytes: &[u8], pat: &str) -> (b: bool)
    ensures
        b == bytes_start_with(bytes@, pat@),
{
    let n = pat.unicode_len();
    if bytes.len() < n {
        return false;
    }
    let mut i: usize = 0;
    while i < n
        invariant
            n == pat@.len(),
            n <= bytes@.len(),
            i <= n,
            forall|k: int| 0 <= k < i ==> bytes@[k] as u32 == #[trigger] pat@[k] as u32,
        decreases n - i,
    {
        if bytes[i] as u32 != pat.get_char(i) as u32 {
            return false;
        }
        i = i + 1;
    }
    true
}

fn ends_with_ascii(bytes: &[u8], pat: &str) -> (b: bool)
    ensures
        b == bytes_end_with(bytes@, pat@),
{
    let n = pat.unicode_len();
    if bytes.len() < n {
        return false;
    }
    let len = bytes.len();
    let base = len - n;
    let mut i: usize = 0;
    while i < n
        invariant
            n == pat@.len(),
            len == bytes@.len(),
            n <= bytes@.len(),
            base == bytes@.len() - n,
            i <= n,
            forall|k: int| 0 <= k < i ==> bytes@[bytes@.len() - n + k] as u32 == #[trigger] pat@[k] as u32,
        decreases n - i,
    {
        if bytes[base + i] as u32 != pat.get_char(i) as u32 {
            return false;
        }
        i = i + 1;
    }
    true
}

/// Whether one environment entry turns the perf map on.
fn entry_enables_perf_map(entry: &[u8]) -> (b: bool)
    ensures
        b == enables_perf_map(entry@),
{
    match str_from_utf8(entry) {
        Some(_) => {
            (starts_with_ascii(entry, "COMPlus_PerfMapEnabled=") || starts_with_ascii(entry, "DOTNET_PerfMapEnabled="))
                && !ends_with_ascii(entry, "=0")
        },
        None => false,
    }
}

/// Whether a process's environment block (`NAME=value` entries, each
/// ended by a zero byte) turns the .NET perf map on: some entry sets
/// `COMPlus_PerfMapEnabled` or `DOTNET_PerfMapEnabled`, to a value other
/// than `0`.
pub fn perf_map_environ(environ: &[u8]) -> (b: bool)
    ensures
        b == environ_enables_perf_map(environ@, 0),
{
    let n = environ.len();
    let mut from: usize = 0;
    while from < n
        invariant
            n == environ@.len(),
            from <= n,
            environ_enables_perf_map(environ@, 0) == environ_enables_perf_map(environ@, from as int),
        decreases n - from,
    {
        proof {
            lemma_next_zero_bounds(environ@, from as int);
        }
        let mut z = from;
        while z < n && environ[z] != 0
            invariant
                n == environ@.len(),
                from <= z <= n,
                next_zero(environ@, from as int) == next_zero(environ@, z as int),
            decreases n - z,
        {
            z = z + 1;
        }
        let end = if z < n { z + 1 } else { n };
        assert(end == chunk_end(environ@, from as int));
        let entry = vstd::slice::slice_subrange(environ, from, end - 1);
        if entry_enables_perf_map(entry) {
            return true;
        }
        from = end;
    }
    false
}

/// Whether a memory mapping shows a .NET process: an executable mapping
/// of the runtime's double-mapped code (`/memfd:doublemapper`); such a
/// process is then tracked.
pub fn is_dotnet_mapping(prot: u32, filename: &str) -> (b: bool)
    ensures
        b == (prot & crate::exporting::cswitch::PROT_EXEC == crate::exporting::cswitch::PROT_EXEC
            && filename@ == "/memfd:doublemapper"@),
{
    crate::exporting::cswitch::is_exec_mapping(prot) && str_eq(filename, "/memfd:doublemapper")
}

} // verus!
