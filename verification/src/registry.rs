//! The upstream registry: for each country an ordered list of upstream resolvers with
//! a round-robin cursor of its own, and one health flag per resolver.

use crate::address::UpstreamAddr;
use crate::selector::rr_advance;
use crate::selector::rr_pick;
use crate::selector::ServerSelector;
use vstd::arithmetic::div_mod::lemma_add_mod_noop;
use vstd::arithmetic::div_mod::lemma_mod_twice;
use vstd::prelude::*;

verus! {

/// The country that stands for every country without a list of its own.
pub const DEFAULT_COUNTRY: &'static str = "DEFAULT";

/// A resolver and whether it currently answers.
#[derive(Clone, Copy, Debug, PartialEq, Eq, Structural)]
pub struct UpstreamEntry {
    pub addr: UpstreamAddr,
    pub healthy: bool,
}

/// One country's group as a value: its code, its resolvers in order and its cursor.
pub struct GroupView {
    pub country: Seq<char>,
    pub upstreams: Seq<UpstreamAddr>,
    pub cursor: nat,
}

/// The registry as a value: the groups, the default group first, and the health table.
pub struct RegistryView {
    pub groups: Seq<GroupView>,
    pub table: Seq<UpstreamEntry>,
}

/// Whether a health table has an entry for `addr`.
pub open spec fn listed(table: Seq<UpstreamEntry>, addr: UpstreamAddr) -> bool {
    exists|i: int| 0 <= i < table.len() && #[trigger] table[i].addr == addr
}

/// Whether a health table has at most one entry for each address.
pub open spec fn distinct_addresses(table: Seq<UpstreamEntry>) -> bool {
    forall|i: int, j: int|
        0 <= i < j < table.len() ==> #[trigger] table[i].addr != #[trigger] table[j].addr
}

/// A health table after the resolvers of `list` have been registered in order: each one
/// that had no entry yet gets one at the end, marked healthy.
pub open spec fn table_with(table: Seq<UpstreamEntry>, list: Seq<UpstreamAddr>) -> Seq<
    UpstreamEntry,
>
    decreases list.len(),
{
    if list.len() == 0 {
        table
    } else {
        let before = table_with(table, list.drop_last());
        if listed(before, list.last()) {
            before
        } else {
            before.push(UpstreamEntry { addr: list.last(), healthy: true })
        }
    }
}

/// Registering resolvers keeps the entries that were there, in place and unchanged, adds
/// healthy entries for exactly the resolvers that had none, and lists no address twice.
pub proof fn lemma_table_with(table: Seq<UpstreamEntry>, list: Seq<UpstreamAddr>)
    requires
        distinct_addresses(table),
    ensures
        distinct_addresses(table_with(table, list)),
        table_with(table, list).len() >= table.len(),
        table_with(table, list).take(table.len() as int) == table,
        forall|k: int|
            table.len() <= k < table_with(table, list).len() ==> (#[trigger] table_with(
                table,
                list,
            )[k]).healthy && list.contains(table_with(table, list)[k].addr),
        forall|addr: UpstreamAddr|
            #[trigger] listed(table_with(table, list), addr) <==> listed(table, addr)
                || list.contains(addr),
    decreases list.len(),
{
    let after = table_with(table, list);
    if list.len() == 0 {
        assert(after.take(table.len() as int) =~= table);
    } else {
        let shorter = list.drop_last();
        let before = table_with(table, shorter);
        lemma_table_with(table, shorter);
        assert(after.take(table.len() as int) =~= before.take(table.len() as int));
        assert forall|k: int| table.len() <= k < after.len() implies (#[trigger] after[k]).healthy
            && list.contains(after[k].addr) by {
            if k < before.len() {
                assert(before[k].healthy && shorter.contains(before[k].addr));
                let at = choose|at: int| 0 <= at < shorter.len() && shorter[at] == before[k].addr;
                assert(list[at] == before[k].addr);
            } else {
                assert(list[list.len() - 1] == after[k].addr);
            }
        }
        assert forall|addr: UpstreamAddr| #[trigger]
            listed(after, addr) <==> listed(table, addr) || list.contains(addr) by {
            assert(listed(before, addr) <==> listed(table, addr) || shorter.contains(addr));
            if listed(after, addr) {
                let at = choose|at: int| 0 <= at < after.len() && #[trigger] after[at].addr == addr;
                if at < before.len() {
                    assert(before[at].addr == addr);
                    if shorter.contains(addr) {
                        let w = choose|w: int| 0 <= w < shorter.len() && shorter[w] == addr;
                        assert(list[w] == addr);
                    }
                } else {
                    assert(list[list.len() - 1] == addr);
                }
            }
            if listed(table, addr) {
                let at = choose|at: int| 0 <= at < table.len() && #[trigger] table[at].addr == addr;
                assert(after.take(table.len() as int)[at] == table[at]);
                assert(after[at].addr == addr);
            }
            if list.contains(addr) {
                let w = choose|w: int| 0 <= w < list.len() && list[w] == addr;
                if w < shorter.len() {
                    assert(shorter[w] == addr);
                    assert(listed(before, addr));
                    let at = choose|at: int| 0 <= at < before.len() && #[trigger] before[at].addr == addr;
                    assert(after[at].addr == addr);
                } else {
                    if listed(before, addr) {
                        let at = choose|at: int|
                            0 <= at < before.len() && #[trigger] before[at].addr == addr;
                        assert(after[at].addr == addr);
                    } else {
                        assert(after[after.len() - 1].addr == addr);
                    }
                }
            }
        }
    }
}

/// Gives `addr` a healthy entry at the end of the table unless it has an entry.
fn register(table: &mut Vec<UpstreamEntry>, addr: UpstreamAddr)
    ensures
        final(table)@ == table_with(old(table)@, seq![addr]),
{
    let mut i: usize = 0;
    while i < table.len()
        invariant
            i <= table@.len(),
            *table == *old(table),
            forall|k: int| 0 <= k < i ==> table@[k].addr != addr,
        decreases table@.len() - i,
    {
        if table[i].addr == addr {
            proof {
                assert(seq![addr].drop_last() =~= Seq::<UpstreamAddr>::empty());
                reveal_with_fuel(table_with, 2);
                assert(listed(table@, addr));
            }
            return ;
        }
        i = i + 1;
    }
    proof {
        assert(seq![addr].drop_last() =~= Seq::<UpstreamAddr>::empty());
        reveal_with_fuel(table_with, 2);
        assert(!listed(table@, addr));
    }
    table.push(UpstreamEntry { addr, healthy: true });
}

/// Registers the resolvers of `list` in order.
fn register_all(table: &mut Vec<UpstreamEntry>, list: &Vec<UpstreamAddr>)
    ensures
        final(table)@ == table_with(old(table)@, list@),
{
    let mut i: usize = 0;
    assert(list@.take(0) =~= Seq::<UpstreamAddr>::empty());
    while i < list.len()
        invariant
            i <= list@.len(),
            table@ == table_with(old(table)@, list@.take(i as int)),
        decreases list@.len() - i,
    {
        proof {
            let next = list@.take(i as int + 1);
            assert(next.drop_last() =~= list@.take(i as int));
            assert(next.last() == list@[i as int]);
            assert(seq![list@[i as int]].drop_last() =~= Seq::<UpstreamAddr>::empty());
            reveal_with_fuel(table_with, 2);
        }
        register(table, list[i]);
        i = i + 1;
    }
    assert(list@.take(list@.len() as int) =~= list@);
}

/// The test a health table puts to a resolver: that the table lists it as healthy.
pub open spec fn marked_healthy(table: Seq<UpstreamEntry>) -> spec_fn(UpstreamAddr) -> bool {
    |addr: UpstreamAddr| table.contains(UpstreamEntry { addr, healthy: true })
}

impl RegistryView {
    /// Whether `country` has a group of its own.
    pub open spec fn is_mapped(self, country: Seq<char>) -> bool {
        exists|i: int| 0 <= i < self.groups.len() && #[trigger] self.groups[i].country == country
    }

    /// The group that serves `country`: its own, or the default group where it has none.
    pub open spec fn group_index(self, country: Seq<char>) -> int {
        if self.is_mapped(country) {
            choose|i: int| 0 <= i < self.groups.len() && #[trigger] self.groups[i].country == country
        } else {
            0
        }
    }

    /// The group that serves `country`.
    pub open spec fn serving(self, country: Seq<char>) -> GroupView {
        self.groups[self.group_index(country)]
    }

    /// Whether `addr` is a resolver of some group.
    pub open spec fn is_configured(self, addr: UpstreamAddr) -> bool {
        listed(self.table, addr)
    }

    /// Whether `addr` is a configured resolver that is marked healthy.
    pub open spec fn is_healthy(self, addr: UpstreamAddr) -> bool {
        marked_healthy(self.table)(addr)
    }

    /// The resolvers of `list` that are marked healthy, in the order of `list`.
    pub open spec fn healthy_of(self, list: Seq<UpstreamAddr>) -> Seq<UpstreamAddr> {
        list.filter(marked_healthy(self.table))
    }

    /// The resolvers a selection for `country` chooses among: the healthy ones of its
    /// group; all of the group where none is healthy; the whole default group where the
    /// group is empty.
    pub open spec fn eligible(self, country: Seq<char>) -> Seq<UpstreamAddr> {
        let own = self.serving(country).upstreams;
        if self.healthy_of(own).len() > 0 {
            self.healthy_of(own)
        } else if own.len() > 0 {
            own
        } else {
            self.groups[0].upstreams
        }
    }

    /// The resolver the next selection for `country` returns.
    pub open spec fn pick(self, country: Seq<char>) -> UpstreamAddr {
        self.eligible(country)[rr_pick(
            self.serving(country).cursor,
            self.eligible(country).len(),
        ) as int]
    }

    /// The registry after a selection for `country`: the cursor of the group that served
    /// it has moved on by one, wrapping at the length of the list chosen among.
    pub open spec fn after_select(self, country: Seq<char>) -> RegistryView {
        let index = self.group_index(country);
        let group = self.groups[index];
        RegistryView {
            groups: self.groups.update(
                index,
                GroupView {
                    country: group.country,
                    upstreams: group.upstreams,
                    cursor: rr_advance(group.cursor, self.eligible(country).len()),
                },
            ),
            table: self.table,
        }
    }

    /// The registry after `addr` has been marked: its flag is `healthy`, every other
    /// flag and every group is as before.
    pub open spec fn after_set_health(self, addr: UpstreamAddr, healthy: bool) -> RegistryView {
        RegistryView {
            groups: self.groups,
            table: Seq::new(
                self.table.len(),
                |i: int|
                    if self.table[i].addr == addr {
                        UpstreamEntry { addr, healthy }
                    } else {
                        self.table[i]
                    },
            ),
        }
    }

    /// What holds of every registry: the default group comes first and is not empty, no
    /// country has two groups, and the health table lists every resolver of every group
    /// exactly once.
    pub open spec fn well_formed(self) -> bool {
        &&& self.groups.len() > 0
        &&& self.groups[0].country == DEFAULT_COUNTRY@
        &&& self.groups[0].upstreams.len() > 0
        &&& forall|i: int, j: int|
            0 <= i < j < self.groups.len() ==> #[trigger] self.groups[i].country
                != #[trigger] self.groups[j].country
        &&& distinct_addresses(self.table)
        &&& forall|g: int, k: int|
            0 <= g < self.groups.len() && 0 <= k < self.groups[g].upstreams.len()
                ==> self.is_configured(#[trigger] self.groups[g].upstreams[k])
    }
}

/// A country's resolvers, in the order in which they take turns.
#[derive(Debug)]
pub struct CountryGroup {
    pub country: String,
    pub upstreams: Vec<UpstreamAddr>,
}

/// The registry of upstream resolvers.
#[derive(Debug)]
pub struct UpstreamRegistry {
    groups: Vec<CountryGroup>,
    cursors: Vec<ServerSelector>,
    table: Vec<UpstreamEntry>,
}

impl View for UpstreamRegistry {
    type V = RegistryView;

    closed spec fn view(&self) -> RegistryView {
        RegistryView {
            groups: Seq::new(
                self.groups@.len(),
                |i: int|
                    GroupView {
                        country: self.groups@[i].country@,
                        upstreams: self.groups@[i].upstreams@,
                        cursor: self.cursors@[i].cursor(),
                    },
            ),
            table: self.table@,
        }
    }
}

impl UpstreamRegistry {
    /// The invariant of the registry.
    pub closed spec fn wf(&self) -> bool {
        &&& self.cursors@.len() == self.groups@.len()
        &&& self@.well_formed()
    }

    /// A registry that meets its invariant is well-formed as a value.
    pub proof fn lemma_view_well_formed(&self)
        requires
            self.wf(),
        ensures
            self@.well_formed(),
    {
    }

    /// Whether `addr` is marked healthy.
    pub fn is_healthy(&self, addr: UpstreamAddr) -> (healthy: bool)
        ensures
            healthy == self@.is_healthy(addr),
    {
        let mut i: usize = 0;
        while i < self.table.len()
            invariant
                i <= self.table@.len(),
                forall|k: int| 0 <= k < i ==> self.table@[k] != (UpstreamEntry { addr, healthy: true }),
            decreases self.table@.len() - i,
        {
            if self.table[i].addr == addr && self.table[i].healthy {
                return true;
            }
            i = i + 1;
        }
        false
    }

    /// The position of the group that `country` has of its own, if it has one.
    fn position_of(&self, country: &str) -> (position: Option<usize>)
        requires
            self.wf(),
        ensures
            position is Some <==> self@.is_mapped(country@),
            position matches Some(index) ==> index == self@.group_index(country@) && index
                < self.groups@.len(),
    {
        let wanted: String = country.to_owned();
        let mut i: usize = 0;
        while i < self.groups.len()
            invariant
                i <= self.groups@.len(),
                self.wf(),
                wanted@ == country@,
                forall|k: int| 0 <= k < i ==> self@.groups[k].country != country@,
            decreases self.groups@.len() - i,
        {
            if self.groups[i].country == wanted {
                proof {
                    let view = self@;
                    assert(view.groups[i as int].country == country@);
                    assert(view.is_mapped(country@));
                    let chosen = view.group_index(country@);
                    assert(view.groups[chosen].country == view.groups[i as int].country);
                    assert(chosen == i);
                }
                return Some(i);
            }
            i = i + 1;
        }
        proof {
            let view = self@;
            assert(!view.is_mapped(country@));
        }
        None
    }

    /// The group that serves `country`.
    fn find_group(&self, country: &str) -> (index: usize)
        requires
            self.wf(),
        ensures
            index == self@.group_index(country@),
            index < self.groups@.len(),
    {
        match self.position_of(country) {
            Some(index) => index,
            None => 0,
        }
    }

    /// A registry with the default group alone: `default_upstreams` in the given order,
    /// each marked healthy, the cursor at the head. There is no registry without a
    /// default resolver.
    pub fn new(default_upstreams: Vec<UpstreamAddr>) -> (registry: Option<UpstreamRegistry>)
        ensures
            registry is None <==> default_upstreams@.len() == 0,
            registry matches Some(made) ==> made.wf() && made@ == (RegistryView {
                groups: seq![
                    GroupView {
                        country: DEFAULT_COUNTRY@,
                        upstreams: default_upstreams@,
                        cursor: 0,
                    },
                ],
                table: table_with(Seq::empty(), default_upstreams@),
            }),
    {
        if default_upstreams.len() == 0 {
            return None;
        }
        let mut table: Vec<UpstreamEntry> = Vec::new();
        register_all(&mut table, &default_upstreams);
        let mut groups: Vec<CountryGroup> = Vec::new();
        let ghost list = default_upstreams@;
        groups.push(CountryGroup { country: DEFAULT_COUNTRY.to_owned(), upstreams: default_upstreams });
        let mut cursors: Vec<ServerSelector> = Vec::new();
        cursors.push(ServerSelector::new());
        let made = UpstreamRegistry { groups, cursors, table };
        proof {
            let expected = RegistryView {
                groups: seq![GroupView { country: DEFAULT_COUNTRY@, upstreams: list, cursor: 0 }],
                table: table_with(Seq::empty(), list),
            };
            assert(made@.groups =~= expected.groups);
            assert(made@.table == expected.table);
            lemma_table_with(Seq::empty(), list);
            assert forall|g: int, k: int|
                0 <= g < expected.groups.len() && 0 <= k < expected.groups[g].upstreams.len()
                implies expected.is_configured(#[trigger] expected.groups[g].upstreams[k]) by {
                assert(list.contains(list[k]));
            }
        }
        Some(made)
    }

    /// Gives `country` a group of its own: `upstreams` in the given order, the cursor at
    /// the head. Resolvers that no group listed before start out healthy; the others
    /// keep their flag. A country that has a group keeps it, and nothing changes.
    pub fn add_group(&mut self, country: String, upstreams: Vec<UpstreamAddr>) -> (added: bool)
        requires
            old(self).wf(),
        ensures
            final(self).wf(),
            added == !old(self)@.is_mapped(country@),
            !added ==> final(self)@ == old(self)@,
            added ==> final(self)@ == (RegistryView {
                groups: old(self)@.groups.push(
                    GroupView { country: country@, upstreams: upstreams@, cursor: 0 },
                ),
                table: table_with(old(self)@.table, upstreams@),
            }),
    {
        let ghost before = self@;
        let ghost list = upstreams@;
        let ghost code = country@;
        if self.position_of(country.as_str()).is_some() {
            return false;
        }
        register_all(&mut self.table, &upstreams);
        self.groups.push(CountryGroup { country, upstreams });
        self.cursors.push(ServerSelector::new());
        proof {
            let expected = RegistryView {
                groups: before.groups.push(GroupView { country: code, upstreams: list, cursor: 0 }),
                table: table_with(before.table, list),
            };
            assert(self@.groups =~= expected.groups);
            assert(self@.table == expected.table);
            lemma_table_with(before.table, list);
            assert forall|g: int, k: int|
                0 <= g < expected.groups.len() && 0 <= k < expected.groups[g].upstreams.len()
                implies expected.is_configured(#[trigger] expected.groups[g].upstreams[k]) by {
                if g < before.groups.len() {
                    assert(before.is_configured(before.groups[g].upstreams[k]));
                } else {
                    assert(list.contains(list[k]));
                }
            }
        }
        true
    }

    /// Whether `country` has a group of its own.
    pub fn is_mapped(&self, country: &str) -> (mapped: bool)
        requires
            self.wf(),
        ensures
            mapped == self@.is_mapped(country@),
    {
        self.position_of(country).is_some()
    }

    /// The place of the cursor of the group that serves `country`.
    pub fn cursor_of(&self, country: &str) -> (cursor: usize)
        requires
            self.wf(),
        ensures
            cursor == self@.serving(country@).cursor,
    {
        let index: usize = self.find_group(country);
        self.cursors[index].position()
    }

    /// The resolvers of the group that serves `country`, in their order.
    pub fn group_upstreams(&self, country: &str) -> (list: Vec<UpstreamAddr>)
        requires
            self.wf(),
        ensures
            list@ == self@.serving(country@).upstreams,
    {
        let index: usize = self.find_group(country);
        let own: &Vec<UpstreamAddr> = &self.groups[index].upstreams;
        let mut list: Vec<UpstreamAddr> = Vec::with_capacity(own.len());
        let mut i: usize = 0;
        while i < own.len()
            invariant
                i <= own@.len(),
                list@ == own@.take(i as int),
            decreases own@.len() - i,
        {
            list.push(own[i]);
            i = i + 1;
            assert(list@ =~= own@.take(i as int));
        }
        assert(own@.take(own@.len() as int) =~= own@);
        list
    }

    /// Every configured resolver, once each, in the order in which they were registered.
    pub fn upstreams(&self) -> (all: Vec<UpstreamAddr>)
        ensures
            all@ == self@.table.map_values(|entry: UpstreamEntry| entry.addr),
    {
        let mut all: Vec<UpstreamAddr> = Vec::with_capacity(self.table.len());
        let mut i: usize = 0;
        while i < self.table.len()
            invariant
                i <= self.table@.len(),
                all@ == self.table@.take(i as int).map_values(|entry: UpstreamEntry| entry.addr),
            decreases self.table@.len() - i,
        {
            all.push(self.table[i].addr);
            i = i + 1;
            assert(all@ =~= self.table@.take(i as int).map_values(|entry: UpstreamEntry| entry.addr));
        }
        assert(self.table@.take(self.table@.len() as int) =~= self.table@);
        all
    }

    /// The resolvers of `list` that are marked healthy, in the order of `list`.
    fn healthy_among(&self, list: &Vec<UpstreamAddr>) -> (up: Vec<UpstreamAddr>)
        ensures
            up@ == self@.healthy_of(list@),
    {
        let ghost test = marked_healthy(self@.table);
        let mut up: Vec<UpstreamAddr> = Vec::new();
        let mut i: usize = 0;
        assert(list@.take(0) =~= Seq::<UpstreamAddr>::empty());
        assert(Seq::<UpstreamAddr>::empty().filter(test) =~= Seq::<UpstreamAddr>::empty()) by {
            reveal(Seq::filter);
        }
        while i < list.len()
            invariant
                i <= list@.len(),
                test == marked_healthy(self@.table),
                up@ == list@.take(i as int).filter(test),
            decreases list@.len() - i,
        {
            let addr: UpstreamAddr = list[i];
            let healthy: bool = self.is_healthy(addr);
            proof {
                list@.take(i as int).lemma_filter_push(addr, test);
                assert(list@.take(i as int).push(addr) =~= list@.take(i as int + 1));
            }
            if healthy {
                up.push(addr);
            }
            i = i + 1;
        }
        assert(list@.take(list@.len() as int) =~= list@);
        up
    }

    /// Selects the upstream for a request from `country`. The group is the country's
    /// own, or the default group where it has none. The choice is among the group's
    /// healthy resolvers, among all of them where none is healthy, and among the whole
    /// default group where the group is empty. Within that list the group's cursor
    /// gives the position, and moves on by one, wrapping at the end of the list.
    pub fn select(&mut self, country: &str) -> (upstream: UpstreamAddr)
        requires
            old(self).wf(),
        ensures
            final(self).wf(),
            upstream == old(self)@.pick(country@),
            final(self)@ == old(self)@.after_select(country@),
    {
        let ghost before = self@;
        let index: usize = self.find_group(country);
        let up: Vec<UpstreamAddr> = self.healthy_among(&self.groups[index].upstreams);
        let mut selector: ServerSelector = self.cursors[index];
        let upstream: UpstreamAddr = if up.len() > 0 {
            up[selector.next_index(up.len())]
        } else if self.groups[index].upstreams.len() > 0 {
            let own: &Vec<UpstreamAddr> = &self.groups[index].upstreams;
            own[selector.next_index(own.len())]
        } else {
            let fallback: &Vec<UpstreamAddr> = &self.groups[0].upstreams;
            fallback[selector.next_index(fallback.len())]
        };
        self.cursors.set(index, selector);
        proof {
            lemma_select_keeps_configuration(before, country@);
            assert(self@.groups =~= before.after_select(country@).groups);
        }
        upstream
    }

    /// Marks `addr` healthy or unhealthy. Marking an address that no group lists
    /// changes nothing.
    pub fn set_health(&mut self, addr: UpstreamAddr, healthy: bool)
        requires
            old(self).wf(),
        ensures
            final(self).wf(),
            final(self)@ == old(self)@.after_set_health(addr, healthy),
    {
        let ghost before = self@;
        let mut i: usize = 0;
        while i < self.table.len()
            invariant
                i <= self.table@.len(),
                self.table@.len() == before.table.len(),
                self.groups == old(self).groups,
                self.cursors == old(self).cursors,
                before == old(self)@,
                forall|k: int| 0 <= k < i ==> self.table@[k] == before.after_set_health(addr, healthy).table[k],
                forall|k: int| i <= k < self.table@.len() ==> self.table@[k] == before.table[k],
            decreases self.table@.len() - i,
        {
            if self.table[i].addr == addr {
                self.table.set(i, UpstreamEntry { addr, healthy });
            }
            i = i + 1;
        }
        proof {
            lemma_set_health(before, addr, healthy);
            assert(self@.table =~= before.after_set_health(addr, healthy).table);
            assert(self@.groups =~= before.groups);
        }
    }
}

/// The registry after `count` selections in a row for one country.
pub open spec fn after_selects(registry: RegistryView, country: Seq<char>, count: nat) -> RegistryView
    decreases count,
{
    if count == 0 {
        registry
    } else {
        after_selects(registry, country, (count - 1) as nat).after_select(country)
    }
}

/// A list whose members are all marked healthy is its own healthy part.
pub proof fn lemma_all_healthy(table: Seq<UpstreamEntry>, list: Seq<UpstreamAddr>)
    requires
        forall|i: int| 0 <= i < list.len() ==> marked_healthy(table)(#[trigger] list[i]),
    ensures
        list.filter(marked_healthy(table)) == list,
    decreases list.len(),
{
    reveal(Seq::filter);
    if list.len() > 0 {
        lemma_all_healthy(table, list.drop_last());
        assert(list.drop_last().push(list.last()) =~= list);
    }
}

/// In a well-formed registry a mapped country is served by the one group that bears its
/// code, and the default country by the first group.
pub proof fn lemma_group_index(registry: RegistryView, country: Seq<char>, index: int)
    requires
        registry.well_formed(),
        0 <= index < registry.groups.len(),
        registry.groups[index].country == country,
    ensures
        registry.is_mapped(country),
        registry.group_index(country) == index,
{
    let chosen = registry.group_index(country);
    assert(registry.groups[chosen].country == registry.groups[index].country);
}

/// A country without a group of its own is served exactly as the default country is:
/// the same resolver is selected and the same cursor moves.
pub proof fn lemma_unmapped_country_falls_back(registry: RegistryView, country: Seq<char>)
    requires
        registry.well_formed(),
        !registry.is_mapped(country),
    ensures
        registry.group_index(country) == 0,
        registry.eligible(country) == registry.eligible(DEFAULT_COUNTRY@),
        registry.pick(country) == registry.pick(DEFAULT_COUNTRY@),
        registry.after_select(country) == registry.after_select(DEFAULT_COUNTRY@),
        registry.eligible(country).len() > 0,
{
    lemma_group_index(registry, DEFAULT_COUNTRY@, 0);
    registry.groups[0].upstreams.lemma_filter_len(marked_healthy(registry.table));
}

/// A selection leaves a well-formed registry well-formed, and changes nothing but the
/// cursor of the group that served it.
pub proof fn lemma_select_keeps_configuration(registry: RegistryView, country: Seq<char>)
    requires
        registry.well_formed(),
    ensures
        registry.after_select(country).well_formed(),
        registry.after_select(country).table == registry.table,
        registry.after_select(country).groups.len() == registry.groups.len(),
        forall|g: int|
            0 <= g < registry.groups.len() ==> (#[trigger] registry.after_select(country).groups[g]).country
                == registry.groups[g].country && registry.after_select(country).groups[g].upstreams
                == registry.groups[g].upstreams,
        forall|g: int|
            0 <= g < registry.groups.len() && g != registry.group_index(country) ==> (
            #[trigger] registry.after_select(country).groups[g]).cursor == registry.groups[g].cursor,
        forall|other: Seq<char>| #[trigger]
            registry.after_select(country).group_index(other) == registry.group_index(other),
        0 <= registry.group_index(country) < registry.groups.len(),
{
    let after = registry.after_select(country);
    let index = registry.group_index(country);
    assert(0 <= index < registry.groups.len());
    assert forall|g: int, k: int|
        0 <= g < after.groups.len() && 0 <= k < after.groups[g].upstreams.len()
        implies after.is_configured(#[trigger] after.groups[g].upstreams[k]) by {
        assert(registry.is_configured(registry.groups[g].upstreams[k]));
    }
    assert forall|other: Seq<char>| #[trigger]
        after.group_index(other) == registry.group_index(other) by {
        if registry.is_mapped(other) {
            let at = registry.group_index(other);
            assert(after.groups[at].country == other);
            lemma_group_index(after, other, at);
        } else {
            if after.is_mapped(other) {
                let at = after.group_index(other);
                assert(registry.groups[at].country == other);
            }
        }
    }
}

/// Round-robin. In a group whose resolvers are all healthy, the selection that follows
/// `count` earlier ones for the same country returns the resolver `count` places after
/// the cursor's starting place, counted cyclically through the list.
pub proof fn lemma_round_robin(registry: RegistryView, country: Seq<char>, count: nat)
    requires
        registry.well_formed(),
        registry.serving(country).upstreams.len() > 0,
        forall|i: int|
            0 <= i < registry.serving(country).upstreams.len() ==> registry.is_healthy(
                #[trigger] registry.serving(country).upstreams[i],
            ),
    ensures
        after_selects(registry, country, count).well_formed(),
        after_selects(registry, country, count).table == registry.table,
        after_selects(registry, country, count).groups.len() == registry.groups.len(),
        after_selects(registry, country, count).group_index(country) == registry.group_index(
            country,
        ),
        after_selects(registry, country, count).serving(country).upstreams == registry.serving(
            country,
        ).upstreams,
        after_selects(registry, country, count).serving(country).cursor % registry.serving(
            country,
        ).upstreams.len() == (registry.serving(country).cursor + count) % registry.serving(
            country,
        ).upstreams.len(),
        after_selects(registry, country, count).pick(country) == registry.serving(
            country,
        ).upstreams[((registry.serving(country).cursor + count) % registry.serving(
            country,
        ).upstreams.len()) as int],
    decreases count,
{
    let index = registry.group_index(country);
    let own = registry.groups[index].upstreams;
    let start = registry.groups[index].cursor;
    let len = own.len();
    let now = after_selects(registry, country, count);
    lemma_select_keeps_configuration(registry, country);
    if count > 0 {
        let earlier = after_selects(registry, country, (count - 1) as nat);
        lemma_round_robin(registry, country, (count - 1) as nat);
        lemma_select_keeps_configuration(earlier, country);
        lemma_all_healthy(earlier.table, own);
        assert(earlier.eligible(country) == own);
        let cursor = earlier.groups[index].cursor;
        assert(now.groups[index].cursor == (cursor + 1) % len);
        lemma_add_mod_noop(cursor as int, 1, len as int);
        lemma_add_mod_noop((start + count - 1) as int, 1, len as int);
        lemma_mod_twice((start + count) as int, len as int);
    }
    lemma_all_healthy(now.table, own);
    assert(now.eligible(country) == own);
}

/// One round. With every resolver of a group healthy and the cursor at the head, as many
/// selections as the group has resolvers return them once each in list order, and the
/// selections after that repeat the round.
pub proof fn lemma_round_visits_each_once(registry: RegistryView, country: Seq<char>, turn: nat)
    requires
        registry.well_formed(),
        registry.serving(country).upstreams.len() > 0,
        registry.serving(country).cursor == 0,
        forall|i: int|
            0 <= i < registry.serving(country).upstreams.len() ==> registry.is_healthy(
                #[trigger] registry.serving(country).upstreams[i],
            ),
    ensures
        turn < registry.serving(country).upstreams.len() ==> after_selects(
            registry,
            country,
            turn,
        ).pick(country) == registry.serving(country).upstreams[turn as int],
        after_selects(
            registry,
            country,
            turn + registry.serving(country).upstreams.len(),
        ).pick(country) == after_selects(registry, country, turn).pick(country),
{
    let len = registry.serving(country).upstreams.len();
    lemma_round_robin(registry, country, turn);
    lemma_round_robin(registry, country, turn + len);
    vstd::arithmetic::div_mod::lemma_mod_add_multiples_vanish(turn as int, len as int);
    if turn < len {
        vstd::arithmetic::div_mod::lemma_small_mod(turn, len);
    }
}

/// Where a group has a healthy resolver, the selection for its country is healthy.
pub proof fn lemma_select_prefers_healthy(registry: RegistryView, country: Seq<char>)
    requires
        registry.well_formed(),
        registry.healthy_of(registry.serving(country).upstreams).len() > 0,
    ensures
        registry.is_healthy(registry.pick(country)),
        registry.serving(country).upstreams.contains(registry.pick(country)),
{
    let own = registry.serving(country).upstreams;
    let up = registry.healthy_of(own);
    let at = rr_pick(registry.serving(country).cursor, up.len()) as int;
    assert(0 <= at < up.len()) by (nonlinear_arith)
        requires
            at == (registry.serving(country).cursor % up.len()) as int,
            up.len() > 0,
    ;
    own.lemma_filter_pred(marked_healthy(registry.table), at);
    assert(up.contains(up[at]));
    own.lemma_filter_contains_rev(marked_healthy(registry.table), up[at]);
}

/// A resolver that has been marked unhealthy is not selected for a country whose group
/// still has a healthy resolver.
pub proof fn lemma_unhealthy_is_skipped(registry: RegistryView, addr: UpstreamAddr, country: Seq<char>)
    requires
        registry.well_formed(),
        registry.after_set_health(addr, false).healthy_of(
            registry.serving(country).upstreams,
        ).len() > 0,
    ensures
        registry.after_set_health(addr, false).well_formed(),
        !registry.after_set_health(addr, false).is_healthy(addr),
        registry.after_set_health(addr, false).pick(country) != addr,
        registry.after_set_health(addr, false).is_healthy(
            registry.after_set_health(addr, false).pick(country),
        ),
{
    let after = registry.after_set_health(addr, false);
    lemma_set_health(registry, addr, false);
    lemma_select_prefers_healthy(after, country);
}

/// Marking a resolver sets its flag, where it is configured, and no other flag; the
/// groups, their cursors and the set of configured resolvers stay as they were.
pub proof fn lemma_set_health(registry: RegistryView, addr: UpstreamAddr, healthy: bool)
    requires
        registry.well_formed(),
    ensures
        registry.after_set_health(addr, healthy).well_formed(),
        registry.after_set_health(addr, healthy).groups == registry.groups,
        registry.after_set_health(addr, healthy).is_healthy(addr) == (healthy
            && registry.is_configured(addr)),
        forall|other: UpstreamAddr|
            other != addr ==> #[trigger] registry.after_set_health(addr, healthy).is_healthy(other)
                == registry.is_healthy(other),
        forall|other: UpstreamAddr| #[trigger]
            registry.after_set_health(addr, healthy).is_configured(other) == registry.is_configured(
                other,
            ),
        forall|other: Seq<char>| #[trigger]
            registry.after_set_health(addr, healthy).group_index(other) == registry.group_index(
                other,
            ),
{
    let after = registry.after_set_health(addr, healthy);
    assert forall|other: UpstreamAddr| #[trigger]
        after.is_configured(other) == registry.is_configured(other) by {
        if registry.is_configured(other) {
            let at = choose|at: int| 0 <= at < registry.table.len() && #[trigger] registry.table[at].addr == other;
            assert(after.table[at].addr == other);
        }
        if after.is_configured(other) {
            let at = choose|at: int| 0 <= at < after.table.len() && #[trigger] after.table[at].addr == other;
            assert(registry.table[at].addr == other);
        }
    }
    assert forall|g: int, k: int|
        0 <= g < after.groups.len() && 0 <= k < after.groups[g].upstreams.len()
        implies after.is_configured(#[trigger] after.groups[g].upstreams[k]) by {
        assert(registry.is_configured(registry.groups[g].upstreams[k]));
    }
    assert forall|other: UpstreamAddr| other != addr implies #[trigger] after.is_healthy(other)
        == registry.is_healthy(other) by {
        let wanted = UpstreamEntry { addr: other, healthy: true };
        if registry.is_healthy(other) {
            let at = choose|at: int| 0 <= at < registry.table.len() && registry.table[at] == wanted;
            assert(after.table[at] == wanted);
        }
        if after.is_healthy(other) {
            let at = choose|at: int| 0 <= at < after.table.len() && after.table[at] == wanted;
            assert(registry.table[at] == wanted);
        }
    }
    assert forall|other: Seq<char>| #[trigger]
        after.group_index(other) == registry.group_index(other) by {
        assert(after.groups == registry.groups);
        assert(after.is_mapped(other) == registry.is_mapped(other));
    }
    let marked = UpstreamEntry { addr, healthy: true };
    if healthy && registry.is_configured(addr) {
        let at = choose|at: int| 0 <= at < registry.table.len() && #[trigger] registry.table[at].addr == addr;
        assert(after.table[at] == marked);
    }
    if after.is_healthy(addr) {
        let at = choose|at: int| 0 <= at < after.table.len() && after.table[at] == marked;
        assert(registry.table[at].addr == addr);
    }
}

} // verus!
