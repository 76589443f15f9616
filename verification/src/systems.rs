//! Systems of the entity component system: which entities each system
//! handles, by the components it needs, and the manager that dispatches
//! entities to systems. The events a system fires are left to its caller,
//! who is told which systems an entity went to or left.
use vstd::prelude::*;

verus! {

/// Whether an entity with components `entity` has every component of a
/// system that needs `system`, as bit sets.
pub open spec fn fits(system: usize, entity: usize) -> bool {
    system & !entity == 0
}

/// An entity fits a system exactly when it has every component the system
/// needs: its bit set holds the system's.
pub proof fn law_fits_is_containment(system: usize, entity: usize)
    ensures
        fits(system, entity) <==> system & entity == system,
        fits(system, entity) <==> system | entity == entity,
{
    assert((system & !entity == 0) <==> (system & entity == system)) by (bit_vector);
    assert((system & !entity == 0) <==> (system | entity == entity)) by (bit_vector);
}

/// An entity that lacks one component a system needs does not fit it, and
/// an entity that fits has each component the system needs.
pub proof fn law_fits_bit_by_bit(system: usize, entity: usize, i: usize)
    requires
        i < usize::BITS,
    ensures
        fits(system, entity) && (system >> i) & 1 == 1 ==> (entity >> i) & 1 == 1,
        (system >> i) & 1 == 1 && (entity >> i) & 1 == 0 ==> !fits(system, entity),
{
    assert(i < usize::BITS ==> (system & !entity == 0 && (system >> i) & 1 == 1 ==> (entity >> i) & 1 == 1)) by (bit_vector);
}

/// The position of the first `x` in `s` (its length where there is none).
pub open spec fn first_pos(s: Seq<usize>, x: usize) -> int
    decreases s.len(),
{
    if s.len() == 0 {
        0
    } else if s[0] == x {
        0
    } else {
        1 + first_pos(s.drop_first(), x)
    }
}

/// `s` without its first `x`.
pub open spec fn remove_first(s: Seq<usize>, x: usize) -> Seq<usize> {
    let i = first_pos(s, x);
    s.subrange(0, i) + s.subrange(i + 1, s.len() as int)
}

/// Where no `x` comes before `i` and `s[i]` is `x`, the first `x` is at `i`.
proof fn lemma_first_pos(s: Seq<usize>, x: usize, i: int)
    requires
        0 <= i < s.len(),
        s[i] == x,
        forall|j: int| 0 <= j < i ==> s[j] != x,
    ensures
        first_pos(s, x) == i,
    decreases i,
{
    if i > 0 {
        lemma_first_pos(s.drop_first(), x, i - 1);
    }
}

/// A system: the components it needs, its identifier, whether it runs, and
/// the entities it handles.
#[derive(Clone, Debug)]
pub struct System {
    pub c_bitfield: usize,
    pub system_id: u8,
    pub enabled: bool,
    pub entities: Vec<usize>,
}

impl System {
    /// A system that needs no component and handles no entity.
    pub fn new() -> (r: System)
        ensures
            r.c_bitfield == 0,
            r.system_id == 0,
            !r.enabled,
            r.entities@ == Seq::<usize>::empty(),
    {
        System { c_bitfield: 0, system_id: 0, enabled: false, entities: Vec::new() }
    }

    /// Whether an entity with the components `entity_bitfield` fits the system.
    pub fn is_entity_valid(&self, entity_bitfield: usize) -> (r: bool)
        ensures
            r == fits(self.c_bitfield, entity_bitfield),
    {
        self.c_bitfield & !entity_bitfield == 0
    }

    /// The system also needs the component with bit set `component_id`.
    pub fn link_component(&mut self, component_id: usize)
        ensures
            *final(self) == (System { c_bitfield: old(self).c_bitfield | component_id, ..*old(self) }),
    {
        self.c_bitfield = self.c_bitfield | component_id;
    }

    /// The system handles one more entity.
    pub fn add_entity(&mut self, entity_id: usize)
        ensures
            final(self).entities@ == old(self).entities@.push(entity_id),
            final(self).c_bitfield == old(self).c_bitfield,
            final(self).system_id == old(self).system_id,
            final(self).enabled == old(self).enabled,
    {
        self.entities.push(entity_id);
    }

    /// The system no longer handles an entity: its first occurrence goes.
    pub fn remove_entity(&mut self, entity_id: usize)
        requires
            old(self).entities@.contains(entity_id),
        ensures
            final(self).entities@ == remove_first(old(self).entities@, entity_id),
            final(self).c_bitfield == old(self).c_bitfield,
            final(self).system_id == old(self).system_id,
            final(self).enabled == old(self).enabled,
    {
        let len = self.entities.len();
        let mut i: usize = 0;
        while i < len
            invariant
                len == self.entities@.len(),
                self.entities@ == old(self).entities@,
                i <= len,
                forall|j: int| 0 <= j < i ==> self.entities@[j] != entity_id,
            ensures
                len == self.entities@.len(),
                self.entities@ == old(self).entities@,
                i <= len,
                forall|j: int| 0 <= j < i ==> self.entities@[j] != entity_id,
                i < len ==> self.entities@[i as int] == entity_id,
            decreases len - i,
        {
            if self.entities[i] == entity_id {
                break;
            }
            i = i + 1;
        }
        proof {
            if i == len {
                let k = self.entities@.index_of(entity_id);
                assert(self.entities@[k] == entity_id);
            }
            lemma_first_pos(self.entities@, entity_id, i as int);
        }
        self.entities.remove(i);
        proof {
            assert(self.entities@ =~= remove_first(old(self).entities@, entity_id));
        }
    }

    /// The system runs.
    pub fn enable(&mut self)
        ensures
            *final(self) == (System { enabled: true, ..*old(self) }),
    {
        self.enabled = true;
    }

    /// The system stops running.
    pub fn disable(&mut self)
        ensures
            *final(self) == (System { enabled: false, ..*old(self) }),
    {
        self.enabled = false;
    }
}

/// The components that each system needs.
pub open spec fn bitfields(systems: Seq<System>) -> Seq<usize> {
    Seq::new(systems.len(), |i: int| systems[i].c_bitfield)
}

/// The entity lists of systems needing `bits` after an entity with
/// components `bitfield` is added: each system it fits handles it too.
pub open spec fn lists_after_add(bits: Seq<usize>, lists: Seq<Seq<usize>>, entity_id: usize, bitfield: usize) -> Seq<Seq<usize>> {
    Seq::new(
        lists.len(),
        |i: int|
            if fits(bits[i], bitfield) {
                lists[i].push(entity_id)
            } else {
                lists[i]
            },
    )
}

/// The entity lists of systems needing `bits` after an entity with
/// components `bitfield` is removed: each system it fits drops it.
pub open spec fn lists_after_remove(bits: Seq<usize>, lists: Seq<Seq<usize>>, entity_id: usize, bitfield: usize) -> Seq<Seq<usize>> {
    Seq::new(
        lists.len(),
        |i: int|
            if fits(bits[i], bitfield) {
                remove_first(lists[i], entity_id)
            } else {
                lists[i]
            },
    )
}

/// Removing an entity undoes adding it, where no system handled it before.
pub proof fn law_remove_undoes_add(bits: Seq<usize>, lists: Seq<Seq<usize>>, entity_id: usize, bitfield: usize)
    requires
        bits.len() == lists.len(),
        forall|i: int| 0 <= i < lists.len() ==> !(#[trigger] lists[i]).contains(entity_id),
    ensures
        lists_after_remove(bits, lists_after_add(bits, lists, entity_id, bitfield), entity_id, bitfield) == lists,
{
    let added = lists_after_add(bits, lists, entity_id, bitfield);
    assert forall|i: int| 0 <= i < lists.len() implies #[trigger] lists_after_remove(bits, added, entity_id, bitfield)[i] == lists[i] by {
        if fits(bits[i], bitfield) {
            let s = lists[i];
            assert forall|j: int| 0 <= j < s.len() implies s.push(entity_id)[j] != entity_id by {
                assert(s.push(entity_id)[j] == s[j]);
            }
            lemma_first_pos(s.push(entity_id), entity_id, s.len() as int);
            assert(remove_first(s.push(entity_id), entity_id) =~= s);
        }
    }
    assert(lists_after_remove(bits, added, entity_id, bitfield) =~= lists);
}

/// The entities that each system handles.
pub open spec fn entity_lists(systems: Seq<System>) -> Seq<Seq<usize>> {
    Seq::new(systems.len(), |i: int| systems[i].entities@)
}

/// The systems that an entity with components `bitfield` fits, in order.
pub open spec fn fitting(systems: Seq<System>, bitfield: usize) -> Seq<usize>
    decreases systems.len(),
{
    if systems.len() == 0 {
        Seq::empty()
    } else {
        fitting(systems.drop_last(), bitfield) + if fits(systems.last().c_bitfield, bitfield) {
            seq![(systems.len() - 1) as usize]
        } else {
            Seq::empty()
        }
    }
}

/// Whether two lists of systems differ only in the entities they handle.
pub open spec fn same_systems(a: Seq<System>, b: Seq<System>) -> bool {
    a.len() == b.len() && forall|i: int|
        0 <= i < a.len() ==> (#[trigger] a[i]).c_bitfield == b[i].c_bitfield && a[i].system_id == b[i].system_id
            && a[i].enabled == b[i].enabled
}

/// The systems of a world.
pub struct SystemManager {
    pub systems: Vec<System>,
}

impl SystemManager {
    /// A manager without systems.
    pub fn new() -> (r: SystemManager)
        ensures
            r.systems@ == Seq::<System>::empty(),
    {
        SystemManager { systems: Vec::new() }
    }

    /// Adds a system; its identifier is the number of systems before it,
    /// as a byte.
    pub fn add_system(&mut self, system: System) -> (r: u8)
        ensures
            r == (old(self).systems@.len() % 256) as u8,
            final(self).systems@ == old(self).systems@.push(System { system_id: r, ..system }),
    {
        let id = (self.systems.len() % 256) as u8;
        let mut system = system;
        system.system_id = id;
        self.systems.push(system);
        id
    }

    /// The system with this identifier, by its place among the systems.
    pub fn get_system(&self, system_id: u8) -> (r: Option<&System>)
        ensures
            r == (if (system_id as int) < self.systems@.len() {
                Some(&self.systems@[system_id as int])
            } else {
                None
            }),
    {
        if (system_id as usize) < self.systems.len() {
            Some(&self.systems[system_id as usize])
        } else {
            None
        }
    }

    /// Adds an entity, with components `bitfield`, to every system it fits.
    /// Returns those systems, in order, to fire their events.
    pub fn add_entity_to_systems(&mut self, entity_id: usize, bitfield: usize) -> (r: Vec<usize>)
        ensures
            same_systems(final(self).systems@, old(self).systems@),
            entity_lists(final(self).systems@) == lists_after_add(
                bitfields(old(self).systems@),
                entity_lists(old(self).systems@),
                entity_id,
                bitfield,
            ),
            r@ == fitting(old(self).systems@, bitfield),
    {
        let ghost old_systems = self.systems@;
        let mut out: Vec<usize> = Vec::new();
        let mut i: usize = 0;
        while i < self.systems.len()
            invariant
                i <= self.systems@.len(),
                self.systems@.len() == old_systems.len(),
                same_systems(self.systems@, old_systems),
                forall|j: int|
                    0 <= j < self.systems@.len() ==> #[trigger] self.systems@[j].entities@ == if j < i {
                        lists_after_add(bitfields(old_systems), entity_lists(old_systems), entity_id, bitfield)[j]
                    } else {
                        old_systems[j].entities@
                    },
                out@ == fitting(old_systems.subrange(0, i as int), bitfield),
            decreases self.systems@.len() - i,
        {
            proof {
                assert(old_systems.subrange(0, i + 1).drop_last() =~= old_systems.subrange(0, i as int));
            }
            if self.systems[i].is_entity_valid(bitfield) {
                self.systems[i].add_entity(entity_id);
                out.push(i);
            }
            i = i + 1;
        }
        proof {
            assert(old_systems.subrange(0, old_systems.len() as int) =~= old_systems);
            assert(entity_lists(self.systems@) =~= lists_after_add(
                bitfields(old_systems),
                entity_lists(old_systems),
                entity_id,
                bitfield,
            ));
        }
        out
    }

    /// Removes an entity, with components `bitfield`, from every system it
    /// fits, each of which must handle it. Returns those systems, in order,
    /// to fire their events.
    pub fn remove_entity_from_systems(&mut self, entity_id: usize, bitfield: usize) -> (r: Vec<usize>)
        requires
            forall|i: int|
                0 <= i < old(self).systems@.len() && fits(#[trigger] old(self).systems@[i].c_bitfield, bitfield)
                    ==> old(self).systems@[i].entities@.contains(entity_id),
        ensures
            same_systems(final(self).systems@, old(self).systems@),
            entity_lists(final(self).systems@) == lists_after_remove(
                bitfields(old(self).systems@),
                entity_lists(old(self).systems@),
                entity_id,
                bitfield,
            ),
            r@ == fitting(old(self).systems@, bitfield),
    {
        let ghost old_systems = self.systems@;
        let mut out: Vec<usize> = Vec::new();
        let mut i: usize = 0;
        while i < self.systems.len()
            invariant
                i <= self.systems@.len(),
                self.systems@.len() == old_systems.len(),
                same_systems(self.systems@, old_systems),
                forall|j: int|
                    0 <= j < old_systems.len() && fits(#[trigger] old_systems[j].c_bitfield, bitfield)
                        ==> old_systems[j].entities@.contains(entity_id),
                forall|j: int|
                    0 <= j < self.systems@.len() ==> #[trigger] self.systems@[j].entities@ == if j < i {
                        lists_after_remove(bitfields(old_systems), entity_lists(old_systems), entity_id, bitfield)[j]
                    } else {
                        old_systems[j].entities@
                    },
                out@ == fitting(old_systems.subrange(0, i as int), bitfield),
            decreases self.systems@.len() - i,
        {
            proof {
                assert(old_systems.subrange(0, i + 1).drop_last() =~= old_systems.subrange(0, i as int));
            }
            if self.systems[i].is_entity_valid(bitfield) {
                proof {
                    assert(fits(old_systems[i as int].c_bitfield, bitfield));
                }
                self.systems[i].remove_entity(entity_id);
                out.push(i);
            }
            i = i + 1;
        }
        proof {
            assert(old_systems.subrange(0, old_systems.len() as int) =~= old_systems);
            assert(entity_lists(self.systems@) =~= lists_after_remove(
                bitfields(old_systems),
                entity_lists(old_systems),
                entity_id,
                bitfield,
            ));
        }
        out
    }

    /// Stops every system, and gives the events that stopping fires, in the
    /// order they fire: first each system in turn is disabled, then, system
    /// after system, each entity it handles is removed from it.
    pub fn kill_systems(&mut self) -> (r: Vec<SystemEvent>)
        ensures
            final(self).systems@.len() == old(self).systems@.len(),
            forall|i: int|
                0 <= i < old(self).systems@.len() ==> #[trigger] final(self).systems@[i] == (System {
                    enabled: false,
                    ..old(self).systems@[i]
                }),
            r@ == kill_events(old(self).systems@),
    {
        let mut events: Vec<SystemEvent> = Vec::new();
        let mut i: usize = 0;
        while i < self.systems.len()
            invariant
                i <= self.systems@.len(),
                self.systems@.len() == old(self).systems@.len(),
                forall|j: int|
                    0 <= j < self.systems@.len() ==> #[trigger] self.systems@[j] == if j < i {
                        System { enabled: false, ..old(self).systems@[j] }
                    } else {
                        old(self).systems@[j]
                    },
                events@ == disable_events(i as nat),
            decreases self.systems@.len() - i,
        {
            self.systems[i].disable();
            events.push(SystemEvent::Disabled(i));
            proof {
                assert(events@ =~= disable_events((i + 1) as nat));
            }
            i = i + 1;
        }
        let ghost disabled = events@;
        let mut k: usize = 0;
        while k < self.systems.len()
            invariant
                k <= self.systems@.len(),
                self.systems@.len() == old(self).systems@.len(),
                disabled == disable_events(old(self).systems@.len()),
                forall|j: int|
                    0 <= j < self.systems@.len() ==> #[trigger] self.systems@[j] == (System {
                        enabled: false,
                        ..old(self).systems@[j]
                    }),
                events@ == disabled + removal_events(old(self).systems@.subrange(0, k as int)),
            decreases self.systems@.len() - k,
        {
            let ghost before = events@;
            let n = self.systems[k].entities.len();
            let mut e: usize = 0;
            while e < n
                invariant
                    k < self.systems@.len(),
                    e <= n,
                    n == self.systems@[k as int].entities@.len(),
                    events@ == before + removals(k, self.systems@[k as int].entities@.subrange(0, e as int)),
                decreases n - e,
            {
                let id = self.systems[k].entities[e];
                events.push(SystemEvent::EntityRemoved(k, id));
                proof {
                    let ents = self.systems@[k as int].entities@;
                    assert(ents.subrange(0, e + 1) =~= ents.subrange(0, e as int).push(id));
                    assert(removals(k, ents.subrange(0, e + 1)) =~= removals(k, ents.subrange(0, e as int)).push(
                        SystemEvent::EntityRemoved(k, id),
                    ));
                    assert(events@ =~= before + removals(k, ents.subrange(0, e + 1)));
                }
                e = e + 1;
            }
            proof {
                let ents = self.systems@[k as int].entities@;
                assert(ents.subrange(0, n as int) =~= ents);
                let pre = old(self).systems@.subrange(0, k + 1);
                assert(pre.drop_last() =~= old(self).systems@.subrange(0, k as int));
                assert(pre.last() == old(self).systems@[k as int]);
                assert(events@ =~= disabled + removal_events(pre));
            }
            k = k + 1;
        }
        proof {
            assert(old(self).systems@.subrange(0, old(self).systems@.len() as int) =~= old(self).systems@);
        }
        events
    }
}

/// An event that stopping the systems fires.
#[derive(Clone, Copy, PartialEq, Eq, Structural, Debug)]
pub enum SystemEvent {
    /// The system at this position was disabled.
    Disabled(usize),
    /// The entity (second) was removed from the system at the position (first).
    EntityRemoved(usize, usize),
}

/// The disabled events of the first `n` systems, in order.
pub open spec fn disable_events(n: nat) -> Seq<SystemEvent> {
    Seq::new(n, |i: int| SystemEvent::Disabled(i as usize))
}

/// The removal events of the system at `index` for the entities `ids`, in order.
pub open spec fn removals(index: usize, ids: Seq<usize>) -> Seq<SystemEvent> {
    ids.map_values(|id: usize| SystemEvent::EntityRemoved(index, id))
}

/// The removal events of every system, system after system.
pub open spec fn removal_events(systems: Seq<System>) -> Seq<SystemEvent>
    decreases systems.len(),
{
    if systems.len() == 0 {
        Seq::empty()
    } else {
        removal_events(systems.drop_last()) + removals(
            (systems.len() - 1) as usize,
            systems.last().entities@,
        )
    }
}

/// The events that stopping `systems` fires: each system disabled in turn,
/// then the removal of each entity from its system.
pub open spec fn kill_events(systems: Seq<System>) -> Seq<SystemEvent> {
    disable_events(systems.len()) + removal_events(systems)
}

} // verus!
