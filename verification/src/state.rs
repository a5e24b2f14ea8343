//! The smoke solver's state slots: which slots a frame's state must hold,
//! and the check that decides whether a stored state can be stepped, must
//! be started afresh, or has the wrong shape.

use vstd::prelude::*;

verus! {

/// A state slot the solver keeps between frames.
#[derive(Debug, Clone, Copy, PartialEq, Eq, Structural)]
pub enum Slot {
    /// A staggered field.
    Velocity,
    /// A cell-centred field.
    Density,
    /// A cell-centred field.
    Temperature,
    /// p, kept as the next solve's warm start.
    Pressure,
    /// Fuel, while fire is on.
    Fuel,
    /// The reaction coordinate, while fire is on.
    React,
}

pub open spec fn spec_slot_name(s: Slot) -> Seq<char> {
    match s {
        Slot::Velocity => "velocity"@,
        Slot::Density => "density"@,
        Slot::Temperature => "temperature"@,
        Slot::Pressure => "pressure"@,
        Slot::Fuel => "fuel"@,
        Slot::React => "react"@,
    }
}

impl Slot {
    /// The slot's name in the state store.
    pub fn name(self) -> (n: &'static str)
        ensures
            n@ == spec_slot_name(self),
    {
        match self {
            Slot::Velocity => "velocity",
            Slot::Density => "density",
            Slot::Temperature => "temperature",
            Slot::Pressure => "pressure",
            Slot::Fuel => "fuel",
            Slot::React => "react",
        }
    }
}

/// What a stored value is.
#[derive(Debug, Clone, Copy, PartialEq, Eq, Structural)]
pub enum Stored {
    /// A cell-centred field.
    Field,
    /// A staggered vector field.
    VectorField,
    /// Anything else.
    Other,
}

/// What the solver makes of the state it found.
#[derive(Debug, Clone, Copy, PartialEq, Eq, Structural)]
pub enum StateCheck {
    /// Nothing stored: the first step starts from a still, empty domain
    /// (with zeroed fuel and react when fire is on).
    Fresh,
    /// Every expected slot, each of the right shape.
    Complete,
    /// A state from the other mode, or a slot of the wrong kind: the node
    /// answers with a state-shape error naming this slot, and the timeline
    /// resets.
    WrongShape(Slot),
}

/// The slots a state must hold: velocity, density, temperature and
/// pressure, then fuel and react with fire on.
pub open spec fn expected_slots(fire: bool) -> Seq<Slot> {
    if fire {
        seq![Slot::Velocity, Slot::Density, Slot::Temperature, Slot::Pressure, Slot::Fuel, Slot::React]
    } else {
        seq![Slot::Velocity, Slot::Density, Slot::Temperature, Slot::Pressure]
    }
}

/// The kind of value a slot holds: velocity is staggered, the rest cell-centred.
pub open spec fn slot_kind(s: Slot) -> Stored {
    if s == Slot::Velocity { Stored::VectorField } else { Stored::Field }
}

/// Whether some taken entry is of slot `s`.
pub open spec fn holds(taken: Seq<(Slot, Stored)>, s: Slot) -> bool {
    exists|i: int| 0 <= i < taken.len() && (#[trigger] taken[i]).0 == s
}

/// The first of `slots` no taken entry holds.
pub open spec fn first_missing(slots: Seq<Slot>, taken: Seq<(Slot, Stored)>) -> Option<Slot>
    decreases slots.len(),
{
    if slots.len() == 0 {
        None
    } else if !holds(taken, slots[0]) {
        Some(slots[0])
    } else {
        first_missing(slots.drop_first(), taken)
    }
}

/// The first taken entry whose slot is not expected.
pub open spec fn first_unexpected(taken: Seq<(Slot, Stored)>, slots: Seq<Slot>) -> Option<Slot>
    decreases taken.len(),
{
    if taken.len() == 0 {
        None
    } else if !slots.contains(taken[0].0) {
        Some(taken[0].0)
    } else {
        first_unexpected(taken.drop_first(), slots)
    }
}

/// The first taken entry holding the wrong kind of value.
pub open spec fn first_wrong_kind(taken: Seq<(Slot, Stored)>) -> Option<Slot>
    decreases taken.len(),
{
    if taken.len() == 0 {
        None
    } else if taken[0].1 != slot_kind(taken[0].0) {
        Some(taken[0].0)
    } else {
        first_wrong_kind(taken.drop_first())
    }
}

/// What the solver makes of the slots: fresh when nothing is stored; else the first
/// missing slot, or else the first unexpected one, or else the first of the
/// wrong kind; complete when there is none.
pub open spec fn spec_check_state(fire: bool, taken: Seq<(Slot, Stored)>) -> StateCheck {
    if taken.len() == 0 {
        StateCheck::Fresh
    } else {
        match first_missing(expected_slots(fire), taken) {
            Some(s) => StateCheck::WrongShape(s),
            None => match first_unexpected(taken, expected_slots(fire)) {
                Some(s) => StateCheck::WrongShape(s),
                None => match first_wrong_kind(taken) {
                    Some(s) => StateCheck::WrongShape(s),
                    None => StateCheck::Complete,
                },
            },
        }
    }
}

/// A complete state holds exactly the expected slots, each of its kind.
pub proof fn lemma_complete_state(fire: bool, taken: Seq<(Slot, Stored)>)
    requires
        spec_check_state(fire, taken) == StateCheck::Complete,
    ensures
        forall|i: int| 0 <= i < expected_slots(fire).len() ==> holds(taken, #[trigger] expected_slots(fire)[i]),
        forall|i: int| 0 <= i < taken.len() ==> expected_slots(fire).contains(#[trigger] taken[i].0),
        forall|i: int| 0 <= i < taken.len() ==> (#[trigger] taken[i]).1 == slot_kind(taken[i].0),
{
    lemma_no_missing(expected_slots(fire), taken);
    lemma_no_unexpected(taken, expected_slots(fire));
    lemma_no_wrong_kind(taken);
}

proof fn lemma_no_missing(slots: Seq<Slot>, taken: Seq<(Slot, Stored)>)
    requires
        first_missing(slots, taken) is None,
    ensures
        forall|i: int| 0 <= i < slots.len() ==> holds(taken, #[trigger] slots[i]),
    decreases slots.len(),
{
    if slots.len() > 0 {
        lemma_no_missing(slots.drop_first(), taken);
        assert forall|i: int| 0 <= i < slots.len() implies holds(taken, #[trigger] slots[i]) by {
            if i > 0 { assert(slots[i] == slots.drop_first()[i - 1]); }
        }
    }
}

proof fn lemma_no_unexpected(taken: Seq<(Slot, Stored)>, slots: Seq<Slot>)
    requires
        first_unexpected(taken, slots) is None,
    ensures
        forall|i: int| 0 <= i < taken.len() ==> slots.contains(#[trigger] taken[i].0),
    decreases taken.len(),
{
    if taken.len() > 0 {
        lemma_no_unexpected(taken.drop_first(), slots);
        assert forall|i: int| 0 <= i < taken.len() implies slots.contains(#[trigger] taken[i].0) by {
            if i > 0 { assert(taken[i] == taken.drop_first()[i - 1]); }
        }
    }
}

proof fn lemma_no_wrong_kind(taken: Seq<(Slot, Stored)>)
    requires
        first_wrong_kind(taken) is None,
    ensures
        forall|i: int| 0 <= i < taken.len() ==> (#[trigger] taken[i]).1 == slot_kind(taken[i].0),
    decreases taken.len(),
{
    if taken.len() > 0 {
        lemma_no_wrong_kind(taken.drop_first());
        assert forall|i: int| 0 <= i < taken.len() implies (#[trigger] taken[i]).1 == slot_kind(taken[i].0) by {
            if i > 0 { assert(taken[i] == taken.drop_first()[i - 1]); }
        }
    }
}

/// The expected slots, in order.
pub fn expected(fire: bool) -> (v: Vec<Slot>)
    ensures
        v@ == expected_slots(fire),
{
    let mut v = vec![Slot::Velocity, Slot::Density, Slot::Temperature, Slot::Pressure];
    if fire {
        v.push(Slot::Fuel);
        v.push(Slot::React);
    }
    proof { assert(v@ =~= expected_slots(fire)); }
    v
}

fn holds_slot(taken: &[(Slot, Stored)], s: Slot) -> (h: bool)
    ensures
        h == holds(taken@, s),
{
    let mut i: usize = 0;
    while i < taken.len()
        invariant
            i <= taken.len(),
            forall|j: int| 0 <= j < i ==> (#[trigger] taken@[j]).0 != s,
        decreases taken.len() - i,
    {
        if taken[i].0 == s {
            return true;
        }
        i = i + 1;
    }
    false
}

fn slot_in(slots: &Vec<Slot>, s: Slot) -> (h: bool)
    ensures
        h == slots@.contains(s),
{
    let mut i: usize = 0;
    while i < slots.len()
        invariant
            i <= slots.len(),
            forall|j: int| 0 <= j < i ==> slots@[j] != s,
        decreases slots.len() - i,
    {
        if slots[i] == s {
            return true;
        }
        i = i + 1;
    }
    false
}

/// Decide what to do with the state slots taken from the store, in the
/// order they were taken: with fire on the fuel and react slots must be
/// present too, and with it off they must be absent; velocity must hold a
/// vector field and every other slot a field.
pub fn check_state(fire: bool, taken: &[(Slot, Stored)]) -> (c: StateCheck)
    ensures
        c == spec_check_state(fire, taken@),
{
    if taken.len() == 0 {
        return StateCheck::Fresh;
    }
    let slots = expected(fire);
    let ghost exp = slots@;
    let mut i: usize = 0;
    proof { assert(exp.skip(0) =~= exp); }
    while i < slots.len()
        invariant
            taken.len() > 0,
            exp == slots@,
            exp == expected_slots(fire),
            i <= slots.len(),
            first_missing(exp, taken@) == first_missing(exp.skip(i as int), taken@),
        decreases slots.len() - i,
    {
        proof {
            assert(exp.skip(i as int)[0] == exp[i as int]);
            assert(exp.skip(i as int).drop_first() =~= exp.skip(i + 1));
        }
        if !holds_slot(taken, slots[i]) {
            return StateCheck::WrongShape(slots[i]);
        }
        i = i + 1;
    }
    let mut j: usize = 0;
    proof {
        assert(taken@.skip(0) =~= taken@);
        assert(exp.skip(slots.len() as int).len() == 0);
    }
    while j < taken.len()
        invariant
            taken.len() > 0,
            first_missing(exp, taken@) is None,
            exp == slots@,
            exp == expected_slots(fire),
            j <= taken.len(),
            first_unexpected(taken@, exp) == first_unexpected(taken@.skip(j as int), exp),
        decreases taken.len() - j,
    {
        proof {
            assert(taken@.skip(j as int)[0] == taken@[j as int]);
            assert(taken@.skip(j as int).drop_first() =~= taken@.skip(j + 1));
        }
        if !slot_in(&slots, taken[j].0) {
            return StateCheck::WrongShape(taken[j].0);
        }
        j = j + 1;
    }
    let mut k: usize = 0;
    proof { assert(taken@.skip(taken.len() as int).len() == 0); }
    while k < taken.len()
        invariant
            taken.len() > 0,
            first_missing(expected_slots(fire), taken@) is None,
            first_unexpected(taken@, expected_slots(fire)) is None,
            k <= taken.len(),
            first_wrong_kind(taken@) == first_wrong_kind(taken@.skip(k as int)),
        decreases taken.len() - k,
    {
        proof {
            assert(taken@.skip(k as int)[0] == taken@[k as int]);
            assert(taken@.skip(k as int).drop_first() =~= taken@.skip(k + 1));
        }
        let (slot, stored) = taken[k];
        let want = if slot == Slot::Velocity { Stored::VectorField } else { Stored::Field };
        if stored != want {
            return StateCheck::WrongShape(slot);
        }
        k = k + 1;
    }
    StateCheck::Complete
}

/// The inputs a frame takes, in socket order: the density and temperature
/// rates always, the emitter's weight and target velocity when that pair is
/// connected, the collider's SDF and velocity when that pair is, and the
/// fuel rate when it is connected (which turns fire on).
pub fn wanted_inputs(emission: bool, collider: bool, fuel: bool) -> (v: Vec<u32>)
    ensures
        v@ == seq![0u32, 1u32] + (if emission { seq![2u32, 3u32] } else { Seq::empty() })
            + (if collider { seq![4u32, 5u32] } else { Seq::empty() })
            + (if fuel { seq![6u32] } else { Seq::empty() }),
{
    let mut v: Vec<u32> = vec![0, 1];
    if emission {
        v.push(2);
        v.push(3);
    }
    if collider {
        v.push(4);
        v.push(5);
    }
    if fuel {
        v.push(6);
    }
    proof {
        assert(v@ =~= seq![0u32, 1u32] + (if emission { seq![2u32, 3u32] } else { Seq::empty() })
            + (if collider { seq![4u32, 5u32] } else { Seq::empty() })
            + (if fuel { seq![6u32] } else { Seq::empty() }));
    }
    v
}

} // verus!
