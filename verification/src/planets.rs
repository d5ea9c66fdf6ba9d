//! Celestial bodies: planets and major moons, their display names and the order
//! in which a run visits them.

use vstd::prelude::*;

verus! {

/// Surfaces to land on (planets + selected moons), in game progression order.
#[derive(Clone, Copy, Debug, PartialEq, Eq, Hash, Structural)]
pub enum CelestialBody {
    Mercury,
    Venus,
    Earth,
    Moon,
    Mars,
    Io,
    Europa,
    Ganymede,
    Callisto,
    Jupiter,
    Saturn,
    Enceladus,
    Titan,
    Uranus,
    Neptune,
    Pluto,
}

impl CelestialBody {
    /// Every body once; a run starts at `ORDER[0]`.
    pub const ORDER: [CelestialBody; 16] = [
        CelestialBody::Mercury,
        CelestialBody::Venus,
        CelestialBody::Earth,
        CelestialBody::Moon,
        CelestialBody::Mars,
        CelestialBody::Io,
        CelestialBody::Europa,
        CelestialBody::Ganymede,
        CelestialBody::Callisto,
        CelestialBody::Saturn,
        CelestialBody::Enceladus,
        CelestialBody::Titan,
        CelestialBody::Uranus,
        CelestialBody::Neptune,
        CelestialBody::Pluto,
        CelestialBody::Jupiter,
    ];

    /// The name shown in the HUD and the intro overlay.
    pub open spec fn name_text(self) -> Seq<char> {
        match self {
            CelestialBody::Mercury => "Mercury"@,
            CelestialBody::Venus => "Venus"@,
            CelestialBody::Earth => "Earth"@,
            CelestialBody::Moon => "Moon"@,
            CelestialBody::Mars => "Mars"@,
            CelestialBody::Jupiter => "Jupiter"@,
            CelestialBody::Saturn => "Saturn"@,
            CelestialBody::Uranus => "Uranus"@,
            CelestialBody::Neptune => "Neptune"@,
            CelestialBody::Pluto => "Pluto"@,
            CelestialBody::Io => "Io"@,
            CelestialBody::Europa => "Europa"@,
            CelestialBody::Ganymede => "Ganymede"@,
            CelestialBody::Callisto => "Callisto"@,
            CelestialBody::Enceladus => "Enceladus"@,
            CelestialBody::Titan => "Titan"@,
        }
    }

    /// The body a successful landing leads to; `None` after the last one.
    pub open spec fn successor(self) -> Option<CelestialBody> {
        match self {
            CelestialBody::Mercury => Some(CelestialBody::Venus),
            CelestialBody::Venus => Some(CelestialBody::Earth),
            CelestialBody::Earth => Some(CelestialBody::Moon),
            CelestialBody::Moon => Some(CelestialBody::Mars),
            CelestialBody::Mars => Some(CelestialBody::Io),
            CelestialBody::Io => Some(CelestialBody::Europa),
            CelestialBody::Europa => Some(CelestialBody::Ganymede),
            CelestialBody::Ganymede => Some(CelestialBody::Callisto),
            CelestialBody::Callisto => Some(CelestialBody::Jupiter),
            CelestialBody::Jupiter => Some(CelestialBody::Saturn),
            CelestialBody::Saturn => Some(CelestialBody::Enceladus),
            CelestialBody::Enceladus => Some(CelestialBody::Titan),
            CelestialBody::Titan => Some(CelestialBody::Uranus),
            CelestialBody::Uranus => Some(CelestialBody::Neptune),
            CelestialBody::Neptune => Some(CelestialBody::Pluto),
            CelestialBody::Pluto => None,
        }
    }

    /// Position of the body along the progression that `successor` walks (Mercury is 0).
    pub open spec fn stage_index(self) -> nat {
        match self {
            CelestialBody::Mercury => 0,
            CelestialBody::Venus => 1,
            CelestialBody::Earth => 2,
            CelestialBody::Moon => 3,
            CelestialBody::Mars => 4,
            CelestialBody::Io => 5,
            CelestialBody::Europa => 6,
            CelestialBody::Ganymede => 7,
            CelestialBody::Callisto => 8,
            CelestialBody::Jupiter => 9,
            CelestialBody::Saturn => 10,
            CelestialBody::Enceladus => 11,
            CelestialBody::Titan => 12,
            CelestialBody::Uranus => 13,
            CelestialBody::Neptune => 14,
            CelestialBody::Pluto => 15,
        }
    }

    pub fn display_name(self) -> (r: &'static str)
        ensures
            r@ == self.name_text(),
    {
        match self {
            CelestialBody::Mercury => "Mercury",
            CelestialBody::Venus => "Venus",
            CelestialBody::Earth => "Earth",
            CelestialBody::Moon => "Moon",
            CelestialBody::Mars => "Mars",
            CelestialBody::Jupiter => "Jupiter",
            CelestialBody::Saturn => "Saturn",
            CelestialBody::Uranus => "Uranus",
            CelestialBody::Neptune => "Neptune",
            CelestialBody::Pluto => "Pluto",
            CelestialBody::Io => "Io",
            CelestialBody::Europa => "Europa",
            CelestialBody::Ganymede => "Ganymede",
            CelestialBody::Callisto => "Callisto",
            CelestialBody::Enceladus => "Enceladus",
            CelestialBody::Titan => "Titan",
        }
    }

    pub fn next(self) -> (r: Option<CelestialBody>)
        ensures
            r == self.successor(),
            r is None <==> self == CelestialBody::Pluto,
            r matches Some(n) ==> n.stage_index() == self.stage_index() + 1,
    {
        match self {
            CelestialBody::Mercury => Some(CelestialBody::Venus),
            CelestialBody::Venus => Some(CelestialBody::Earth),
            CelestialBody::Earth => Some(CelestialBody::Moon),
            CelestialBody::Moon => Some(CelestialBody::Mars),
            CelestialBody::Mars => Some(CelestialBody::Io),
            CelestialBody::Io => Some(CelestialBody::Europa),
            CelestialBody::Europa => Some(CelestialBody::Ganymede),
            CelestialBody::Ganymede => Some(CelestialBody::Callisto),
            CelestialBody::Callisto => Some(CelestialBody::Jupiter),
            CelestialBody::Jupiter => Some(CelestialBody::Saturn),
            CelestialBody::Saturn => Some(CelestialBody::Enceladus),
            CelestialBody::Enceladus => Some(CelestialBody::Titan),
            CelestialBody::Titan => Some(CelestialBody::Uranus),
            CelestialBody::Uranus => Some(CelestialBody::Neptune),
            CelestialBody::Neptune => Some(CelestialBody::Pluto),
            CelestialBody::Pluto => None,
        }
    }
}

/// The label of the propellant for the current body.
pub open spec fn fuel_name_text(body: CelestialBody) -> Seq<char> {
    match body {
        CelestialBody::Jupiter => "Plasma"@,
        _ => "Methane"@,
    }
}

/// HUD label for the current propellant type.
pub fn fuel_display_name(body: CelestialBody) -> (r: &'static str)
    ensures
        r@ == fuel_name_text(body),
{
    match body {
        CelestialBody::Jupiter => "Plasma",
        _ => "Methane",
    }
}

/// The body reached from Mercury after `k` successful landings (Pluto stays Pluto).
pub open spec fn stage(k: nat) -> CelestialBody
    decreases k,
{
    if k == 0 {
        CelestialBody::Mercury
    } else {
        match stage((k - 1) as nat).successor() {
            Some(n) => n,
            None => CelestialBody::Pluto,
        }
    }
}

proof fn lemma_stage_index(k: nat)
    requires
        k < 16,
    ensures
        stage(k).stage_index() == k,
    decreases k,
{
    if k > 0 {
        lemma_stage_index((k - 1) as nat);
    }
}

/// A run visits every body exactly once: the landing at stage `k` leads to the body of
/// stage `k + 1`, the 16 stages are pairwise different and cover all bodies, the run
/// starts at Mercury and its last stage is Pluto, which has no successor.
pub proof fn law_progression_visits_every_body_once(b: CelestialBody, i: nat, j: nat)
    requires
        i < 16,
        j < 16,
    ensures
        stage(0) == CelestialBody::Mercury,
        stage(15) == CelestialBody::Pluto,
        CelestialBody::Pluto.successor() is None,
        i != j ==> stage(i) != stage(j),
        b.stage_index() < 16 && stage(b.stage_index()) == b,
        i < 15 ==> stage(i).successor() == Some(stage(i + 1)),
{
    lemma_stage_index(i);
    lemma_stage_index(j);
    lemma_stage_index(15);
    lemma_stage_index(b.stage_index());
    if i < 15 {
        lemma_stage_index(i + 1);
    }
    assert(stage(b.stage_index()).stage_index() == b.stage_index());
}

/// Two bodies with the same successor are the same body.
pub proof fn law_successor_injective(a: CelestialBody, b: CelestialBody)
    requires
        a.successor() is Some,
        a.successor() == b.successor(),
    ensures
        a == b,
{
}

/// `ORDER` starts at Mercury and lists every body exactly once.
pub proof fn law_order_is_permutation(b: CelestialBody, i: int, j: int)
    requires
        0 <= i < 16,
        0 <= j < 16,
    ensures
        CelestialBody::ORDER@.len() == 16,
        CelestialBody::ORDER@[0] == CelestialBody::Mercury,
        i != j ==> CelestialBody::ORDER@[i] != CelestialBody::ORDER@[j],
        exists|k: int| 0 <= k < 16 && CelestialBody::ORDER@[k] == b,
{
    let o = CelestialBody::ORDER@;
    assert(o[0] == CelestialBody::Mercury);
    assert(o[1] == CelestialBody::Venus);
    assert(o[2] == CelestialBody::Earth);
    assert(o[3] == CelestialBody::Moon);
    assert(o[4] == CelestialBody::Mars);
    assert(o[5] == CelestialBody::Io);
    assert(o[6] == CelestialBody::Europa);
    assert(o[7] == CelestialBody::Ganymede);
    assert(o[8] == CelestialBody::Callisto);
    assert(o[9] == CelestialBody::Saturn);
    assert(o[10] == CelestialBody::Enceladus);
    assert(o[11] == CelestialBody::Titan);
    assert(o[12] == CelestialBody::Uranus);
    assert(o[13] == CelestialBody::Neptune);
    assert(o[14] == CelestialBody::Pluto);
    assert(o[15] == CelestialBody::Jupiter);
}

/// Every body is shown under its own name, spelled out here letter by letter.
pub proof fn law_display_names_spelled()
    ensures
        CelestialBody::Mercury.name_text() == seq!['M', 'e', 'r', 'c', 'u', 'r', 'y'],
        CelestialBody::Venus.name_text() == seq!['V', 'e', 'n', 'u', 's'],
        CelestialBody::Earth.name_text() == seq!['E', 'a', 'r', 't', 'h'],
        CelestialBody::Moon.name_text() == seq!['M', 'o', 'o', 'n'],
        CelestialBody::Mars.name_text() == seq!['M', 'a', 'r', 's'],
        CelestialBody::Io.name_text() == seq!['I', 'o'],
        CelestialBody::Europa.name_text() == seq!['E', 'u', 'r', 'o', 'p', 'a'],
        CelestialBody::Ganymede.name_text() == seq!['G', 'a', 'n', 'y', 'm', 'e', 'd', 'e'],
        CelestialBody::Callisto.name_text() == seq!['C', 'a', 'l', 'l', 'i', 's', 't', 'o'],
        CelestialBody::Jupiter.name_text() == seq!['J', 'u', 'p', 'i', 't', 'e', 'r'],
        CelestialBody::Saturn.name_text() == seq!['S', 'a', 't', 'u', 'r', 'n'],
        CelestialBody::Enceladus.name_text() == seq!['E', 'n', 'c', 'e', 'l', 'a', 'd', 'u', 's'],
        CelestialBody::Titan.name_text() == seq!['T', 'i', 't', 'a', 'n'],
        CelestialBody::Uranus.name_text() == seq!['U', 'r', 'a', 'n', 'u', 's'],
        CelestialBody::Neptune.name_text() == seq!['N', 'e', 'p', 't', 'u', 'n', 'e'],
        CelestialBody::Pluto.name_text() == seq!['P', 'l', 'u', 't', 'o'],
{
    reveal_strlit("Mercury");
    reveal_strlit("Venus");
    reveal_strlit("Earth");
    reveal_strlit("Moon");
    reveal_strlit("Mars");
    reveal_strlit("Io");
    reveal_strlit("Europa");
    reveal_strlit("Ganymede");
    reveal_strlit("Callisto");
    reveal_strlit("Jupiter");
    reveal_strlit("Saturn");
    reveal_strlit("Enceladus");
    reveal_strlit("Titan");
    reveal_strlit("Uranus");
    reveal_strlit("Neptune");
    reveal_strlit("Pluto");
}

/// Different bodies are shown under different names.
pub proof fn law_display_names_distinct(a: CelestialBody, b: CelestialBody)
    requires
        a != b,
    ensures
        a.name_text() != b.name_text(),
{
    law_display_names_spelled();
    if a.name_text() == b.name_text() {
        assert(a.name_text().len() == b.name_text().len());
        assert(a.name_text()[0] == b.name_text()[0]);
        assert(a.name_text()[1] == b.name_text()[1]);
        assert(a.name_text().last() == b.name_text().last());
    }
}

/// The propellant label is "Plasma" on Jupiter and "Methane" on every other body: Jupiter
/// is the only body whose label differs from the others'.
pub proof fn law_fuel_label_only_jupiter_differs(a: CelestialBody, b: CelestialBody)
    ensures
        fuel_name_text(CelestialBody::Jupiter) == seq!['P', 'l', 'a', 's', 'm', 'a'],
        a != CelestialBody::Jupiter ==> fuel_name_text(a) == seq![
            'M', 'e', 't', 'h', 'a', 'n', 'e',
        ],
        (fuel_name_text(a) == fuel_name_text(b)) <==> ((a == CelestialBody::Jupiter) == (b
            == CelestialBody::Jupiter)),
{
    reveal_strlit("Plasma");
    reveal_strlit("Methane");
    assert("Plasma"@ != "Methane"@) by {
        assert("Plasma"@.len() != "Methane"@.len());
    }
}

} // verus!
