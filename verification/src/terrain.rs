//! Integer parts of terrain generation: how many pads, which heightfield samples a pad or
//! a volcano plateau flattens, and how many smoothing passes a body's profile uses.

use vstd::prelude::*;

use crate::planets::CelestialBody;

verus! {

/// Terrain has two or three landing pads whatever count is asked for.
pub fn clamp_pad_count(pad_count: usize) -> (r: usize)
    ensures
        r == if pad_count < 2 {
            2
        } else if pad_count > 3 {
            3
        } else {
            pad_count
        },
{
    if pad_count < 2 {
        2
    } else if pad_count > 3 {
        3
    } else {
        pad_count
    }
}

pub open spec fn min_int(a: int, b: int) -> int {
    if a < b {
        a
    } else {
        b
    }
}

pub open spec fn max_int(a: int, b: int) -> int {
    if a > b {
        a
    } else {
        b
    }
}

/// The flattened span: start at the rounded left edge but at most `lim`, end at the
/// rounded right edge but at least two samples further and at most the last sample.
pub open spec fn flat_span(raw_i0: int, raw_i1: int, lim: int, n: int) -> (int, int) {
    let i0 = min_int(raw_i0, lim);
    (i0, min_int(max_int(raw_i1, i0 + 2), n - 1))
}

/// Sample indices `(i0, i1)` a landing pad flattens over `n` samples, from the rounded
/// positions of its edges.
pub fn pad_index_span(raw_i0: usize, raw_i1: usize, n: usize) -> (r: (usize, usize))
    requires
        n >= 2,
    ensures
        (r.0 as int, r.1 as int) == flat_span(raw_i0 as int, raw_i1 as int, n - 2, n as int),
        r.0 < r.1 < n,
{
    let lim = n - 2;
    let i0 = if raw_i0 < lim {
        raw_i0
    } else {
        lim
    };
    let lo = i0 + 2;
    let wide = if raw_i1 > lo {
        raw_i1
    } else {
        lo
    };
    let i1 = if wide < n - 1 {
        wide
    } else {
        n - 1
    };
    (i0, i1)
}

/// Sample indices `(i0, i1)` a volcano plateau flattens over `n` samples: as for a pad,
/// with the start bounded by `n - 2` (zero when `n < 2`).
pub fn volcano_index_span(raw_i0: usize, raw_i1: usize, n: usize) -> (r: (usize, usize))
    requires
        n >= 1,
    ensures
        (r.0 as int, r.1 as int) == flat_span(
            raw_i0 as int,
            raw_i1 as int,
            max_int(n - 2, 0),
            n as int,
        ),
        r.0 <= r.1 < n,
{
    let lim = if n >= 2 {
        n - 2
    } else {
        0
    };
    let i0 = if raw_i0 < lim {
        raw_i0
    } else {
        lim
    };
    let lo = i0 + 2;
    let wide = if raw_i1 > lo {
        raw_i1
    } else {
        lo
    };
    let i1 = if wide < n - 1 {
        wide
    } else {
        n - 1
    };
    (i0, i1)
}

/// Smoothing passes of a body's terrain profile: smooth gas giants and icy moons 3,
/// Titan 1, every other body 2.
pub open spec fn smoothing_passes(body: CelestialBody) -> u32 {
    match body {
        CelestialBody::Saturn | CelestialBody::Uranus | CelestialBody::Enceladus
        | CelestialBody::Europa => 3,
        CelestialBody::Titan => 1,
        _ => 2,
    }
}

/// Smoothing passes of a body's terrain profile (the profile's only integer field).
pub fn smoothing_passes_for(body: CelestialBody) -> (r: u32)
    ensures
        r == smoothing_passes(body),
{
    let rocky: u32 = 2;
    let gas: u32 = 3;
    match body {
        CelestialBody::Saturn | CelestialBody::Uranus => gas,
        CelestialBody::Enceladus | CelestialBody::Europa => gas,
        CelestialBody::Io => {
            if rocky > 2 {
                rocky
            } else {
                2
            }
        },
        CelestialBody::Titan => 1,
        _ => rocky,
    }
}

} // verus!
