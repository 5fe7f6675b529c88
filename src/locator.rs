//! Choosing the three stations nearest to a query point.
use vstd::prelude::*;
use crate::lexical::{compare_bytes, lemma_lex_irreflexive, lemma_lex_asymmetric, lemma_lex_total, lemma_lex_transitive, lex_lt};
use crate::met::{bytes_of, copy_station, text_bytes, EstimationError, Location, Station};

verus! {

pub open spec fn abs(x: int) -> int {
    if x < 0 {
        -x
    } else {
        x
    }
}

/// Squared differences of the absolute coordinates. No geodesic correction is
/// made: this is a ranking for a compact region, not a distance.
pub open spec fn pseudo_distance(s: Station, q: Location) -> int {
    let dl = abs(s.lat as int) - abs(q.lat as int);
    let dn = abs(s.lon as int) - abs(q.lon as int);
    dl * dl + dn * dn
}

pub open spec fn coords(s: Station) -> (i32, i32) {
    (s.lat, s.lon)
}

/// Station `i` of the catalog ranks before station `j`: nearer, or as near
/// with a smaller id, or with an equal id earlier in the catalog.
pub open spec fn precedes(catalog: Seq<Station>, q: Location, i: int, j: int) -> bool {
    let di = pseudo_distance(catalog[i], q);
    let dj = pseudo_distance(catalog[j], q);
    let a = text_bytes(catalog[i].id);
    let b = text_bytes(catalog[j].id);
    di < dj || (di == dj && (lex_lt(a, b) || (a == b && i < j)))
}

/// Station `j` exists and its coordinates are not among `picked`.
pub open spec fn eligible(catalog: Seq<Station>, picked: Seq<(i32, i32)>, j: int) -> bool {
    0 <= j < catalog.len() && !picked.contains(coords(catalog[j]))
}

pub open spec fn has_eligible(catalog: Seq<Station>, picked: Seq<(i32, i32)>) -> bool {
    exists|j: int| eligible(catalog, picked, j)
}

/// Station `k` is eligible and no eligible station ranks before it.
pub open spec fn is_nearest(catalog: Seq<Station>, q: Location, picked: Seq<(i32, i32)>, k: int) -> bool {
    &&& eligible(catalog, picked, k)
    &&& forall|j: int| eligible(catalog, picked, j) ==> !precedes(catalog, q, j, k)
}

pub open spec fn nearest(catalog: Seq<Station>, q: Location, picked: Seq<(i32, i32)>) -> int {
    choose|k: int| is_nearest(catalog, q, picked, k)
}

/// Catalog positions of the three chosen stations: each is the first in rank
/// among those whose coordinates differ from the ones chosen before.
pub open spec fn closest_indices(catalog: Seq<Station>, q: Location) -> Seq<int> {
    let k0 = nearest(catalog, q, seq![]);
    let k1 = nearest(catalog, q, seq![coords(catalog[k0])]);
    let k2 = nearest(catalog, q, seq![coords(catalog[k0]), coords(catalog[k1])]);
    seq![k0, k1, k2]
}

/// The catalog holds three stations with pairwise distinct coordinates.
pub open spec fn three_distinct(catalog: Seq<Station>) -> bool {
    exists|a: int, b: int, c: int|
        #![trigger catalog[a], catalog[b], catalog[c]]
        0 <= a < catalog.len() && 0 <= b < catalog.len() && 0 <= c < catalog.len() && coords(
            catalog[a],
        ) != coords(catalog[b]) && coords(catalog[a]) != coords(catalog[c]) && coords(catalog[b])
            != coords(catalog[c])
}

pub proof fn lemma_precedes_irreflexive(catalog: Seq<Station>, q: Location, i: int)
    ensures
        !precedes(catalog, q, i, i),
{
    lemma_lex_irreflexive(text_bytes(catalog[i].id));
}

pub proof fn lemma_precedes_transitive(catalog: Seq<Station>, q: Location, i: int, j: int, k: int)
    requires
        precedes(catalog, q, i, j),
        precedes(catalog, q, j, k),
    ensures
        precedes(catalog, q, i, k),
{
    let (a, b, c) = (text_bytes(catalog[i].id), text_bytes(catalog[j].id), text_bytes(catalog[k].id));
    if lex_lt(a, b) && lex_lt(b, c) {
        lemma_lex_transitive(a, b, c);
    }
}

pub proof fn lemma_precedes_total(catalog: Seq<Station>, q: Location, i: int, j: int)
    requires
        i != j,
    ensures
        precedes(catalog, q, i, j) || precedes(catalog, q, j, i),
{
    let (a, b) = (text_bytes(catalog[i].id), text_bytes(catalog[j].id));
    if a != b {
        lemma_lex_total(a, b);
    }
}

pub proof fn lemma_nearest_unique(catalog: Seq<Station>, q: Location, picked: Seq<(i32, i32)>, k: int)
    requires
        is_nearest(catalog, q, picked, k),
    ensures
        nearest(catalog, q, picked) == k,
{
    let m = nearest(catalog, q, picked);
    assert(is_nearest(catalog, q, picked, m));
    if m != k {
        lemma_precedes_total(catalog, q, m, k);
    }
}

/// A station that ranks first among the eligible ones below `n`.
proof fn first_below(catalog: Seq<Station>, q: Location, picked: Seq<(i32, i32)>, n: int) -> (k: int)
    requires
        n <= catalog.len(),
        exists|j: int| 0 <= j < n && eligible(catalog, picked, j),
    ensures
        0 <= k < n,
        eligible(catalog, picked, k),
        forall|j: int| 0 <= j < n && eligible(catalog, picked, j) ==> !precedes(catalog, q, j, k),
    decreases n,
{
    if !(exists|j: int| 0 <= j < n - 1 && eligible(catalog, picked, j)) {
        lemma_precedes_irreflexive(catalog, q, n - 1);
        n - 1
    } else {
        let k = first_below(catalog, q, picked, n - 1);
        if eligible(catalog, picked, n - 1) && precedes(catalog, q, n - 1, k) {
            assert forall|j: int| 0 <= j < n && eligible(catalog, picked, j) implies !precedes(
                catalog,
                q,
                j,
                n - 1,
            ) by {
                if j == n - 1 {
                    lemma_precedes_irreflexive(catalog, q, j);
                } else if precedes(catalog, q, j, n - 1) {
                    lemma_precedes_transitive(catalog, q, j, n - 1, k);
                }
            }
            n - 1
        } else {
            k
        }
    }
}

pub proof fn lemma_nearest_exists(catalog: Seq<Station>, q: Location, picked: Seq<(i32, i32)>)
    requires
        has_eligible(catalog, picked),
    ensures
        is_nearest(catalog, q, picked, nearest(catalog, q, picked)),
{
    let k = first_below(catalog, q, picked, catalog.len() as int);
    assert(is_nearest(catalog, q, picked, k));
}

proof fn lemma_two_picked_cover(catalog: Seq<Station>, picked: Seq<(i32, i32)>)
    requires
        picked.len() <= 2,
        !has_eligible(catalog, picked),
    ensures
        !three_distinct(catalog),
{
    if three_distinct(catalog) {
        let (a, b, c) = choose|a: int, b: int, c: int|
            #![trigger catalog[a], catalog[b], catalog[c]]
            0 <= a < catalog.len() && 0 <= b < catalog.len() && 0 <= c < catalog.len() && coords(
                catalog[a],
            ) != coords(catalog[b]) && coords(catalog[a]) != coords(catalog[c]) && coords(
                catalog[b],
            ) != coords(catalog[c]);
        assert(!eligible(catalog, picked, a));
        assert(!eligible(catalog, picked, b));
        assert(!eligible(catalog, picked, c));
        let ia = choose|i: int| 0 <= i < picked.len() && picked[i] == coords(catalog[a]);
        let ib = choose|i: int| 0 <= i < picked.len() && picked[i] == coords(catalog[b]);
        let ic = choose|i: int| 0 <= i < picked.len() && picked[i] == coords(catalog[c]);
        assert(false);
    }
}

proof fn lemma_short_picked_leaves_one(catalog: Seq<Station>, picked: Seq<(i32, i32)>)
    requires
        picked.len() <= 2,
        three_distinct(catalog),
    ensures
        has_eligible(catalog, picked),
{
    if !has_eligible(catalog, picked) {
        lemma_two_picked_cover(catalog, picked);
    }
}

/// The pseudo-distance of a station from `q`.
pub fn pseudo_distance_of(s: &Station, q: &Location) -> (r: u64)
    ensures
        r == pseudo_distance(*s, *q),
{
    let sl: i64 = if s.lat < 0 { -(s.lat as i64) } else { s.lat as i64 };
    let ql: i64 = if q.lat < 0 { -(q.lat as i64) } else { q.lat as i64 };
    let sn: i64 = if s.lon < 0 { -(s.lon as i64) } else { s.lon as i64 };
    let qn: i64 = if q.lon < 0 { -(q.lon as i64) } else { q.lon as i64 };
    let dl = sl - ql;
    let dn = sn - qn;
    proof {
        assert(dl * dl <= 0x4000000000000000) by (nonlinear_arith)
            requires
                -0x80000000 <= dl <= 0x80000000,
        ;
        assert(dn * dn <= 0x4000000000000000) by (nonlinear_arith)
            requires
                -0x80000000 <= dn <= 0x80000000,
        ;
        assert(0 <= dl * dl) by (nonlinear_arith);
        assert(0 <= dn * dn) by (nonlinear_arith);
    }
    (dl * dl) as u64 + (dn * dn) as u64
}

fn ranks_before(catalog: &Vec<Station>, q: &Location, i: usize, di: u64, j: usize, dj: u64) -> (r: bool)
    requires
        i < catalog@.len(),
        j < catalog@.len(),
        di == pseudo_distance(catalog@[i as int], *q),
        dj == pseudo_distance(catalog@[j as int], *q),
    ensures
        r == precedes(catalog@, *q, i as int, j as int),
{
    if di != dj {
        return di < dj;
    }
    let c = compare_bytes(bytes_of(&catalog[i].id), bytes_of(&catalog[j].id));
    proof {
        lemma_lex_asymmetric(text_bytes(catalog@[i as int].id), text_bytes(catalog@[j as int].id));
    }
    c < 0 || (c == 0 && i < j)
}

fn is_picked(picked: &Vec<(i32, i32)>, c: (i32, i32)) -> (r: bool)
    ensures
        r == picked@.contains(c),
{
    let mut i: usize = 0;
    while i < picked.len()
        invariant
            i <= picked@.len(),
            forall|k: int| 0 <= k < i ==> picked@[k] != c,
        decreases picked@.len() - i,
    {
        if picked[i].0 == c.0 && picked[i].1 == c.1 {
            assert(picked@[i as int] == c);
            return true;
        }
        i = i + 1;
    }
    false
}

/// The catalog position of the first-ranked station whose coordinates are not
/// among `picked`, if any.
fn nearest_eligible(catalog: &Vec<Station>, q: &Location, picked: &Vec<(i32, i32)>) -> (r: Option<usize>)
    ensures
        match r {
            Some(k) => is_nearest(catalog@, *q, picked@, k as int),
            None => !has_eligible(catalog@, picked@),
        },
{
    let mut best: Option<(usize, u64)> = None;
    let mut j: usize = 0;
    while j < catalog.len()
        invariant
            j <= catalog@.len(),
            match best {
                Some((b, db)) => {
                    &&& b < j
                    &&& db == pseudo_distance(catalog@[b as int], *q)
                    &&& eligible(catalog@, picked@, b as int)
                    &&& forall|k: int|
                        0 <= k < j && eligible(catalog@, picked@, k) ==> !precedes(
                            catalog@,
                            *q,
                            k,
                            b as int,
                        )
                },
                None => forall|k: int| 0 <= k < j ==> !eligible(catalog@, picked@, k),
            },
        decreases catalog@.len() - j,
    {
        let s = &catalog[j];
        if !is_picked(picked, (s.lat, s.lon)) {
            let dj = pseudo_distance_of(s, q);
            match best {
                None => {
                    proof {
                        lemma_precedes_irreflexive(catalog@, *q, j as int);
                    }
                    best = Some((j, dj));
                },
                Some((b, db)) => {
                    if ranks_before(catalog, q, j, dj, b, db) {
                        proof {
                            assert forall|k: int|
                                0 <= k < j + 1 && eligible(catalog@, picked@, k) implies !precedes(
                                catalog@,
                                *q,
                                k,
                                j as int,
                            ) by {
                                if k == j {
                                    lemma_precedes_irreflexive(catalog@, *q, k);
                                } else if precedes(catalog@, *q, k, j as int) {
                                    lemma_precedes_transitive(catalog@, *q, k, j as int, b as int);
                                }
                            }
                        }
                        best = Some((j, dj));
                    }
                },
            }
        }
        j = j + 1;
    }
    match best {
        Some((b, _)) => Some(b),
        None => None,
    }
}

/// The three stations nearest to `loc` by pseudo-distance, nearest first.
/// Stations sharing coordinates count once; ties go to the smaller id, then to
/// the earlier catalog entry. Fewer than three distinct coordinates give
/// `InsufficientStations`.
pub fn get_closest_stations_from_db(loc: &Location, stations: &Vec<Station>) -> (r: Result<
    [Station; 3],
    EstimationError,
>)
    ensures
        match r {
            Ok(v) => {
                &&& three_distinct(stations@)
                &&& v[0] == stations@[closest_indices(stations@, *loc)[0]]
                &&& v[1] == stations@[closest_indices(stations@, *loc)[1]]
                &&& v[2] == stations@[closest_indices(stations@, *loc)[2]]
            },
            Err(e) => !three_distinct(stations@) && e == EstimationError::InsufficientStations,
        },
{
    let ghost cat = stations@;
    let mut picked: Vec<(i32, i32)> = Vec::new();
    let k0 = match nearest_eligible(stations, loc, &picked) {
        Some(k) => k,
        None => {
            proof {
                lemma_two_picked_cover(cat, picked@);
            }
            return Err(EstimationError::InsufficientStations);
        },
    };
    proof {
        assert(picked@ =~= seq![]);
        lemma_nearest_unique(cat, *loc, seq![], k0 as int);
    }
    picked.push((stations[k0].lat, stations[k0].lon));
    let k1 = match nearest_eligible(stations, loc, &picked) {
        Some(k) => k,
        None => {
            proof {
                lemma_two_picked_cover(cat, picked@);
            }
            return Err(EstimationError::InsufficientStations);
        },
    };
    proof {
        assert(picked@ =~= seq![coords(cat[k0 as int])]);
        lemma_nearest_unique(cat, *loc, picked@, k1 as int);
    }
    picked.push((stations[k1].lat, stations[k1].lon));
    let k2 = match nearest_eligible(stations, loc, &picked) {
        Some(k) => k,
        None => {
            proof {
                lemma_two_picked_cover(cat, picked@);
            }
            return Err(EstimationError::InsufficientStations);
        },
    };
    proof {
        assert(picked@ =~= seq![coords(cat[k0 as int]), coords(cat[k1 as int])]);
        lemma_nearest_unique(cat, *loc, picked@, k2 as int);
        assert(picked@.contains(coords(cat[k0 as int])) ) by { assert(picked@[0] == coords(cat[k0 as int])); }
        assert(picked@.contains(coords(cat[k1 as int])) ) by { assert(picked@[1] == coords(cat[k1 as int])); }
        assert(seq![coords(cat[k0 as int])].contains(coords(cat[k0 as int])) ) by {
            assert(seq![coords(cat[k0 as int])][0] == coords(cat[k0 as int]));
        }
        assert(coords(cat[k0 as int]) != coords(cat[k1 as int]));
        assert(coords(cat[k0 as int]) != coords(cat[k2 as int]));
        assert(coords(cat[k1 as int]) != coords(cat[k2 as int]));
        assert(three_distinct(cat)) by {
            let (a, b, c) = (k0 as int, k1 as int, k2 as int);
            assert(cat[a] == cat[a] && cat[b] == cat[b] && cat[c] == cat[c]);
        }
    }
    Ok([copy_station(&stations[k0]), copy_station(&stations[k1]), copy_station(&stations[k2])])
}

/// Whenever the catalog holds three distinct coordinates, the three chosen
/// stations have pairwise distinct coordinates and come in ascending rank: by
/// pseudo-distance, then by id, then by catalog position.
pub proof fn lemma_closest_ascending(catalog: Seq<Station>, q: Location)
    requires
        three_distinct(catalog),
    ensures
        ({
            let k = closest_indices(catalog, q);
            &&& 0 <= k[0] < catalog.len() && 0 <= k[1] < catalog.len() && 0 <= k[2] < catalog.len()
            &&& coords(catalog[k[0]]) != coords(catalog[k[1]])
            &&& coords(catalog[k[0]]) != coords(catalog[k[2]])
            &&& coords(catalog[k[1]]) != coords(catalog[k[2]])
            &&& pseudo_distance(catalog[k[0]], q) <= pseudo_distance(catalog[k[1]], q)
            &&& pseudo_distance(catalog[k[1]], q) <= pseudo_distance(catalog[k[2]], q)
            &&& precedes(catalog, q, k[0], k[1])
            &&& precedes(catalog, q, k[1], k[2])
        }),
{
    let p0: Seq<(i32, i32)> = seq![];
    lemma_short_picked_leaves_one(catalog, p0);
    lemma_nearest_exists(catalog, q, p0);
    let k0 = nearest(catalog, q, p0);
    let p1 = seq![coords(catalog[k0])];
    lemma_short_picked_leaves_one(catalog, p1);
    lemma_nearest_exists(catalog, q, p1);
    let k1 = nearest(catalog, q, p1);
    let p2 = seq![coords(catalog[k0]), coords(catalog[k1])];
    lemma_short_picked_leaves_one(catalog, p2);
    lemma_nearest_exists(catalog, q, p2);
    let k2 = nearest(catalog, q, p2);
    assert(p1[0] == coords(catalog[k0]));
    assert(p2[0] == coords(catalog[k0]));
    assert(p2[1] == coords(catalog[k1]));
    assert(p1.contains(coords(catalog[k0])));
    assert(p2.contains(coords(catalog[k0])));
    assert(p2.contains(coords(catalog[k1])));
    assert(!p0.contains(coords(catalog[k1])));
    assert(eligible(catalog, p0, k1 as int));
    assert(!precedes(catalog, q, k1, k0));
    assert(!p1.contains(coords(catalog[k2]))) by {
        if p1.contains(coords(catalog[k2])) {
            let i = choose|i: int| 0 <= i < p1.len() && p1[i] == coords(catalog[k2]);
            assert(i == 0);
        }
    }
    assert(eligible(catalog, p1, k2 as int));
    assert(!precedes(catalog, q, k2, k1));
    lemma_precedes_total(catalog, q, k0, k1);
    lemma_precedes_total(catalog, q, k1, k2);
}

} // verus!
