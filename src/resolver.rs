//! Choosing each station's freshest complete observation.
use vstd::prelude::*;
use crate::lexical::{compare_bytes, lemma_lex_asymmetric, lemma_lex_total, lemma_lex_transitive, lex_lt};
use crate::met::{bytes_of, copy_observation, is_complete, text_bytes, EstimationError, Observation, Station};

verus! {

/// The timestamp of an observation, as bytes.
pub open spec fn time_of(o: Observation) -> Seq<u8> {
    text_bytes(o.observation_time)
}

/// Observation `j` of the history is complete and belongs to station `id`.
pub open spec fn is_candidate(history: Seq<Observation>, id: Seq<u8>, j: int) -> bool {
    &&& 0 <= j < history.len()
    &&& is_complete(history[j])
    &&& text_bytes(history[j].station_id) == id
}

pub open spec fn has_candidate(history: Seq<Observation>, id: Seq<u8>) -> bool {
    exists|j: int| is_candidate(history, id, j)
}

/// Observation `k` is a candidate with the greatest timestamp, and the first
/// in the history among candidates with that timestamp.
pub open spec fn is_freshest(history: Seq<Observation>, id: Seq<u8>, k: int) -> bool {
    &&& is_candidate(history, id, k)
    &&& forall|j: int|
        #![trigger is_candidate(history, id, j)]
        is_candidate(history, id, j) ==> (j < k ==> lex_lt(time_of(history[j]), time_of(history[k])))
            && (k < j ==> !lex_lt(time_of(history[k]), time_of(history[j])))
}

pub open spec fn freshest(history: Seq<Observation>, id: Seq<u8>) -> int {
    choose|k: int| is_freshest(history, id, k)
}

pub proof fn lemma_freshest_unique(history: Seq<Observation>, id: Seq<u8>, k: int)
    requires
        is_freshest(history, id, k),
    ensures
        freshest(history, id) == k,
{
    let m = freshest(history, id);
    assert(is_freshest(history, id, m));
    assert(is_candidate(history, id, k) && is_candidate(history, id, m));
}

/// The history position of station `id`'s freshest complete observation, or
/// `NoObservation` where the station has no complete observation.
pub fn latest_observation(id: &String, history: &Vec<Observation>) -> (r: Result<usize, EstimationError>)
    ensures
        match r {
            Ok(k) => {
                &&& is_freshest(history@, text_bytes(*id), k as int)
                &&& freshest(history@, text_bytes(*id)) == k
            },
            Err(e) => !has_candidate(history@, text_bytes(*id)) && e == EstimationError::NoObservation,
        },
{
    let ghost key = text_bytes(*id);
    let ghost h = history@;
    let mut best: Option<usize> = None;
    let mut i: usize = 0;
    while i < history.len()
        invariant
            i <= h.len(),
            h == history@,
            key == text_bytes(*id),
            match best {
                Some(b) => {
                    &&& b < i
                    &&& is_candidate(h, key, b as int)
                    &&& forall|j: int|
                        #![trigger is_candidate(h, key, j)]
                        0 <= j < i && is_candidate(h, key, j) ==> (j < b ==> lex_lt(
                            time_of(h[j]),
                            time_of(h[b as int]),
                        )) && (b < j ==> !lex_lt(time_of(h[b as int]), time_of(h[j])))
                },
                None => forall|j: int| 0 <= j < i ==> !is_candidate(h, key, j),
            },
        decreases h.len() - i,
    {
        let o = &history[i];
        let complete = o.aerial_temperature.is_some() && o.relative_humidity.is_some();
        if complete && compare_bytes(bytes_of(&o.station_id), bytes_of(id)) == 0 {
            match best {
                None => {
                    best = Some(i);
                },
                Some(b) => {
                    let c = compare_bytes(
                        bytes_of(&history[b].observation_time),
                        bytes_of(&o.observation_time),
                    );
                    if c < 0 {
                        proof {
                            let tb = time_of(h[b as int]);
                            let ti = time_of(h[i as int]);
                            assert forall|j: int|
                                #![trigger is_candidate(h, key, j)]
                                0 <= j < i + 1 && is_candidate(h, key, j) implies (j < i ==> lex_lt(
                                time_of(h[j]),
                                ti,
                            )) by {
                                let tj = time_of(h[j]);
                                if j < b {
                                    lemma_lex_transitive(tj, tb, ti);
                                } else if b < j && j < i {
                                    if tj != tb {
                                        lemma_lex_total(tj, tb);
                                        lemma_lex_transitive(tj, tb, ti);
                                    }
                                }
                            }
                        }
                        best = Some(i);
                    }
                },
            }
        }
        i = i + 1;
    }
    match best {
        Some(b) => {
            proof {
                lemma_freshest_unique(h, key, b as int);
            }
            Ok(b)
        },
        None => Err(EstimationError::NoObservation),
    }
}

/// The freshest observation is complete, belongs to its station, and no
/// complete observation of that station carries a later timestamp.
pub proof fn lemma_freshest_is_latest(history: Seq<Observation>, id: Seq<u8>, k: int)
    requires
        is_freshest(history, id, k),
    ensures
        is_complete(history[k]),
        text_bytes(history[k].station_id) == id,
        forall|j: int|
            #![trigger is_candidate(history, id, j)]
            is_candidate(history, id, j) ==> !lex_lt(time_of(history[k]), time_of(history[j])),
{
    assert forall|j: int|
        #![trigger is_candidate(history, id, j)]
        is_candidate(history, id, j) implies !lex_lt(time_of(history[k]), time_of(history[j])) by {
        lemma_lex_asymmetric(time_of(history[k]), time_of(history[j]));
        if j == k {
            crate::lexical::lemma_lex_irreflexive(time_of(history[k]));
        }
    }
}

/// Every one of the three stations has a complete observation in the history.
pub open spec fn all_resolvable(stations: [Station; 3], history: Seq<Observation>) -> bool {
    &&& has_candidate(history, text_bytes(stations[0].id))
    &&& has_candidate(history, text_bytes(stations[1].id))
    &&& has_candidate(history, text_bytes(stations[2].id))
}

/// The freshest complete observation of station `s`.
pub open spec fn resolved(s: Station, history: Seq<Observation>) -> Observation {
    history[freshest(history, text_bytes(s.id))]
}

/// For each of the three stations, in order, its freshest complete
/// observation. Where any station has none, `IncompleteObservationSet`.
pub fn get_latest_observations(stations: &[Station; 3], history: &Vec<Observation>) -> (r: Result<
    [Observation; 3],
    EstimationError,
>)
    ensures
        match r {
            Ok(v) => {
                &&& all_resolvable(*stations, history@)
                &&& v[0] == resolved(stations[0], history@)
                &&& v[1] == resolved(stations[1], history@)
                &&& v[2] == resolved(stations[2], history@)
                &&& is_freshest(history@, text_bytes(stations[0].id), freshest(history@, text_bytes(stations[0].id)))
                &&& is_freshest(history@, text_bytes(stations[1].id), freshest(history@, text_bytes(stations[1].id)))
                &&& is_freshest(history@, text_bytes(stations[2].id), freshest(history@, text_bytes(stations[2].id)))
            },
            Err(e) => !all_resolvable(*stations, history@) && e
                == EstimationError::IncompleteObservationSet,
        },
{
    let a = match latest_observation(&stations[0].id, history) {
        Ok(k) => k,
        Err(_) => return Err(EstimationError::IncompleteObservationSet),
    };
    let b = match latest_observation(&stations[1].id, history) {
        Ok(k) => k,
        Err(_) => return Err(EstimationError::IncompleteObservationSet),
    };
    let c = match latest_observation(&stations[2].id, history) {
        Ok(k) => k,
        Err(_) => return Err(EstimationError::IncompleteObservationSet),
    };
    Ok([copy_observation(&history[a]), copy_observation(&history[b]), copy_observation(&history[c])])
}

} // verus!
