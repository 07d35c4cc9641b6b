//! What a cutover keeps to, whatever the log, the gaps and the candidates are.

use vstd::prelude::*;
use vstd::string::*;

use super::cutover::{
    BridgeGap, CredentialChange, CutoverApiVersion, CutoverFixture, CutoverPhase,
    CutoverReadinessReport, CutoverState, Progress, TransitionView, UnitCandidate,
};
use super::error::{PersistenceErrorView, StorageErrorView};
use super::identity::BridgeCandidate;

verus! {

/// The gaps at or before a position that name a unit or nobody are counted, each once.
pub proof fn gaps_are_counted_once(gaps: Seq<BridgeGap>, unit: Seq<char>, fence: u64)
    ensures
        ({
            let open = Set::new(
                |i: int|
                    0 <= i < gaps.len() && gaps[i].append_seq <= fence && (
                    gaps[i].source_instance_id is None || gaps[i].source_instance_id->0@ == unit),
            );
            &&& open.finite()
            &&& super::cutover::gaps_up_to(gaps, unit, fence) == open.len()
        }),
        super::cutover::gaps_up_to(gaps, unit, fence) == 0 <==> forall|i: int|
            0 <= i < gaps.len() && (#[trigger] gaps[i]).append_seq <= fence
                ==> gaps[i].source_instance_id is Some && gaps[i].source_instance_id->0@ != unit,
    decreases gaps.len(),
{
    let open = Set::new(
        |i: int|
            0 <= i < gaps.len() && gaps[i].append_seq <= fence && (gaps[i].source_instance_id
                is None || gaps[i].source_instance_id->0@ == unit),
    );
    if gaps.len() == 0 {
        assert(open =~= Set::empty());
    } else {
        let init = gaps.drop_last();
        let before = Set::new(
            |i: int|
                0 <= i < init.len() && init[i].append_seq <= fence && (init[i].source_instance_id
                    is None || init[i].source_instance_id->0@ == unit),
        );
        gaps_are_counted_once(init, unit, fence);
        assert forall|i: int| before.contains(i) implies open.contains(i) by {
            assert(init[i] == gaps[i]);
        }
        assert forall|i: int| open.contains(i) && i < gaps.len() - 1 implies before.contains(i) by {
            assert(init[i] == gaps[i]);
        }
        let last = gaps.len() - 1;
        if open.contains(last) {
            assert(open =~= before.insert(last));
            assert(!before.contains(last));
            assert(gaps[last].append_seq <= fence);
        } else {
            assert(open =~= before);
        }
        if super::cutover::gaps_up_to(gaps, unit, fence) == 0 {
            assert forall|i: int|
                0 <= i < gaps.len() && (#[trigger] gaps[i]).append_seq <= fence implies
                gaps[i].source_instance_id is Some && gaps[i].source_instance_id->0@ != unit by {
                if i < last {
                    assert(init[i] == gaps[i]);
                }
            }
        } else if forall|i: int|
            0 <= i < gaps.len() && (#[trigger] gaps[i]).append_seq <= fence
                ==> gaps[i].source_instance_id is Some && gaps[i].source_instance_id->0@ != unit {
            assert forall|i: int|
                0 <= i < init.len() && (#[trigger] init[i]).append_seq <= fence implies
                init[i].source_instance_id is Some && init[i].source_instance_id->0@ != unit by {
                assert(init[i] == gaps[i]);
            }
            assert(gaps[last] == gaps.last());
        }
    }
}

/// The first candidate with the identity of another one.
proof fn first_of_its_identity(candidates: Seq<UnitCandidate>, i: int) -> (first: int)
    requires
        0 <= i < candidates.len(),
    ensures
        0 <= first <= i,
        candidates[first].v2_identity_key@ == candidates[i].v2_identity_key@,
        forall|j: int|
            0 <= j < first ==> (#[trigger] candidates[j]).v2_identity_key@
                != candidates[first].v2_identity_key@,
    decreases i,
{
    if exists|j: int|
        0 <= j < i && (#[trigger] candidates[j]).v2_identity_key@
            == candidates[i].v2_identity_key@ {
        let j = choose|j: int|
            0 <= j < i && (#[trigger] candidates[j]).v2_identity_key@
                == candidates[i].v2_identity_key@;
        first_of_its_identity(candidates, j)
    } else {
        i
    }
}

/// The identities of which several candidates are known, up to a place.
spec fn opened(candidates: Seq<UnitCandidate>, n: nat) -> Set<Seq<char>> {
    Set::new(
        |key: Seq<char>|
            exists|i: int|
                0 <= i < n && super::cutover::opens_group(candidates, i) && (
                #[trigger] candidates[i]).v2_identity_key@ == key,
    )
}

/// The identities of which candidates with other content are known, up to a place.
spec fn collided(candidates: Seq<UnitCandidate>, n: nat) -> Set<Seq<char>> {
    Set::new(
        |key: Seq<char>|
            exists|i: int|
                0 <= i < n && super::cutover::opens_collision(candidates, i) && (
                #[trigger] candidates[i]).v2_identity_key@ == key,
    )
}

proof fn groups_are_opened(candidates: Seq<UnitCandidate>, n: nat)
    requires
        n <= candidates.len(),
    ensures
        opened(candidates, n).finite(),
        opened(candidates, n).len() == super::cutover::groups(candidates, n),
        collided(candidates, n).finite(),
        collided(candidates, n).len() == super::cutover::collisions(candidates, n),
    decreases n,
{
    if n == 0 {
        assert(opened(candidates, n) =~= Set::empty());
        assert(collided(candidates, n) =~= Set::empty());
    } else {
        let m = (n - 1) as nat;
        groups_are_opened(candidates, m);
        let key = candidates[n - 1].v2_identity_key@;
        if super::cutover::opens_group(candidates, n - 1) {
            assert(opened(candidates, n) =~= opened(candidates, m).insert(key)) by {
                assert forall|k: Seq<char>| opened(candidates, n).contains(k) implies opened(
                    candidates,
                    m,
                ).insert(key).contains(k) by {
                    let i = choose|i: int|
                        0 <= i < n && super::cutover::opens_group(candidates, i) && (
                        #[trigger] candidates[i]).v2_identity_key@ == k;
                    assert(candidates[i].v2_identity_key@ == k);
                }
            }
            assert(!opened(candidates, m).contains(key));
        } else {
            assert(opened(candidates, n) =~= opened(candidates, m)) by {
                assert forall|k: Seq<char>| opened(candidates, n).contains(k) implies opened(
                    candidates,
                    m,
                ).contains(k) by {
                    let i = choose|i: int|
                        0 <= i < n && super::cutover::opens_group(candidates, i) && (
                        #[trigger] candidates[i]).v2_identity_key@ == k;
                    assert(candidates[i].v2_identity_key@ == k);
                }
            }
        }
        if super::cutover::opens_collision(candidates, n - 1) {
            assert(collided(candidates, n) =~= collided(candidates, m).insert(key)) by {
                assert forall|k: Seq<char>| collided(candidates, n).contains(k) implies collided(
                    candidates,
                    m,
                ).insert(key).contains(k) by {
                    let i = choose|i: int|
                        0 <= i < n && super::cutover::opens_collision(candidates, i) && (
                        #[trigger] candidates[i]).v2_identity_key@ == k;
                    assert(candidates[i].v2_identity_key@ == k);
                }
            }
            assert(!collided(candidates, m).contains(key));
        } else {
            assert(collided(candidates, n) =~= collided(candidates, m)) by {
                assert forall|k: Seq<char>| collided(candidates, n).contains(k) implies collided(
                    candidates,
                    m,
                ).contains(k) by {
                    let i = choose|i: int|
                        0 <= i < n && super::cutover::opens_collision(candidates, i) && (
                        #[trigger] candidates[i]).v2_identity_key@ == k;
                    assert(candidates[i].v2_identity_key@ == k);
                }
            }
        }
    }
}

/// Identities are counted that two candidates have, and of these the ones with other content; each
/// is counted once.
pub proof fn identities_are_counted_once(candidates: Seq<UnitCandidate>)
    ensures
        ({
            let repeated = Set::new(
                |key: Seq<char>|
                    exists|i: int, j: int|
                        0 <= i < j < candidates.len() && (#[trigger] candidates[i]).v2_identity_key@
                            == key && (#[trigger] candidates[j]).v2_identity_key@ == key,
            );
            let contradicted = Set::new(
                |key: Seq<char>|
                    exists|i: int, j: int|
                        0 <= i < j < candidates.len() && (#[trigger] candidates[i]).v2_identity_key@
                            == key && (#[trigger] candidates[j]).v2_identity_key@ == key
                            && candidates[i].canonical_json@ != candidates[j].canonical_json@,
            );
            &&& repeated.finite() && contradicted.finite()
            &&& super::cutover::groups(candidates, candidates.len()) == repeated.len()
            &&& super::cutover::collisions(candidates, candidates.len()) == contradicted.len()
        }),
        super::cutover::collisions(candidates, candidates.len()) == 0 <==> forall|i: int, j: int|
            0 <= i < j < candidates.len() && (#[trigger] candidates[i]).v2_identity_key@ == (
            #[trigger] candidates[j]).v2_identity_key@ ==> candidates[i].canonical_json@
                == candidates[j].canonical_json@,
{
    let n = candidates.len();
    groups_are_opened(candidates, n);
    let repeated = Set::new(
        |key: Seq<char>|
            exists|i: int, j: int|
                0 <= i < j < candidates.len() && (#[trigger] candidates[i]).v2_identity_key@ == key
                    && (#[trigger] candidates[j]).v2_identity_key@ == key,
    );
    let contradicted = Set::new(
        |key: Seq<char>|
            exists|i: int, j: int|
                0 <= i < j < candidates.len() && (#[trigger] candidates[i]).v2_identity_key@ == key
                    && (#[trigger] candidates[j]).v2_identity_key@ == key
                    && candidates[i].canonical_json@ != candidates[j].canonical_json@,
    );
    assert forall|key: Seq<char>| repeated.contains(key) implies opened(candidates, n).contains(
        key,
    ) by {
        let (i, j) = choose|i: int, j: int|
            0 <= i < j < candidates.len() && (#[trigger] candidates[i]).v2_identity_key@ == key && (
            #[trigger] candidates[j]).v2_identity_key@ == key;
        let first = first_of_its_identity(candidates, i);
        assert(candidates[j].v2_identity_key@ == candidates[first].v2_identity_key@);
        assert(super::cutover::opens_group(candidates, first));
        assert(candidates[first].v2_identity_key@ == key);
    }
    assert forall|key: Seq<char>| opened(candidates, n).contains(key) implies repeated.contains(
        key,
    ) by {
        let i = choose|i: int|
            0 <= i < n && super::cutover::opens_group(candidates, i) && (
            #[trigger] candidates[i]).v2_identity_key@ == key;
        let j = choose|j: int|
            i < j < candidates.len() && (#[trigger] candidates[j]).v2_identity_key@
                == candidates[i].v2_identity_key@;
        assert(candidates[i].v2_identity_key@ == key && candidates[j].v2_identity_key@ == key);
    }
    assert(repeated =~= opened(candidates, n));
    assert forall|key: Seq<char>| contradicted.contains(key) implies collided(
        candidates,
        n,
    ).contains(key) by {
        let (i, j) = choose|i: int, j: int|
            0 <= i < j < candidates.len() && (#[trigger] candidates[i]).v2_identity_key@ == key && (
            #[trigger] candidates[j]).v2_identity_key@ == key && candidates[i].canonical_json@
                != candidates[j].canonical_json@;
        let first = first_of_its_identity(candidates, i);
        let other = if candidates[j].canonical_json@ != candidates[first].canonical_json@ {
            j
        } else {
            i
        };
        assert(candidates[other].v2_identity_key@ == candidates[first].v2_identity_key@);
        assert(super::cutover::opens_collision(candidates, first));
        assert(candidates[first].v2_identity_key@ == key);
    }
    assert forall|key: Seq<char>| collided(candidates, n).contains(
        key,
    ) implies contradicted.contains(key) by {
        let i = choose|i: int|
            0 <= i < n && super::cutover::opens_collision(candidates, i) && (
            #[trigger] candidates[i]).v2_identity_key@ == key;
        let j = choose|j: int|
            i < j < candidates.len() && (#[trigger] candidates[j]).v2_identity_key@
                == candidates[i].v2_identity_key@ && candidates[j].canonical_json@
                != candidates[i].canonical_json@;
        assert(candidates[i].v2_identity_key@ == key && candidates[j].v2_identity_key@ == key);
    }
    assert(contradicted =~= collided(candidates, n));
    if super::cutover::collisions(candidates, n) == 0 {
        assert(contradicted =~= Set::empty());
        assert forall|i: int, j: int|
            0 <= i < j < candidates.len() && (#[trigger] candidates[i]).v2_identity_key@ == (
            #[trigger] candidates[j]).v2_identity_key@ implies candidates[i].canonical_json@
            == candidates[j].canonical_json@ by {
            assert(!contradicted.contains(candidates[i].v2_identity_key@));
        }
    } else {
        let key = contradicted.choose();
        assert(contradicted.contains(key));
    }
}

/// A unit is reported ready just where it is being drained, the bridge has come up to its fence, no
/// gap at or before the fence is the unit's or nobody's, no two candidates of one identity differ,
/// and a retry of the fixture, whose identity is the one that its content gives, leads to the
/// observation that it should.
pub proof fn ready_units_leave_nothing_behind(
    r: CutoverReadinessReport,
    state: CutoverState,
    watermark: u64,
    gaps: Seq<BridgeGap>,
    candidates: Seq<UnitCandidate>,
    fixture: Option<CutoverFixture>,
    fixture_is_json: bool,
    fixture_candidates: Seq<BridgeCandidate>,
)
    requires
        super::cutover::reports(
            r,
            state,
            watermark,
            gaps,
            candidates,
            fixture,
            fixture_is_json,
            fixture_candidates,
        ),
    ensures
        r.ready <==> {
            &&& state.phase == CutoverPhase::Draining
            &&& state.fence_append_seq is Some
            &&& watermark >= state.fence_append_seq->0
            &&& forall|i: int|
                0 <= i < gaps.len() && (#[trigger] gaps[i]).append_seq <= state.fence_append_seq->0
                    ==> gaps[i].source_instance_id is Some && gaps[i].source_instance_id->0@
                    != state.source_instance_id@
            &&& forall|i: int, j: int|
                0 <= i < j < candidates.len() && (#[trigger] candidates[i]).v2_identity_key@ == (
                #[trigger] candidates[j]).v2_identity_key@ ==> candidates[i].canonical_json@
                    == candidates[j].canonical_json@
            &&& fixture is Some
            &&& fixture_is_json
            &&& fixture->0.expected_identity_key@ == super::identity::bridge_key(
                state.source_instance_id@,
                fixture->0.object_id@,
                fixture->0.canonical_json@,
            )
            &&& fixture_candidates.len() > 0
            &&& forall|i: int|
                0 <= i < fixture_candidates.len() ==> (
                #[trigger] fixture_candidates[i]).canonical_json@ == fixture->0.canonical_json@
            &&& fixture->0.expected_observation_id is Some
                ==> fixture->0.expected_observation_id->0@ == fixture_candidates[0].observation_id@
        },
        r.ready <==> r.blockers@.len() == 0,
{
    assert(r.blockers@.len() == super::cutover::blocker_views(r.blockers@).len());
    let fence = super::cutover::fence_of(state);
    gaps_are_counted_once(gaps, state.source_instance_id@, fence);
    identities_are_counted_once(candidates);
    if fixture is Some {
        super::identity::collisions_exist(fixture_candidates, fixture->0.canonical_json@);
    }
}

/// What a report counts is there: the gaps up to the fence that are the unit's or nobody's, the
/// candidates, and the distance of the bridge from the fence.
pub proof fn reports_count_what_is_there(
    r: CutoverReadinessReport,
    state: CutoverState,
    watermark: u64,
    gaps: Seq<BridgeGap>,
    candidates: Seq<UnitCandidate>,
    fixture: Option<CutoverFixture>,
    fixture_is_json: bool,
    fixture_candidates: Seq<BridgeCandidate>,
)
    requires
        super::cutover::reports(
            r,
            state,
            watermark,
            gaps,
            candidates,
            fixture,
            fixture_is_json,
            fixture_candidates,
        ),
    ensures
        r.state == state,
        r.bridge_watermark == watermark,
        state.fence_append_seq matches Some(fence) ==> {
            &&& r.watermark_covered == (watermark >= fence)
            &&& watermark <= fence ==> r.bridge_lag + watermark == fence
            &&& watermark > fence ==> r.bridge_lag == 0
            &&& r.unresolved_gap_count == Set::new(
                |i: int|
                    0 <= i < gaps.len() && gaps[i].append_seq <= fence && (
                    gaps[i].source_instance_id is None || gaps[i].source_instance_id->0@
                        == state.source_instance_id@),
            ).len()
        },
        state.fence_append_seq is None ==> !r.watermark_covered && r.bridge_lag == 0,
        r.candidate_count == candidates.len(),
        r.exact_compare_error_count == r.collision_count,
        r.collision_count <= r.multiplicity_count,
        r.dry_run_passed ==> r.fixture_identity_stable,
        r.blockers@.len() == (if r.watermark_covered {
            0int
        } else {
            1
        }) + (if r.unresolved_gap_count == 0 {
            0int
        } else {
            1
        }) + (if r.collision_count == 0 {
            0int
        } else {
            1
        }) + (if r.dry_run_passed {
            0int
        } else {
            1
        }) + (if state.phase == CutoverPhase::Draining {
            0int
        } else {
            1
        }),
        r.unresolved_gap_count > 0 ==> exists|k: int|
            0 <= k < r.blockers@.len() && (#[trigger] r.blockers@[k]).reason@
                == crate::text::decimal(r.unresolved_gap_count as nat)
                + " unresolved identity derivation gap(s)"@,
        r.collision_count > 0 ==> exists|k: int|
            0 <= k < r.blockers@.len() && (#[trigger] r.blockers@[k]).reason@
                == crate::text::decimal(r.collision_count as nat)
                + " canonical exact-compare collision group(s)"@,
{
    let unit = state.source_instance_id@;
    let until = super::cutover::fence_of(state);
    gaps_are_counted_once(gaps, unit, until);
    if state.fence_append_seq is Some {
        let fence = state.fence_append_seq->0;
        assert(Set::new(
            |i: int|
                0 <= i < gaps.len() && gaps[i].append_seq <= until && (gaps[i].source_instance_id
                    is None || gaps[i].source_instance_id->0@ == unit),
        ) =~= Set::new(
            |i: int|
                0 <= i < gaps.len() && gaps[i].append_seq <= fence && (gaps[i].source_instance_id
                    is None || gaps[i].source_instance_id->0@ == state.source_instance_id@),
        ));
    }
    identities_are_counted_once(candidates);
    let repeated = Set::new(
        |key: Seq<char>|
            exists|i: int, j: int|
                0 <= i < j < candidates.len() && (#[trigger] candidates[i]).v2_identity_key@ == key
                    && (#[trigger] candidates[j]).v2_identity_key@ == key,
    );
    let contradicted = Set::new(
        |key: Seq<char>|
            exists|i: int, j: int|
                0 <= i < j < candidates.len() && (#[trigger] candidates[i]).v2_identity_key@ == key
                    && (#[trigger] candidates[j]).v2_identity_key@ == key
                    && candidates[i].canonical_json@ != candidates[j].canonical_json@,
    );
    assert forall|key: Seq<char>| contradicted.contains(key) implies repeated.contains(key) by {
        let (i, j) = choose|i: int, j: int|
            0 <= i < j < candidates.len() && (#[trigger] candidates[i]).v2_identity_key@ == key && (
            #[trigger] candidates[j]).v2_identity_key@ == key && candidates[i].canonical_json@
                != candidates[j].canonical_json@;
        assert(candidates[i].v2_identity_key@ == key && candidates[j].v2_identity_key@ == key);
    }
    vstd::set_lib::lemma_len_subset(contradicted, repeated);
    let shown = super::cutover::blocker_views(r.blockers@);
    assert(r.blockers@.len() == shown.len());
    let at: int = if r.watermark_covered {
        0
    } else {
        1
    };
    if r.unresolved_gap_count > 0 {
        assert(shown[at] == r.blockers@[at]@);
    }
    if r.collision_count > 0 {
        let next: int = if r.unresolved_gap_count > 0 {
            at + 1
        } else {
            at
        };
        assert(shown[next] == r.blockers@[next]@);
    }
}

/// The log of a unit leads along one way: from the first version to draining, from there to the
/// second version or back, and to a final second version; the generation grows by one whenever a
/// version starts anew, and stays otherwise. A fence and a first position stay until others are
/// recorded.
pub proof fn logs_lead_one_way(
    unit: Seq<char>,
    rows: Seq<TransitionView>,
    row: TransitionView,
    before: Progress,
    after: Progress,
)
    requires
        super::cutover::folded(unit, rows) == Ok::<Option<Progress>, PersistenceErrorView>(
            Some(before),
        ),
        super::cutover::folded(unit, rows.push(row)) == Ok::<
            Option<Progress>,
            PersistenceErrorView,
        >(Some(after)),
    ensures
        before.phase == CutoverPhase::V1Active ==> after.phase == CutoverPhase::Draining,
        before.phase == CutoverPhase::Draining ==> after.phase == CutoverPhase::V2Active
            || after.phase == CutoverPhase::V1Active,
        before.phase == CutoverPhase::V2Active ==> after.phase == CutoverPhase::V2Committed
            || after.phase == CutoverPhase::V1Active,
        before.phase != CutoverPhase::V2Committed,
        after.phase == CutoverPhase::Draining || after.phase == CutoverPhase::V2Committed
            ==> after.generation == before.generation,
        after.phase == CutoverPhase::V1Active || after.phase == CutoverPhase::V2Active
            ==> before.generation < u64::MAX ==> after.generation == before.generation + 1,
        after.generation == row.generation,
        row.fence is Some ==> after.fence == row.fence,
        row.fence is None ==> after.fence == before.fence,
        row.first is Some ==> after.first == row.first,
        row.first is None ==> after.first == before.first,
        after.phase == CutoverPhase::V2Committed ==> after.first is Some,
        (row.to_phase == "v1_active"@) == (after.phase == CutoverPhase::V1Active),
        (row.to_phase == "draining"@) == (after.phase == CutoverPhase::Draining),
        (row.to_phase == "v2_active"@) == (after.phase == CutoverPhase::V2Active),
        (row.to_phase == "v2_committed"@) == (after.phase == CutoverPhase::V2Committed),
        (row.from_phase == "v1_active"@) == (before.phase == CutoverPhase::V1Active),
        (row.from_phase == "draining"@) == (before.phase == CutoverPhase::Draining),
        (row.from_phase == "v2_active"@) == (before.phase == CutoverPhase::V2Active),
{
    assert(rows.push(row).drop_last() =~= rows);
    names_differ();
}

/// The names of the phases are four.
proof fn names_differ()
    ensures
        "v1_active"@ != "v2_active"@,
        "v1_active"@ != "draining"@,
        "v1_active"@ != "v2_committed"@,
        "v2_active"@ != "draining"@,
        "v2_active"@ != "v2_committed"@,
        "draining"@ != "v2_committed"@,
{
    reveal_strlit("v1_active");
    reveal_strlit("draining");
    reveal_strlit("v2_active");
    reveal_strlit("v2_committed");
    assert("v1_active"@[1] == '1' && "v2_active"@[1] == '2');
    assert("v1_active"@.len() == 9 && "v2_active"@.len() == 9 && "draining"@.len() == 8
        && "v2_committed"@.len() == 12);
}

/// A unit can be drained just where the first version is active and somebody answers for it; the
/// fence is set at the tail, nothing is admitted any more, and the generation stays.
pub proof fn draining_closes_the_first_version(
    state: CutoverState,
    tail: u64,
    authority: Seq<char>,
    reason: Seq<char>,
)
    ensures
        super::cutover::drain_decision(state, tail, authority, reason) is Ok <==> state.phase
            == CutoverPhase::V1Active && !crate::text::blank(authority) && !crate::text::blank(
            reason,
        ),
        state.phase != CutoverPhase::V1Active ==> super::cutover::drain_decision(
            state,
            tail,
            authority,
            reason,
        ) matches Err(StorageErrorView::CutoverConflict(_)),
        super::cutover::drain_decision(state, tail, authority, reason) matches Ok(p) ==> {
            &&& p.row.from_phase == "v1_active"@
            &&& p.row.to_phase == "draining"@
            &&& p.row.fence == Some(tail)
            &&& p.row.first == state.first_v2_append_seq
            &&& p.row.generation == state.generation
            &&& p.credential == CredentialChange::Revoke
        },
{
}

/// A unit goes back to the first version only from draining or from a second version that has taken
/// nothing in; it then has a new generation and a credential of the first version.
pub proof fn rollbacks_return_to_the_first_version(
    state: CutoverState,
    authority: Seq<char>,
    reason: Seq<char>,
)
    ensures
        super::cutover::rollback_decision(state, authority, reason) is Ok <==> {
            &&& state.phase == CutoverPhase::Draining || state.phase == CutoverPhase::V2Active
            &&& state.v2_ingested == 0
            &&& state.generation < u64::MAX
            &&& !crate::text::blank(authority)
            &&& !crate::text::blank(reason)
        },
        (super::cutover::rollback_decision(state, authority, reason) matches Err(
            StorageErrorView::CutoverRollbackRefused(_),
        )) <==> state.phase == CutoverPhase::V2Committed || state.v2_ingested > 0,
        super::cutover::rollback_decision(state, authority, reason) matches Ok(p) ==> {
            &&& p.row.from_phase == super::cutover::phase_name(state.phase)
            &&& p.row.to_phase == "v1_active"@
            &&& p.row.fence == state.fence_append_seq
            &&& p.row.first == state.first_v2_append_seq
            &&& p.row.generation == state.generation + 1
            &&& p.credential == CredentialChange::Issue(CutoverApiVersion::V1)
        },
{
}

/// A unit is activated just where its report finds it ready and somebody answers for it; it then
/// has a new generation and a credential of the second version.
pub proof fn activations_open_the_second_version(
    report: CutoverReadinessReport,
    authority: Seq<char>,
    reason: Seq<char>,
)
    ensures
        super::cutover::activate_decision(report, authority, reason) is Ok <==> report.ready
            && report.state.generation < u64::MAX && !crate::text::blank(authority)
            && !crate::text::blank(reason),
        super::cutover::activate_decision(report, authority, reason) matches Ok(p) ==> {
            &&& p.row.from_phase == super::cutover::phase_name(report.state.phase)
            &&& p.row.to_phase == "v2_active"@
            &&& p.row.fence == report.state.fence_append_seq
            &&& p.row.first == report.state.first_v2_append_seq
            &&& p.row.generation == report.state.generation + 1
            &&& p.credential == CredentialChange::Issue(CutoverApiVersion::V2)
        },
{
}

/// A unit is registered once, by somebody who answers for it, with a credential of the first version.
pub proof fn units_are_registered_once(
    state: Option<CutoverState>,
    authority: Seq<char>,
    reason: Seq<char>,
)
    ensures
        state is Some ==> super::cutover::register_decision(state, authority, reason) == Ok::<
            Option<super::cutover::PlanView>,
            StorageErrorView,
        >(None),
        state is None ==> (super::cutover::register_decision(state, authority, reason) is Ok <==> (
        !crate::text::blank(authority) && !crate::text::blank(reason))),
        super::cutover::register_decision(state, authority, reason) matches Ok(Some(p)) ==> {
            &&& state is None
            &&& p.row.from_phase == "uninitialized"@
            &&& p.row.to_phase == "v1_active"@
            &&& p.row.generation == 1
            &&& p.row.fence is None
            &&& p.row.first is None
            &&& p.credential == CredentialChange::Issue(CutoverApiVersion::V1)
        },
{
}

proof fn least_is_there(numbers: Seq<u64>)
    ensures
        numbers.len() == 0 <==> super::cutover::least(numbers) is None,
        super::cutover::least(numbers) matches Some(m) ==> {
            &&& exists|i: int| 0 <= i < numbers.len() && #[trigger] numbers[i] == m
            &&& forall|i: int| 0 <= i < numbers.len() ==> m <= #[trigger] numbers[i]
        },
    decreases numbers.len(),
{
    if numbers.len() > 0 {
        let init = numbers.drop_last();
        least_is_there(init);
        let last = numbers.len() - 1;
        assert(numbers[last] == numbers.last());
        assert forall|i: int| 0 <= i < numbers.len() implies super::cutover::least(numbers)->0
            <= #[trigger] numbers[i] by {
            if i < last {
                assert(init[i] == numbers[i]);
            }
        }
        if init.len() > 0 {
            let k = choose|i: int|
                0 <= i < init.len() && #[trigger] init[i] == super::cutover::least(init)->0;
            assert(numbers[k] == init[k]);
        }
    }
}

/// The second version becomes final with the first observation that it takes in, just where it is
/// active; the position that is recorded is the earliest of those appended. The credential stays.
pub proof fn first_observations_commit(state: CutoverState, appended: Seq<u64>)
    ensures
        super::cutover::commit_decision(state, appended) is Some <==> appended.len() > 0
            && state.phase == CutoverPhase::V2Active,
        super::cutover::commit_decision(state, appended) matches Some(p) ==> {
            &&& p.row.from_phase == "v2_active"@
            &&& p.row.to_phase == "v2_committed"@
            &&& p.row.generation == state.generation
            &&& p.row.fence == state.fence_append_seq
            &&& p.row.first is Some
            &&& appended.contains(p.row.first->0)
            &&& forall|i: int| 0 <= i < appended.len() ==> p.row.first->0 <= #[trigger] appended[i]
            &&& p.credential == CredentialChange::Keep
        },
{
    least_is_there(appended);
}

/// A request is admitted just where the unit is not registered, or where the unit stands in a phase
/// of the version, the request names its generation, and the credential is active.
pub proof fn requests_are_admitted_by_phase_and_generation(
    state: Option<CutoverState>,
    unit: Seq<char>,
    version: CutoverApiVersion,
    generation: Option<u64>,
    active: bool,
)
    ensures
        super::cutover::denial(state, unit, version, generation, active) is None <==> {
            ||| state is None
            ||| {
                &&& generation == Some(state->0.generation)
                &&& active
                &&& version == CutoverApiVersion::V1 ==> state->0.phase == CutoverPhase::V1Active
                &&& version == CutoverApiVersion::V2 ==> state->0.phase == CutoverPhase::V2Active
                    || state->0.phase == CutoverPhase::V2Committed
            }
        },
{
}

} // verus!
