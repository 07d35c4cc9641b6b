//! What publications and cleaning up keep to.

use vstd::prelude::*;

use super::generations::GenerationsView;

verus! {

/// A publication retires the generation that the target had before, where it had one, and no other.
pub proof fn publications_retire_the_former_generation(
    g: GenerationsView,
    target: Seq<char>,
    staging: Seq<char>,
)
    requires
        super::generations::well_kept(g),
        target != staging,
        super::generations::live(g, staging) is Some,
    ensures
        super::generations::published(g, target, staging).retired == match super::generations::live(
            g,
            target,
        ) {
            Some(former) => g.retired.push(former),
            None => g.retired,
        },
        super::generations::published(g, target, staging).heads.len() == g.heads.len() - (
        if super::generations::live(g, target) is Some {
            1int
        } else {
            0
        }),
{
    let at = super::generations::head_index(g.heads, staging)->0;
    head_is_there(g.heads, staging);
    head_is_there(g.heads, target);
    let without = g.heads.remove(at);
    head_is_there(without, target);
    match super::generations::head_index(g.heads, target) {
        Some(i) => {
            let k = if i < at {
                i
            } else {
                i - 1
            };
            assert(without[k] == g.heads[i]);
            match super::generations::head_index(without, target) {
                Some(m) => {
                    let n = if m < at {
                        m
                    } else {
                        m + 1
                    };
                    assert(without[m] == g.heads[n]);
                    if n < i {
                        assert(g.heads[n].0 != g.heads[i].0);
                    }
                    if i < n {
                        assert(g.heads[i].0 != g.heads[n].0);
                    }
                },
                None => {},
            }
        },
        None => {
            match super::generations::head_index(without, target) {
                Some(m) => {
                    let n = if m < at {
                        m
                    } else {
                        m + 1
                    };
                    assert(without[m] == g.heads[n]);
                },
                None => {},
            }
        },
    }
}

proof fn head_is_there(heads: Seq<(Seq<char>, Seq<char>)>, projection: Seq<char>)
    ensures
        match super::generations::head_index(heads, projection) {
            Some(i) => 0 <= i < heads.len() && heads[i].0 == projection,
            None => forall|i: int| 0 <= i < heads.len() ==> (#[trigger] heads[i]).0 != projection,
        },
    decreases heads.len(),
{
    if heads.len() > 0 {
        let init = heads.drop_last();
        head_is_there(init, projection);
        if super::generations::head_index(heads, projection) is None {
            assert forall|i: int| 0 <= i < heads.len() implies (#[trigger] heads[i]).0
                != projection by {
                if i < init.len() {
                    assert(init[i] == heads[i]);
                }
            }
        }
    }
}

/// A projection is stored under the generation of its head, and under none where it has no head.
pub proof fn heads_tell_the_generation(g: GenerationsView, projection: Seq<char>, i: int)
    requires
        super::generations::well_kept(g),
    ensures
        0 <= i < g.heads.len() && g.heads[i].0 == projection ==> super::generations::live(
            g,
            projection,
        ) == Some(g.heads[i].1),
        (forall|j: int| 0 <= j < g.heads.len() ==> (#[trigger] g.heads[j]).0 != projection)
            ==> super::generations::live(g, projection) is None,
{
    head_is_there(g.heads, projection);
    match super::generations::head_index(g.heads, projection) {
        Some(k) => {
            if 0 <= i < g.heads.len() && g.heads[i].0 == projection {
                if i < k {
                    assert(g.heads[i].0 != g.heads[k].0);
                }
                if k < i {
                    assert(g.heads[k].0 != g.heads[i].0);
                }
            }
        },
        None => {},
    }
}

/// A publication is refused just where one of the two projections has no name, both are the same,
/// nothing was staged, or another number of items was staged than expected.
pub proof fn publications_are_refused_for_a_reason(
    g: GenerationsView,
    target: Seq<char>,
    staging: Seq<char>,
    staged: u64,
    expected: u64,
)
    ensures
        super::generations::publish_fault(g, target, staging, staged, expected) is None <==> {
            &&& !crate::text::blank(target)
            &&& !crate::text::blank(staging)
            &&& target != staging
            &&& super::generations::live(g, staging) is Some
            &&& staged == expected
        },
{
}

/// A round of cleaning up takes away as many items and as many references as are left, up to the
/// limit; more is to do just where some of the generation is left or another one waits.
pub proof fn rounds_take_away_up_to_the_limit(retired: nat, items: u64, refs: u64, limit: u64)
    ensures
        ({
            let report = super::generations::cleanup_page(retired, items, refs, limit);
            &&& retired == 0 ==> report.deleted_items == 0 && report.deleted_visible_blob_refs == 0
                && !report.has_more
            &&& retired > 0 ==> {
                &&& report.deleted_items <= limit && report.deleted_items <= items
                &&& report.deleted_items == limit || report.deleted_items == items
                &&& report.deleted_visible_blob_refs <= limit && report.deleted_visible_blob_refs
                    <= refs
                &&& report.deleted_visible_blob_refs == limit || report.deleted_visible_blob_refs
                    == refs
                &&& report.has_more <==> report.deleted_items < items
                    || report.deleted_visible_blob_refs < refs || retired > 1
            }
        }),
{
}

} // verus!
