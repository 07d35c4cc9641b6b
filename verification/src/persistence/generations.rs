//! Generations of projections.
//!
//! The items of a projection are stored under a generation, and a head says which generation is the
//! live one. Publishing moves the head to the generation that was staged; the one before is retired
//! and taken away page by page.

use vstd::prelude::*;
use vstd::string::*;

use crate::domain::ProjectionRef;
use crate::json::{Json, JsonView};
use crate::text::{decimal_text, str_eq, text3, text6};
use crate::text_map::TextMap;

use super::error::{violation, PersistenceError, PersistenceErrorView};
use super::projection::{validate_projection_key, ItemView};

verus! {

/// Which generation each projection is stored under, and which generations are to be taken away.
#[derive(Debug)]
pub struct ProjectionGenerations {
    heads: Vec<(String, String)>,
    retired: Vec<String>,
}

/// Which generations are live and which are retired.
pub struct GenerationsView {
    /// The projections and the generations that they are stored under.
    pub heads: Seq<(Seq<char>, Seq<char>)>,
    pub retired: Seq<Seq<char>>,
}

/// Heads by projection and generation.
pub open spec fn head_views(heads: Seq<(String, String)>) -> Seq<(Seq<char>, Seq<char>)> {
    heads.map_values(|h: (String, String)| (h.0@, h.1@))
}

impl View for ProjectionGenerations {
    type V = GenerationsView;

    closed spec fn view(&self) -> GenerationsView {
        GenerationsView {
            heads: head_views(self.heads@),
            retired: crate::text::strings(self.retired@),
        }
    }
}

/// The position of the head of a projection.
pub open spec fn head_index(
    heads: Seq<(Seq<char>, Seq<char>)>,
    projection: Seq<char>,
) -> Option<int>
    decreases heads.len(),
{
    if heads.len() == 0 {
        None
    } else {
        match head_index(heads.drop_last(), projection) {
            Some(i) => Some(i),
            None => if heads.last().0 == projection {
                Some(heads.len() - 1)
            } else {
                None
            },
        }
    }
}

proof fn head_index_in_range(heads: Seq<(Seq<char>, Seq<char>)>, projection: Seq<char>)
    ensures
        match head_index(heads, projection) {
            Some(i) => 0 <= i < heads.len() && heads[i].0 == projection,
            None => forall|i: int| 0 <= i < heads.len() ==> (#[trigger] heads[i]).0 != projection,
        },
    decreases heads.len(),
{
    if heads.len() > 0 {
        let init = heads.drop_last();
        head_index_in_range(init, projection);
        if head_index(init, projection) is None {
            assert forall|i: int| 0 <= i < heads.len() && heads.last().0 != projection implies (
            #[trigger] heads[i]).0 != projection by {
                if i < init.len() {
                    assert(init[i] == heads[i]);
                }
            }
        }
    }
}

/// The generation that a projection is stored under.
pub open spec fn live(g: GenerationsView, projection: Seq<char>) -> Option<Seq<char>> {
    match head_index(g.heads, projection) {
        Some(i) => Some(g.heads[i].1),
        None => None,
    }
}

/// Whether a generation is live.
pub open spec fn is_live(g: GenerationsView, storage: Seq<char>) -> bool {
    exists|i: int| 0 <= i < g.heads.len() && (#[trigger] g.heads[i]).1 == storage
}

/// Whether each projection has one head, each generation belongs to one projection, and no live
/// generation is retired.
pub open spec fn well_kept(g: GenerationsView) -> bool {
    &&& forall|i: int, j: int|
        #![trigger g.heads[i], g.heads[j]]
        0 <= i < j < g.heads.len() ==> g.heads[i].0 != g.heads[j].0 && g.heads[i].1 != g.heads[j].1
    &&& forall|i: int, j: int|
        #![trigger g.heads[i], g.retired[j]]
        0 <= i < g.heads.len() && 0 <= j < g.retired.len() ==> g.heads[i].1 != g.retired[j]
}

/// Whether nothing is or was stored under a generation.
pub open spec fn is_unused(g: GenerationsView, storage: Seq<char>) -> bool {
    !is_live(g, storage) && !g.retired.contains(storage)
}

/// The generations after a publication: the head of the target moves to the staged generation, the
/// one that it had before is retired, and the staged projection has none any more.
pub open spec fn published(
    g: GenerationsView,
    target: Seq<char>,
    staging: Seq<char>,
) -> GenerationsView {
    let at = head_index(g.heads, staging)->0;
    let storage = g.heads[at].1;
    let without = g.heads.remove(at);
    match head_index(without, target) {
        Some(i) => GenerationsView {
            heads: without.update(i, (target, storage)),
            retired: g.retired.push(without[i].1),
        },
        None => GenerationsView { heads: without.push((target, storage)), retired: g.retired },
    }
}

/// Why a publication is refused.
pub open spec fn publish_fault(
    g: GenerationsView,
    target: Seq<char>,
    staging: Seq<char>,
    staged: u64,
    expected: u64,
) -> Option<PersistenceErrorView> {
    if crate::text::blank(target) || crate::text::blank(staging) {
        Some(super::error::broken("projection item projection_id must not be blank"@))
    } else if target == staging {
        Some(
            super::error::broken(
                "projection item staging projection must differ from target projection"@,
            ),
        )
    } else if live(g, staging) is None {
        Some(
            super::error::broken(
                "projection item staging projection "@ + staging + " does not exist"@,
            ),
        )
    } else if staged != expected {
        Some(
            super::error::broken(
                "projection item staging projection "@ + staging + " contains "@
                    + crate::text::decimal(staged as nat) + " items, expected "@
                    + crate::text::decimal(expected as nat),
            ),
        )
    } else {
        None
    }
}

impl ProjectionGenerations {
    #[verifier::type_invariant]
    spec fn kept(self) -> bool {
        well_kept(
            GenerationsView {
                heads: head_views(self.heads@),
                retired: crate::text::strings(self.retired@),
            },
        )
    }

    /// The generations that heads and a list of retired ones say, where they are well kept.
    pub fn restore(heads: Vec<(String, String)>, retired: Vec<String>) -> (r: Option<
        ProjectionGenerations,
    >)
        ensures
            match r {
                Some(g) => g@ == (GenerationsView {
                    heads: head_views(heads@),
                    retired: crate::text::strings(retired@),
                }) && well_kept(g@),
                None => !well_kept(
                    GenerationsView {
                        heads: head_views(heads@),
                        retired: crate::text::strings(retired@),
                    },
                ),
            },
    {
        let ghost g = GenerationsView {
            heads: head_views(heads@),
            retired: crate::text::strings(retired@),
        };
        let mut i: usize = 0;
        while i < heads.len()
            invariant
                i <= heads@.len(),
                g == (GenerationsView {
                    heads: head_views(heads@),
                    retired: crate::text::strings(retired@),
                }),
                forall|a: int, b: int|
                    #![trigger g.heads[a], g.heads[b]]
                    0 <= a < b < i ==> g.heads[a].0 != g.heads[b].0 && g.heads[a].1 != g.heads[b].1,
                forall|a: int, b: int|
                    #![trigger g.heads[a], g.retired[b]]
                    0 <= a < i && 0 <= b < g.retired.len() ==> g.heads[a].1 != g.retired[b],
            decreases heads@.len() - i,
        {
            let mut j: usize = 0;
            while j < i
                invariant
                    j <= i < heads@.len(),
                    g == (GenerationsView {
                        heads: head_views(heads@),
                        retired: crate::text::strings(retired@),
                    }),
                    forall|a: int|
                        0 <= a < j ==> (#[trigger] g.heads[a]).0 != g.heads[i as int].0
                            && g.heads[a].1 != g.heads[i as int].1,
                decreases i - j,
            {
                assert(g.heads[j as int] == (heads@[j as int].0@, heads@[j as int].1@));
                assert(g.heads[i as int] == (heads@[i as int].0@, heads@[i as int].1@));
                if str_eq(heads[j].0.as_str(), heads[i].0.as_str()) || str_eq(
                    heads[j].1.as_str(),
                    heads[i].1.as_str(),
                ) {
                    return None;
                }
                j = j + 1;
            }
            let mut k: usize = 0;
            while k < retired.len()
                invariant
                    k <= retired@.len(),
                    i < heads@.len(),
                    g == (GenerationsView {
                        heads: head_views(heads@),
                        retired: crate::text::strings(retired@),
                    }),
                    forall|b: int| 0 <= b < k ==> g.heads[i as int].1 != #[trigger] g.retired[b],
                decreases retired@.len() - k,
            {
                assert(g.heads[i as int] == (heads@[i as int].0@, heads@[i as int].1@));
                assert(g.retired[k as int] == retired@[k as int]@);
                if str_eq(heads[i].1.as_str(), retired[k].as_str()) {
                    return None;
                }
                k = k + 1;
            }
            i = i + 1;
        }
        assert(well_kept(g));
        Some(ProjectionGenerations { heads, retired })
    }

    /// No projections.
    pub fn new() -> (r: ProjectionGenerations)
        ensures
            r@.heads.len() == 0,
            r@.retired.len() == 0,
            well_kept(r@),
    {
        let heads: Vec<(String, String)> = Vec::new();
        let retired: Vec<String> = Vec::new();
        ProjectionGenerations { heads, retired }
    }

    fn find(&self, projection: &str) -> (r: Option<usize>)
        ensures
            (match r {
                Some(i) => Some(i as int),
                None => None,
            }) == head_index(self@.heads, projection@),
            r matches Some(i) ==> i < self.heads@.len(),
    {
        let ghost all = head_views(self.heads@);
        let mut found: Option<usize> = None;
        let mut i: usize = 0;
        while i < self.heads.len()
            invariant
                i <= self.heads@.len(),
                all == head_views(self.heads@),
                (match found {
                    Some(k) => Some(k as int),
                    None => None,
                }) == head_index(all.take(i as int), projection@),
                found matches Some(k) ==> k < i,
            decreases self.heads@.len() - i,
        {
            proof {
                assert(all.take(i + 1).drop_last() =~= all.take(i as int));
                assert(all.take(i + 1).last() == all[i as int]);
            }
            if found.is_none() && str_eq(self.heads[i].0.as_str(), projection) {
                found = Some(i);
            }
            i = i + 1;
        }
        assert(all.take(i as int) =~= all);
        found
    }

    /// The generation that a projection is stored under.
    pub fn active_storage_projection_id(&self, projection: &ProjectionRef) -> (r: Option<&str>)
        ensures
            crate::json::opt_str(r) == live(self@, projection@),
    {
        match self.find(projection.as_str()) {
            Some(i) => Some(self.heads[i].1.as_str()),
            None => None,
        }
    }

    /// Gives a projection a generation, where it has none.
    pub fn materialize(&mut self, projection: &ProjectionRef, fresh: &str)
        requires
            is_unused(old(self)@, fresh@),
        ensures
            match live(old(self)@, projection@) {
                Some(_) => final(self)@ == old(self)@,
                None => final(self)@ == (GenerationsView {
                    heads: old(self)@.heads.push((projection@, fresh@)),
                    retired: old(self)@.retired,
                }),
            },
            well_kept(final(self)@),
    {
        proof {
            use_type_invariant(&*self);
        }
        if self.find(projection.as_str()).is_none() {
            let ghost before = head_views(self.heads@);
            let ghost gone = crate::text::strings(self.retired@);
            let mut heads: Vec<(String, String)> = Vec::new();
            std::mem::swap(&mut heads, &mut self.heads);
            heads.push((projection.as_str().to_owned(), fresh.to_owned()));
            proof {
                let after = head_views(heads@);
                assert(after =~= before.push((projection@, fresh@)));
                head_index_in_range(before, projection@);
                let g = GenerationsView { heads: after, retired: gone };
                assert forall|i: int, j: int|
                    #![trigger g.heads[i], g.heads[j]]
                    0 <= i < j < g.heads.len() implies g.heads[i].0 != g.heads[j].0
                    && g.heads[i].1 != g.heads[j].1 by {
                    assert(before[i] == after[i]);
                    if j < before.len() {
                        assert(before[j] == after[j]);
                    } else {
                        assert(old(self)@.heads[i].1 != fresh@);
                    }
                }
                assert forall|i: int, j: int|
                    #![trigger g.heads[i], g.retired[j]]
                    0 <= i < g.heads.len() && 0 <= j < g.retired.len() implies g.heads[i].1
                    != g.retired[j] by {
                    if i < before.len() {
                        assert(before[i] == after[i]);
                        assert(old(self)@.retired[j] == gone[j]);
                    } else {
                        assert(old(self)@.retired.contains(gone[j]));
                    }
                }
            }
            self.heads = heads;
        }
        proof {
            use_type_invariant(&*self);
        }
    }

    /// Whether the head of the target may move to the staged generation.
    fn check_move(
        &self,
        target: &ProjectionRef,
        staging: &ProjectionRef,
        staged: u64,
        expected: u64,
    ) -> (r: Result<(), PersistenceError>)
        ensures
            match r {
                Ok(()) => publish_fault(self@, target@, staging@, staged, expected) is None,
                Err(e) => publish_fault(self@, target@, staging@, staged, expected) == Some(e@),
            },
    {
        match validate_projection_key(target) {
            Ok(()) => {},
            Err(e) => {
                return Err(e);
            },
        }
        match validate_projection_key(staging) {
            Ok(()) => {},
            Err(e) => {
                return Err(e);
            },
        }
        if str_eq(target.as_str(), staging.as_str()) {
            return Err(
                violation("projection item staging projection must differ from target projection"),
            );
        }
        match self.find(staging.as_str()) {
            Some(_) => {},
            None => {
                return Err(
                    PersistenceError::SchemaInvariant(
                        text3(
                            "projection item staging projection ",
                            staging.as_str(),
                            " does not exist",
                        ),
                    ),
                );
            },
        }
        if staged != expected {
            let found = decimal_text(staged);
            let wanted = decimal_text(expected);
            return Err(
                PersistenceError::SchemaInvariant(
                    text6(
                        "projection item staging projection ",
                        staging.as_str(),
                        " contains ",
                        found.as_str(),
                        " items, expected ",
                        wanted.as_str(),
                    ),
                ),
            );
        }
        Ok(())
    }

    /// Moves the head of the target to the staged generation and retires the one before. How many
    /// items were staged has to be what is expected.
    pub fn move_head(
        &mut self,
        target: &ProjectionRef,
        staging: &ProjectionRef,
        staged: u64,
        expected: u64,
    ) -> (r: Result<(), PersistenceError>)
        ensures
            match r {
                Ok(()) => publish_fault(old(self)@, target@, staging@, staged, expected) is None
                    && final(self)@ == published(old(self)@, target@, staging@),
                Err(e) => publish_fault(old(self)@, target@, staging@, staged, expected) == Some(e@)
                    && final(self)@ == old(self)@,
            },
            well_kept(final(self)@),
    {
        proof {
            use_type_invariant(&*self);
        }
        match self.check_move(target, staging, staged, expected) {
            Ok(()) => {},
            Err(e) => {
                return Err(e);
            },
        }
        let at = match self.find(staging.as_str()) {
            Some(i) => i,
            // A projection that may be published has a head.
            None => {
                return Ok(());
            },
        };
        let ghost given = self@;
        let mut heads: Vec<(String, String)> = Vec::new();
        let mut retired: Vec<String> = Vec::new();
        std::mem::swap(&mut heads, &mut self.heads);
        std::mem::swap(&mut retired, &mut self.retired);
        let ghost before = head_views(heads@);
        let ghost gone = crate::text::strings(retired@);
        let (_, storage) = heads.remove(at);
        let ghost without = before.remove(at as int);
        assert(head_views(heads@) =~= without);
        assert(storage@ == before[at as int].1);
        proof {
            removal_keeps(given, at as int);
        }
        let rest = ProjectionGenerations { heads, retired };
        let place = rest.find(target.as_str());
        let ProjectionGenerations { heads: mut heads, retired: mut retired } = rest;
        match place {
            Some(i) => {
                let ghost old_storage = without[i as int].1;
                let replaced = heads[i].1.clone();
                heads.set(i, (target.as_str().to_owned(), storage));
                retired.push(replaced);
                proof {
                    assert(head_views(heads@) =~= without.update(
                        i as int,
                        (target@, storage@),
                    ));
                    assert(crate::text::strings(retired@) =~= gone.push(old_storage));
                    head_index_in_range(without, target@);
                    swap_keeps(given, at as int, i as int);
                }
            },
            None => {
                heads.push((target.as_str().to_owned(), storage));
                proof {
                    assert(head_views(heads@) =~= without.push((target@, storage@)));
                    head_index_in_range(without, target@);
                    move_keeps(given, at as int, target@);
                }
            },
        }
        self.heads = heads;
        self.retired = retired;
        proof {
            use_type_invariant(&*self);
        }
        Ok(())
    }

    /// The retired generation that is taken away next.
    pub fn next_retired(&self) -> (r: Option<&str>)
        ensures
            crate::json::opt_str(r) == (if self@.retired.len() > 0 {
                Some(self@.retired[0])
            } else {
                None
            }),
    {
        if self.retired.len() > 0 {
            Some(self.retired[0].as_str())
        } else {
            None
        }
    }

    /// Takes a page of the next retired generation away, given how many items and references of it
    /// are left.
    pub fn cleanup_retired_projection_generation(
        &mut self,
        items_left: u64,
        refs_left: u64,
        limit: u64,
    ) -> (r: CleanupReport)
        ensures
            final(self)@.heads == old(self)@.heads,
            r == cleanup_page(old(self)@.retired.len(), items_left, refs_left, limit),
            final(self)@.retired == (if old(self)@.retired.len() > 0 && items_left
                == r.deleted_items && refs_left == r.deleted_visible_blob_refs {
                old(self)@.retired.skip(1)
            } else {
                old(self)@.retired
            }),
            well_kept(final(self)@),
    {
        proof {
            use_type_invariant(&*self);
        }
        if self.retired.len() == 0 {
            return CleanupReport {
                deleted_items: 0,
                deleted_visible_blob_refs: 0,
                has_more: false,
            };
        }
        let deleted_items: u64 = if items_left < limit {
            items_left
        } else {
            limit
        };
        let deleted_visible_blob_refs: u64 = if refs_left < limit {
            refs_left
        } else {
            limit
        };
        let finished = deleted_items == items_left && deleted_visible_blob_refs == refs_left;
        let has_more = !finished || self.retired.len() > 1;
        if finished {
            let ghost before = crate::text::strings(self.retired@);
            let mut retired: Vec<String> = Vec::new();
            proof {
                let none = GenerationsView {
                    heads: head_views(self.heads@),
                    retired: crate::text::strings(retired@),
                };
                assert(none.heads == old(self)@.heads);
                assert(well_kept(old(self)@));
                assert(well_kept(none));
            }
            std::mem::swap(&mut retired, &mut self.retired);
            let _ = retired.remove(0);
            proof {
                assert(crate::text::strings(retired@) =~= before.skip(1));
                let g = GenerationsView {
                    heads: head_views(self.heads@),
                    retired: before.skip(1),
                };
                assert forall|i: int, j: int|
                    #![trigger g.heads[i], g.retired[j]]
                    0 <= i < g.heads.len() && 0 <= j < g.retired.len() implies g.heads[i].1
                    != g.retired[j] by {
                    assert(g.retired[j] == old(self)@.retired[j + 1]);
                    assert(g.heads[i] == old(self)@.heads[i]);
                }
                assert(g.heads == old(self)@.heads);
                assert(well_kept(g));
            }
            self.retired = retired;
        }
        proof {
            use_type_invariant(&*self);
        }
        CleanupReport { deleted_items, deleted_visible_blob_refs, has_more }
    }
}

proof fn removal_keeps(g: GenerationsView, at: int)
    requires
        well_kept(g),
        0 <= at < g.heads.len(),
    ensures
        well_kept(GenerationsView { heads: g.heads.remove(at), retired: g.retired }),
{
    let rest = g.heads.remove(at);
    let h = GenerationsView { heads: rest, retired: g.retired };
    assert forall|i: int, j: int|
        #![trigger h.heads[i], h.heads[j]]
        0 <= i < j < h.heads.len() implies h.heads[i].0 != h.heads[j].0 && h.heads[i].1
        != h.heads[j].1 by {
        let a = if i < at {
            i
        } else {
            i + 1
        };
        let b = if j < at {
            j
        } else {
            j + 1
        };
        assert(rest[i] == g.heads[a] && rest[j] == g.heads[b]);
    }
    assert forall|i: int, j: int|
        #![trigger h.heads[i], h.retired[j]]
        0 <= i < h.heads.len() && 0 <= j < h.retired.len() implies h.heads[i].1 != h.retired[j] by {
        let a = if i < at {
            i
        } else {
            i + 1
        };
        assert(rest[i] == g.heads[a]);
        assert(g.retired[j] == h.retired[j]);
    }
}

proof fn swap_keeps(g: GenerationsView, at: int, place: int)
    requires
        well_kept(g),
        0 <= at < g.heads.len(),
        0 <= place < g.heads.len() - 1,
    ensures
        well_kept(
            GenerationsView {
                heads: g.heads.remove(at).update(
                    place,
                    (g.heads.remove(at)[place].0, g.heads[at].1),
                ),
                retired: g.retired.push(g.heads.remove(at)[place].1),
            },
        ),
{
    removal_keeps(g, at);
    let rest = g.heads.remove(at);
    let h = GenerationsView {
        heads: rest.update(place, (rest[place].0, g.heads[at].1)),
        retired: g.retired.push(rest[place].1),
    };
    let q = GenerationsView { heads: rest, retired: g.retired };
    assert forall|k: int| 0 <= k < rest.len() implies (#[trigger] rest[k]).1 != g.heads[at].1 by {
        let a = if k < at {
            k
        } else {
            k + 1
        };
        assert(rest[k] == g.heads[a]);
    }
    assert forall|i: int, j: int|
        #![trigger h.heads[i], h.heads[j]]
        0 <= i < j < h.heads.len() implies h.heads[i].0 != h.heads[j].0 && h.heads[i].1
        != h.heads[j].1 by {
        assert(q.heads[i].0 != q.heads[j].0 && q.heads[i].1 != q.heads[j].1);
    }
    assert forall|i: int, j: int|
        #![trigger h.heads[i], h.retired[j]]
        0 <= i < h.heads.len() && 0 <= j < h.retired.len() implies h.heads[i].1 != h.retired[j] by {
        assert(rest[place] == q.heads[place]);
        if j < g.retired.len() {
            assert(h.retired[j] == g.retired[j]);
            if i == place {
                assert(g.heads[at].1 != g.retired[j]);
            } else {
                assert(q.heads[i].1 != q.retired[j]);
            }
        } else if i != place {
            if i < place {
                assert(q.heads[i].1 != q.heads[place].1);
            } else {
                assert(q.heads[place].1 != q.heads[i].1);
            }
        }
    }
}

proof fn move_keeps(g: GenerationsView, at: int, target: Seq<char>)
    requires
        well_kept(g),
        0 <= at < g.heads.len(),
        forall|i: int|
            0 <= i < g.heads.remove(at).len() ==> (#[trigger] g.heads.remove(at)[i]).0 != target,
    ensures
        well_kept(
            GenerationsView {
                heads: g.heads.remove(at).push((target, g.heads[at].1)),
                retired: g.retired,
            },
        ),
{
    removal_keeps(g, at);
    let rest = g.heads.remove(at);
    let h = GenerationsView { heads: rest.push((target, g.heads[at].1)), retired: g.retired };
    let q = GenerationsView { heads: rest, retired: g.retired };
    assert forall|k: int| 0 <= k < rest.len() implies (#[trigger] rest[k]).1 != g.heads[at].1 by {
        let a = if k < at {
            k
        } else {
            k + 1
        };
        assert(rest[k] == g.heads[a]);
    }
    assert forall|i: int, j: int|
        #![trigger h.heads[i], h.heads[j]]
        0 <= i < j < h.heads.len() implies h.heads[i].0 != h.heads[j].0 && h.heads[i].1
        != h.heads[j].1 by {
        assert(h.heads[i] == rest[i]);
        if j < rest.len() {
            assert(q.heads[i].0 != q.heads[j].0 && q.heads[i].1 != q.heads[j].1);
        }
    }
    assert forall|i: int, j: int|
        #![trigger h.heads[i], h.retired[j]]
        0 <= i < h.heads.len() && 0 <= j < h.retired.len() implies h.heads[i].1 != h.retired[j] by {
        assert(h.retired[j] == g.retired[j]);
        if i < rest.len() {
            assert(q.heads[i].1 != q.retired[j]);
        } else {
            assert(g.heads[at].1 != g.retired[j]);
        }
    }
}

/// What a round of cleaning up did.
#[derive(Debug, Clone, Copy, PartialEq, Eq, Structural)]
pub struct CleanupReport {
    pub deleted_items: u64,
    pub deleted_visible_blob_refs: u64,
    pub has_more: bool,
}

/// What a round of cleaning up does, given how many generations are retired and how much of the
/// next one is left.
pub open spec fn cleanup_page(
    retired: nat,
    items_left: u64,
    refs_left: u64,
    limit: u64,
) -> CleanupReport {
    let items = if retired == 0 {
        0
    } else if items_left < limit {
        items_left
    } else {
        limit
    };
    let refs = if retired == 0 {
        0
    } else if refs_left < limit {
        refs_left
    } else {
        limit
    };
    CleanupReport {
        deleted_items: items,
        deleted_visible_blob_refs: refs,
        has_more: retired > 0 && (items != items_left || refs != refs_left || retired > 1),
    }
}

/// After a publication the target shows what was staged, the staged projection is gone, and every
/// other projection shows what it showed.
pub proof fn publications_show_what_was_staged(
    g: GenerationsView,
    target: Seq<char>,
    staging: Seq<char>,
    other: Seq<char>,
)
    requires
        well_kept(g),
        target != staging,
        live(g, staging) is Some,
    ensures
        live(published(g, target, staging), target) == live(g, staging),
        live(published(g, target, staging), staging) is None,
        other != target && other != staging ==> live(published(g, target, staging), other) == live(
            g,
            other,
        ),
{
    let at = head_index(g.heads, staging)->0;
    let storage = g.heads[at].1;
    let rest = g.heads.remove(at);
    let after = published(g, target, staging);
    head_index_in_range(g.heads, staging);
    head_index_in_range(g.heads, other);
    head_index_in_range(rest, target);
    head_index_in_range(after.heads, target);
    head_index_in_range(after.heads, staging);
    head_index_in_range(after.heads, other);
    assert forall|k: int| 0 <= k < rest.len() implies (#[trigger] rest[k]).0 != staging by {
        let a = if k < at {
            k
        } else {
            k + 1
        };
        assert(rest[k] == g.heads[a]);
    }
    removal_keeps(g, at);
    let q = GenerationsView { heads: rest, retired: g.retired };
    match head_index(rest, target) {
        Some(i) => {
            assert(after.heads[i] == (target, storage));
            swap_keeps(g, at, i);
            assert(rest[i].0 == target);
            assert(after == GenerationsView {
                heads: rest.update(i, (rest[i].0, g.heads[at].1)),
                retired: g.retired.push(rest[i].1),
            });
        },
        None => {
            assert(after.heads[rest.len() as int] == (target, storage));
            move_keeps(g, at, target);
        },
    }
    assert(well_kept(after));
    let t = match head_index(rest, target) {
        Some(i) => i,
        None => rest.len() as int,
    };
    let found = head_index(after.heads, target)->0;
    assert(after.heads[t].0 == target);
    assert(found == t) by {
        if found < t {
            assert(after.heads[found].0 != after.heads[t].0);
        }
        if t < found {
            assert(after.heads[t].0 != after.heads[found].0);
        }
    }
    if head_index(after.heads, staging) is Some {
        let k = head_index(after.heads, staging)->0;
        if k != t {
            assert(after.heads[k] == rest[k]);
        }
        assert(false);
    }
    if other != target && other != staging {
        match head_index(g.heads, other) {
            Some(i) => {
                let k = if i < at {
                    i
                } else {
                    i - 1
                };
                assert(rest[k] == g.heads[i]);
                assert(k != t) by {
                    assert(after.heads[t].0 == target);
                    if head_index(rest, target) is Some {
                        assert(rest[t].0 == target);
                    }
                }
                assert(after.heads[k] == rest[k]);
                let f = head_index(after.heads, other)->0;
                assert(f == k) by {
                    if f < k {
                        assert(after.heads[f].0 != after.heads[k].0);
                    }
                    if k < f {
                        assert(after.heads[k].0 != after.heads[f].0);
                    }
                }
            },
            None => {
                if head_index(after.heads, other) is Some {
                    let k = head_index(after.heads, other)->0;
                    assert(k != t);
                    assert(after.heads[k] == rest[k]);
                    let a = if k < at {
                        k
                    } else {
                        k + 1
                    };
                    assert(rest[k] == g.heads[a]);
                    assert(false);
                }
            },
        }
    }
}

/// Projections: the generations that they are stored under, and the manifests of those that have one.
#[derive(Debug)]
pub struct Projections {
    pub generations: ProjectionGenerations,
    pub manifests: TextMap<Json>,
}

/// What projections are stored under, and the fields of their manifests.
pub struct ProjectionsView {
    pub generations: GenerationsView,
    pub manifests: Map<Seq<char>, Map<Seq<char>, JsonView>>,
}

/// Manifests by their fields.
pub open spec fn manifest_views(manifests: Map<Seq<char>, Json>) -> Map<
    Seq<char>,
    Map<Seq<char>, JsonView>,
> {
    manifests.map_values(|manifest: Json| super::projection::fields_of(manifest@))
}

impl View for Projections {
    type V = ProjectionsView;

    open spec fn view(&self) -> ProjectionsView {
        ProjectionsView {
            generations: self.generations@,
            manifests: manifest_views(self.manifests@),
        }
    }
}

/// The manifest that a projection shows; one without fields is none.
pub open spec fn records(p: ProjectionsView, projection: Seq<char>) -> Option<
    Map<Seq<char>, JsonView>,
> {
    if p.manifests.contains_key(projection) && p.manifests[projection]
        != Map::<Seq<char>, JsonView>::empty() {
        Some(p.manifests[projection])
    } else {
        None
    }
}

/// The items that a projection shows, given what is stored under each generation.
pub open spec fn shown_items(
    p: ProjectionsView,
    stored: Map<Seq<char>, Map<Seq<char>, ItemView>>,
    projection: Seq<char>,
) -> Map<Seq<char>, ItemView> {
    match live(p.generations, projection) {
        Some(storage) => stored[storage],
        None => Map::empty(),
    }
}

/// Why a publication with a manifest is refused.
pub open spec fn publication_fault(
    p: ProjectionsView,
    target: Seq<char>,
    staging: Seq<char>,
    manifest: JsonView,
    staged: u64,
    expected: u64,
) -> Option<PersistenceErrorView> {
    match publish_fault(p.generations, target, staging, staged, expected) {
        Some(e) => Some(e),
        None => if manifest is Object {
            None
        } else {
            Some(super::error::broken("projection manifest must be a JSON object"@))
        },
    }
}

/// Projections after a publication: the head of the target moves to the staged generation, the
/// target has the given manifest, and the staged projection has neither a generation nor a manifest.
pub open spec fn after_publication(
    p: ProjectionsView,
    target: Seq<char>,
    staging: Seq<char>,
    manifest: JsonView,
) -> ProjectionsView {
    ProjectionsView {
        generations: published(p.generations, target, staging),
        manifests: p.manifests.remove(staging).insert(
            target,
            super::projection::fields_of(manifest),
        ),
    }
}

impl Projections {
    /// The manifest of a projection.
    pub fn manifest_of(&self, projection: &ProjectionRef) -> (r: Option<&Json>)
        ensures
            match r {
                Some(manifest) => self@.manifests.contains_key(projection@)
                    && self@.manifests[projection@] == super::projection::fields_of(manifest@),
                None => !self@.manifests.contains_key(projection@),
            },
    {
        self.manifests.get(projection.as_str())
    }

    /// Publishes what was staged, under a manifest. How many items were staged has to be what is
    /// expected; a refused publication changes nothing.
    pub fn publish_projection_items_from_staging(
        &mut self,
        target: &ProjectionRef,
        staging: &ProjectionRef,
        manifest: &Json,
        staged: u64,
        expected: u64,
    ) -> (r: Result<(), PersistenceError>)
        ensures
            ({
                let fault = publication_fault(
                    old(self)@,
                    target@,
                    staging@,
                    manifest@,
                    staged,
                    expected,
                );
                match r {
                    Ok(()) => fault is None && final(self)@ == after_publication(
                        old(self)@,
                        target@,
                        staging@,
                        manifest@,
                    ),
                    Err(e) => fault == Some(e@) && final(self)@ == old(self)@,
                }
            }),
    {
        match self.generations.check_move(target, staging, staged, expected) {
            Ok(()) => {},
            Err(e) => {
                return Err(e);
            },
        }
        match manifest {
            Json::Object(_) => {},
            _ => {
                return Err(violation("projection manifest must be a JSON object"));
            },
        }
        match self.generations.move_head(target, staging, staged, expected) {
            Ok(()) => {},
            Err(e) => {
                return Err(e);
            },
        }
        let _ = self.manifests.remove(staging.as_str());
        self.manifests.insert(target.as_str(), manifest.clone());
        assert(self@.manifests =~= after_publication(
            old(self)@,
            target@,
            staging@,
            manifest@,
        ).manifests);
        Ok(())
    }
}

/// After a publication the target shows the items that were staged and the given manifest, the
/// staged projection shows neither, and every other projection shows what it showed.
pub proof fn publications_replace_items_and_manifest(
    p: ProjectionsView,
    stored: Map<Seq<char>, Map<Seq<char>, ItemView>>,
    target: Seq<char>,
    staging: Seq<char>,
    manifest: JsonView,
    staged: u64,
    expected: u64,
    other: Seq<char>,
)
    requires
        well_kept(p.generations),
        publication_fault(p, target, staging, manifest, staged, expected) is None,
        super::projection::fields_of(manifest) != Map::<Seq<char>, JsonView>::empty(),
    ensures
        ({
            let after = after_publication(p, target, staging, manifest);
            &&& target != staging
            &&& staged == expected
            &&& live(p.generations, staging) is Some
            &&& shown_items(after, stored, target) == shown_items(p, stored, staging)
            &&& records(after, target) == Some(super::projection::fields_of(manifest))
            &&& shown_items(after, stored, staging) == Map::<Seq<char>, ItemView>::empty()
            &&& records(after, staging) is None
            &&& other != target && other != staging ==> shown_items(after, stored, other)
                == shown_items(p, stored, other) && records(after, other) == records(p, other)
        }),
{
    publications_show_what_was_staged(p.generations, target, staging, other);
}

} // verus!
