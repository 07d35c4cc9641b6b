//! What commits to projections and pages of items keep to.

use vstd::prelude::*;
use vstd::string::*;

use crate::json::JsonView;

use super::error::PersistenceErrorView;
use super::projection::{ItemView, PageStartView, ProjectionItem, ProjectionItemCommit};
use super::sql::SqlView;

verus! {

proof fn keys_of_items(items: Seq<ProjectionItem>, key: Seq<char>)
    ensures
        super::projection::by_key(items).contains_key(key) <==> exists|i: int|
            0 <= i < items.len() && (#[trigger] items[i]).item_key@ == key,
    decreases items.len(),
{
    if items.len() > 0 {
        let init = items.drop_last();
        keys_of_items(init, key);
        let last = items.len() - 1;
        if exists|i: int| 0 <= i < init.len() && (#[trigger] init[i]).item_key@ == key {
            let i = choose|i: int| 0 <= i < init.len() && (#[trigger] init[i]).item_key@ == key;
            assert(items[i] == init[i]);
        }
        if items[last].item_key@ == key {
            assert(super::projection::by_key(items).contains_key(key));
        }
        if exists|i: int| 0 <= i < items.len() && (#[trigger] items[i]).item_key@ == key {
            let i = choose|i: int| 0 <= i < items.len() && (#[trigger] items[i]).item_key@ == key;
            if i < last {
                assert(init[i] == items[i]);
            }
        }
    }
}

proof fn items_under_their_keys(items: Seq<ProjectionItem>, i: int)
    requires
        0 <= i < items.len(),
        forall|j: int| i < j < items.len() ==> (#[trigger] items[j]).item_key@ != items[i].item_key@,
    ensures
        super::projection::by_key(items)[items[i].item_key@] == items[i]@,
    decreases items.len(),
{
    let last = items.len() - 1;
    if i < last {
        let init = items.drop_last();
        assert forall|j: int| i < j < init.len() implies (#[trigger] init[j]).item_key@
            != init[i].item_key@ by {
            assert(items[j] == init[j]);
        }
        items_under_their_keys(init, i);
        assert(items[last].item_key@ != items[i].item_key@);
        assert(items.last() == items[last]);
    }
}

/// A replacement is always carried out. Afterwards a key is stored just where some item of the
/// commit has it, the item stored under it is that item (the last one where several share a key),
/// and what was stored before does not matter.
pub proof fn replacements_leave_nothing_else(
    before: Map<Seq<char>, ItemView>,
    other: Map<Seq<char>, ItemView>,
    items: Vec<ProjectionItem>,
    projection: Seq<char>,
    key: Seq<char>,
)
    ensures
        ({
            let done = super::projection::after_commit(
                before,
                ProjectionItemCommit::Replace { items },
                projection,
            );
            &&& done is Ok
            &&& done == super::projection::after_commit(
                other,
                ProjectionItemCommit::Replace { items },
                projection,
            )
            &&& done->Ok_0.contains_key(key) <==> exists|i: int|
                0 <= i < items@.len() && (#[trigger] items@[i]).item_key@ == key
            &&& forall|i: int|
                0 <= i < items@.len() && (#[trigger] items@[i]).item_key@ == key && (forall|j: int|
                    i < j < items@.len() ==> (#[trigger] items@[j]).item_key@ != key)
                    ==> done->Ok_0[key] == items@[i]@
        }),
{
    keys_of_items(items@, key);
    assert forall|i: int|
        0 <= i < items@.len() && (#[trigger] items@[i]).item_key@ == key && (forall|j: int|
            i < j < items@.len() ==> (#[trigger] items@[j]).item_key@
                != key) implies super::projection::by_key(items@)[key] == items@[i]@ by {
        items_under_their_keys(items@, i);
    }
}

/// A commit is at fault just where some item lacks a key, an owner or a place, some delete names
/// nothing, or a key is named twice.
pub proof fn faulty_commits_are_told(commit: ProjectionItemCommit)
    ensures
        commit matches ProjectionItemCommit::Replace { items } ==> (
        super::projection::commit_fault(commit) is None <==> {
            &&& forall|i: int|
                0 <= i < items@.len() ==> !crate::text::blank((#[trigger] items@[i]).item_key@)
                    && !crate::text::blank(items@[i].owner_key@) && !crate::text::blank(
                    items@[i].sort_key@,
                )
            &&& forall|i: int, j: int|
                0 <= i < j < items@.len() ==> (#[trigger] items@[i]).item_key@ != (
                #[trigger] items@[j]).item_key@
        }),
        commit matches ProjectionItemCommit::Delta { inserts, updates, deletes } ==> (
        super::projection::commit_fault(commit) is None ==> {
            &&& forall|i: int|
                0 <= i < inserts@.len() ==> !crate::text::blank((#[trigger] inserts@[i]).item_key@)
                    && !crate::text::blank(inserts@[i].owner_key@) && !crate::text::blank(
                    inserts@[i].sort_key@,
                )
            &&& forall|i: int|
                0 <= i < updates@.len() ==> !crate::text::blank((#[trigger] updates@[i]).item_key@)
                    && !crate::text::blank(updates@[i].owner_key@) && !crate::text::blank(
                    updates@[i].sort_key@,
                )
            &&& forall|i: int| 0 <= i < deletes@.len() ==> !crate::text::blank((#[trigger] deletes@[i])@)
            &&& forall|i: int, j: int|
                0 <= i < inserts@.len() && 0 <= j < updates@.len() ==> (
                #[trigger] inserts@[i]).item_key@ != (#[trigger] updates@[j]).item_key@
            &&& forall|i: int, j: int|
                0 <= i < inserts@.len() && 0 <= j < deletes@.len() ==> (
                #[trigger] inserts@[i]).item_key@ != (#[trigger] deletes@[j])@
            &&& forall|i: int, j: int|
                0 <= i < updates@.len() && 0 <= j < deletes@.len() ==> (
                #[trigger] updates@[i]).item_key@ != (#[trigger] deletes@[j])@
            &&& forall|i: int, j: int|
                0 <= i < j < inserts@.len() ==> (#[trigger] inserts@[i]).item_key@ != (
                #[trigger] inserts@[j]).item_key@
            &&& forall|i: int, j: int|
                0 <= i < j < updates@.len() ==> (#[trigger] updates@[i]).item_key@ != (
                #[trigger] updates@[j]).item_key@
            &&& forall|i: int, j: int|
                0 <= i < j < deletes@.len() ==> (#[trigger] deletes@[i])@ != (
                #[trigger] deletes@[j])@
        }),
{
    let keys = super::projection::commit_keys(commit);
    match commit {
        ProjectionItemCommit::Replace { items } => {
            assert forall|i: int| 0 <= i < items@.len() implies keys[i] == (
            #[trigger] items@[i]).item_key@ by {}
            if forall|i: int, j: int|
                0 <= i < j < items@.len() ==> (#[trigger] items@[i]).item_key@ != (
                #[trigger] items@[j]).item_key@ {
                assert forall|i: int, j: int|
                    #![trigger keys[i], keys[j]]
                    0 <= i < j < keys.len() implies keys[i] != keys[j] by {
                    assert(keys[i] == items@[i].item_key@ && keys[j] == items@[j].item_key@);
                }
            }
            if super::projection::commit_fault(commit) is None {
                assert forall|i: int, j: int| 0 <= i < j < items@.len() implies (
                #[trigger] items@[i]).item_key@ != (#[trigger] items@[j]).item_key@ by {
                    assert(keys[i] != keys[j]);
                }
            }
            if forall|i: int|
                0 <= i < items@.len() ==> !crate::text::blank((#[trigger] items@[i]).item_key@)
                    && !crate::text::blank(items@[i].owner_key@) && !crate::text::blank(
                    items@[i].sort_key@,
                ) {
                assert(super::projection::all_complete(items@));
            }
            if super::projection::commit_fault(commit) is None {
                assert forall|i: int| 0 <= i < items@.len() implies !crate::text::blank(
                    (#[trigger] items@[i]).item_key@,
                ) && !crate::text::blank(items@[i].owner_key@) && !crate::text::blank(
                    items@[i].sort_key@,
                ) by {
                    assert(super::projection::complete(items@[i]));
                }
            }
        },
        ProjectionItemCommit::Delta { inserts, updates, deletes } => {
            let a = inserts@.len() as int;
            let b = updates@.len() as int;
            assert forall|i: int| 0 <= i < a implies keys[i] == (#[trigger] inserts@[i]).item_key@ by {}
            assert forall|i: int| 0 <= i < b implies keys[a + i] == (
            #[trigger] updates@[i]).item_key@ by {}
            assert forall|i: int| 0 <= i < deletes@.len() implies keys[a + b + i] == (
            #[trigger] deletes@[i])@ by {}
            if super::projection::commit_fault(commit) is None {
                assert forall|i: int, j: int| 0 <= i < j < a implies (
                #[trigger] inserts@[i]).item_key@ != (#[trigger] inserts@[j]).item_key@ by {
                    assert(keys[i] != keys[j]);
                }
                assert forall|i: int, j: int| 0 <= i < j < b implies (
                #[trigger] updates@[i]).item_key@ != (#[trigger] updates@[j]).item_key@ by {
                    assert(keys[a + i] != keys[a + j]);
                }
                assert forall|i: int, j: int| 0 <= i < j < deletes@.len() implies (
                #[trigger] deletes@[i])@ != (#[trigger] deletes@[j])@ by {
                    assert(keys[a + b + i] != keys[a + b + j]);
                }
                assert forall|i: int, j: int| 0 <= i < a && 0 <= j < b implies (
                #[trigger] inserts@[i]).item_key@ != (#[trigger] updates@[j]).item_key@ by {
                    assert(keys[i] != keys[a + j]);
                }
                assert forall|i: int, j: int| 0 <= i < a && 0 <= j < deletes@.len() implies (
                #[trigger] inserts@[i]).item_key@ != (#[trigger] deletes@[j])@ by {
                    assert(keys[i] != keys[a + b + j]);
                }
                assert forall|i: int, j: int| 0 <= i < b && 0 <= j < deletes@.len() implies (
                #[trigger] updates@[i]).item_key@ != (#[trigger] deletes@[j])@ by {
                    assert(keys[a + i] != keys[a + b + j]);
                }
                assert forall|i: int| 0 <= i < a implies !crate::text::blank(
                    (#[trigger] inserts@[i]).item_key@,
                ) && !crate::text::blank(inserts@[i].owner_key@) && !crate::text::blank(
                    inserts@[i].sort_key@,
                ) by {
                    assert(super::projection::complete(inserts@[i]));
                }
                assert forall|i: int| 0 <= i < b implies !crate::text::blank(
                    (#[trigger] updates@[i]).item_key@,
                ) && !crate::text::blank(updates@[i].owner_key@) && !crate::text::blank(
                    updates@[i].sort_key@,
                ) by {
                    assert(super::projection::complete(updates@[i]));
                }
            }
        },
    }
}

proof fn deletes_need_their_items(items: Map<Seq<char>, ItemView>, keys: Seq<Seq<char>>)
    requires
        forall|i: int, j: int| #![trigger keys[i], keys[j]] 0 <= i < j < keys.len() ==> keys[i] != keys[j],
    ensures
        super::projection::after_deletes(items, keys) is Ok <==> forall|i: int|
            0 <= i < keys.len() ==> items.contains_key(#[trigger] keys[i]),
        super::projection::after_deletes(items, keys) matches Ok(left) ==> forall|k: Seq<char>|
            #[trigger] left.contains_key(k) <==> items.contains_key(k) && !keys.contains(k),
    decreases keys.len(),
{
    if keys.len() > 0 {
        let init = keys.drop_last();
        let last = keys.len() - 1;
        assert forall|i: int, j: int|
            #![trigger init[i], init[j]]
            0 <= i < j < init.len() implies init[i] != init[j] by {
            assert(init[i] == keys[i] && init[j] == keys[j]);
        }
        deletes_need_their_items(items, init);
        assert(keys.last() == keys[last]);
        assert(!init.contains(keys[last])) by {
            if init.contains(keys[last]) {
                let k = choose|k: int| 0 <= k < init.len() && init[k] == keys[last];
                assert(keys[k] == keys[last]);
            }
        }
        assert forall|i: int| 0 <= i < init.len() implies init[i] == #[trigger] keys[i] by {}
        if super::projection::after_deletes(items, keys) is Ok {
            assert forall|i: int| 0 <= i < keys.len() implies items.contains_key(
                #[trigger] keys[i],
            ) by {
                if i < last {
                    assert(items.contains_key(init[i]));
                }
            }
            let left = super::projection::after_deletes(items, keys)->Ok_0;
            assert forall|k: Seq<char>| #[trigger] left.contains_key(k) <==> items.contains_key(k)
                && !keys.contains(k) by {
                if keys.contains(k) && k != keys[last] {
                    let i = choose|i: int| 0 <= i < keys.len() && keys[i] == k;
                    assert(init[i] == k);
                }
                if init.contains(k) {
                    let i = choose|i: int| 0 <= i < init.len() && init[i] == k;
                    assert(keys[i] == k);
                }
            }
        } else if forall|i: int| 0 <= i < keys.len() ==> items.contains_key(#[trigger] keys[i]) {
            assert forall|i: int| 0 <= i < init.len() implies items.contains_key(
                #[trigger] init[i],
            ) by {
                assert(items.contains_key(keys[i]));
            }
            assert(items.contains_key(keys[last]));
        }
    }
}

proof fn updates_need_their_items(items: Map<Seq<char>, ItemView>, updates: Seq<ProjectionItem>)
    ensures
        super::projection::after_updates(items, updates) is Ok <==> forall|i: int|
            0 <= i < updates.len() ==> items.contains_key((#[trigger] updates[i]).item_key@),
        super::projection::after_updates(items, updates) matches Ok(now) ==> forall|k: Seq<char>|
            #[trigger] now.contains_key(k) <==> items.contains_key(k),
    decreases updates.len(),
{
    if updates.len() > 0 {
        let init = updates.drop_last();
        updates_need_their_items(items, init);
        assert(updates.last() == updates[updates.len() - 1]);
        assert forall|i: int| 0 <= i < init.len() implies init[i] == #[trigger] updates[i] by {}
        if forall|i: int|
            0 <= i < updates.len() ==> items.contains_key((#[trigger] updates[i]).item_key@) {
            assert forall|i: int| 0 <= i < init.len() implies items.contains_key(
                (#[trigger] init[i]).item_key@,
            ) by {
                assert(items.contains_key(updates[i].item_key@));
            }
        }
        if super::projection::after_updates(items, updates) is Ok {
            assert forall|i: int| 0 <= i < updates.len() implies items.contains_key(
                (#[trigger] updates[i]).item_key@,
            ) by {
                if i < init.len() {
                    assert(items.contains_key(init[i].item_key@));
                }
            }
        }
    }
}

proof fn inserts_need_free_keys(items: Map<Seq<char>, ItemView>, inserts: Seq<ProjectionItem>)
    requires
        forall|i: int, j: int|
            0 <= i < j < inserts.len() ==> (#[trigger] inserts[i]).item_key@ != (
            #[trigger] inserts[j]).item_key@,
    ensures
        super::projection::after_inserts(items, inserts) is Ok <==> forall|i: int|
            0 <= i < inserts.len() ==> !items.contains_key((#[trigger] inserts[i]).item_key@),
        super::projection::after_inserts(items, inserts) matches Ok(now) ==> forall|k: Seq<char>|
            #[trigger] now.contains_key(k) <==> items.contains_key(k) || exists|i: int|
                0 <= i < inserts.len() && (#[trigger] inserts[i]).item_key@ == k,
    decreases inserts.len(),
{
    if inserts.len() > 0 {
        let init = inserts.drop_last();
        let last = inserts.len() - 1;
        assert forall|i: int| 0 <= i < init.len() implies init[i] == #[trigger] inserts[i] by {}
        assert forall|i: int, j: int| 0 <= i < j < init.len() implies (
        #[trigger] init[i]).item_key@ != (#[trigger] init[j]).item_key@ by {
            assert(inserts[i].item_key@ != inserts[j].item_key@);
        }
        inserts_need_free_keys(items, init);
        assert(inserts.last() == inserts[last]);
        let key = inserts[last].item_key@;
        if super::projection::after_inserts(items, init) is Ok {
            let now = super::projection::after_inserts(items, init)->Ok_0;
            assert(now.contains_key(key) <==> items.contains_key(key)) by {
                if exists|i: int| 0 <= i < init.len() && (#[trigger] init[i]).item_key@ == key {
                    let i = choose|i: int|
                        0 <= i < init.len() && (#[trigger] init[i]).item_key@ == key;
                    assert(inserts[i].item_key@ != inserts[last].item_key@);
                }
            }
        }
        if forall|i: int|
            0 <= i < inserts.len() ==> !items.contains_key((#[trigger] inserts[i]).item_key@) {
            assert forall|i: int| 0 <= i < init.len() implies !items.contains_key(
                (#[trigger] init[i]).item_key@,
            ) by {
                assert(!items.contains_key(inserts[i].item_key@));
            }
            assert(!items.contains_key(inserts[last].item_key@));
        }
        if super::projection::after_inserts(items, inserts) is Ok {
            let done = super::projection::after_inserts(items, inserts)->Ok_0;
            let now = super::projection::after_inserts(items, init)->Ok_0;
            assert forall|i: int| 0 <= i < inserts.len() implies !items.contains_key(
                (#[trigger] inserts[i]).item_key@,
            ) by {
                if i < last {
                    assert(!items.contains_key(init[i].item_key@));
                }
            }
            assert forall|k: Seq<char>| #[trigger] done.contains_key(k) <==> items.contains_key(k)
                || exists|i: int| 0 <= i < inserts.len() && (#[trigger] inserts[i]).item_key@ == k by {
                if now.contains_key(k) && !items.contains_key(k) {
                    let i = choose|i: int|
                        0 <= i < init.len() && (#[trigger] init[i]).item_key@ == k;
                    assert(inserts[i].item_key@ == k);
                }
                if exists|i: int| 0 <= i < inserts.len() && (#[trigger] inserts[i]).item_key@ == k {
                    let i = choose|i: int|
                        0 <= i < inserts.len() && (#[trigger] inserts[i]).item_key@ == k;
                    if i < last {
                        assert(init[i].item_key@ == k);
                        assert(now.contains_key(k));
                    }
                }
            }
        }
    }
}

/// A delta without a fault is carried out just where every item that it deletes or updates is
/// stored and none that it inserts is. Afterwards a key is stored just where it was stored and not
/// deleted, or is inserted.
pub proof fn deltas_need_what_they_change(
    items: Map<Seq<char>, ItemView>,
    inserts: Vec<ProjectionItem>,
    updates: Vec<ProjectionItem>,
    deletes: Vec<String>,
    projection: Seq<char>,
)
    requires
        super::projection::commit_fault(
            ProjectionItemCommit::Delta { inserts, updates, deletes },
        ) is None,
    ensures
        ({
            let done = super::projection::after_commit(
                items,
                ProjectionItemCommit::Delta { inserts, updates, deletes },
                projection,
            );
            &&& done is Ok <==> {
                &&& forall|i: int|
                    0 <= i < deletes@.len() ==> items.contains_key((#[trigger] deletes@[i])@)
                &&& forall|i: int|
                    0 <= i < updates@.len() ==> items.contains_key(
                        (#[trigger] updates@[i]).item_key@,
                    )
                &&& forall|i: int|
                    0 <= i < inserts@.len() ==> !items.contains_key(
                        (#[trigger] inserts@[i]).item_key@,
                    )
            }
            &&& done is Ok ==> forall|k: Seq<char>| #[trigger]
                done->Ok_0.contains_key(k) <==> {
                    ||| items.contains_key(k) && forall|i: int|
                        0 <= i < deletes@.len() ==> (#[trigger] deletes@[i])@ != k
                    ||| exists|i: int|
                        0 <= i < inserts@.len() && (#[trigger] inserts@[i]).item_key@ == k
                }
        }),
{
    let commit = ProjectionItemCommit::Delta { inserts, updates, deletes };
    faulty_commits_are_told(commit);
    let gone = crate::text::strings(deletes@);
    assert forall|i: int| 0 <= i < gone.len() implies gone[i] == (#[trigger] deletes@[i])@ by {}
    assert forall|i: int, j: int|
        #![trigger gone[i], gone[j]]
        0 <= i < j < gone.len() implies gone[i] != gone[j] by {
        assert(deletes@[i]@ != deletes@[j]@);
    }
    deletes_need_their_items(items, gone);
    if forall|i: int| 0 <= i < deletes@.len() ==> items.contains_key((#[trigger] deletes@[i])@) {
        assert forall|i: int| 0 <= i < gone.len() implies items.contains_key(#[trigger] gone[i]) by {
            assert(items.contains_key(deletes@[i]@));
        }
    }
    if super::projection::after_deletes(items, gone) is Ok {
        assert forall|i: int| 0 <= i < deletes@.len() implies items.contains_key(
            (#[trigger] deletes@[i])@,
        ) by {
            assert(items.contains_key(gone[i]));
        }
        let left = super::projection::after_deletes(items, gone)->Ok_0;
        updates_need_their_items(left, updates@);
        assert forall|k: Seq<char>| #[trigger] gone.contains(k) <==> exists|i: int|
            0 <= i < deletes@.len() && (#[trigger] deletes@[i])@ == k by {
            if gone.contains(k) {
                let i = choose|i: int| 0 <= i < gone.len() && gone[i] == k;
                assert(deletes@[i]@ == k);
            }
            if exists|i: int| 0 <= i < deletes@.len() && (#[trigger] deletes@[i])@ == k {
                let i = choose|i: int| 0 <= i < deletes@.len() && (#[trigger] deletes@[i])@ == k;
                assert(gone[i] == k);
            }
        }
        assert forall|i: int| 0 <= i < updates@.len() implies (left.contains_key(
            (#[trigger] updates@[i]).item_key@,
        ) <==> items.contains_key(updates@[i].item_key@)) by {
            let k = updates@[i].item_key@;
            assert(!gone.contains(k));
            assert(left.contains_key(k) <==> items.contains_key(k));
        }
        if super::projection::after_updates(left, updates@) is Ok {
            let now = super::projection::after_updates(left, updates@)->Ok_0;
            inserts_need_free_keys(now, inserts@);
            assert forall|i: int| 0 <= i < inserts@.len() implies (now.contains_key(
                (#[trigger] inserts@[i]).item_key@,
            ) <==> items.contains_key(inserts@[i].item_key@)) by {
                let k = inserts@[i].item_key@;
                assert(!gone.contains(k));
                assert(now.contains_key(k) <==> left.contains_key(k));
                assert(left.contains_key(k) <==> items.contains_key(k));
            }
        }
    }
}

/// Where a cursor leads is read off it: one without a separator names a sort key, any other is cut
/// at its last separator into two keys, neither of them empty.
pub proof fn cursors_are_cut_once(cursor: Seq<char>)
    ensures
        !cursor.contains('\u{1f}') ==> super::projection::page_start(cursor) == Ok::<
            PageStartView,
            PersistenceErrorView,
        >(PageStartView::AfterSortKey(cursor)),
        cursor.contains('\u{1f}') ==> match super::projection::page_start(cursor) {
            Ok(PageStartView::AfterItem(sort_key, item_key)) => {
                &&& cursor == sort_key + seq!['\u{1f}'] + item_key
                &&& sort_key.len() > 0 && item_key.len() > 0
                &&& !item_key.contains('\u{1f}')
            },
            Ok(_) => false,
            Err(_) => cursor.last() == '\u{1f}' || (cursor[0] == '\u{1f}' && !cursor.skip(
                1,
            ).contains('\u{1f}')),
        },
{
    last_separator_is_last(cursor);
    match super::projection::last_separator(cursor) {
        Some(i) => {
            assert(cursor =~= cursor.take(i) + seq!['\u{1f}'] + cursor.skip(i + 1));
        },
        None => {},
    }
}

proof fn last_separator_is_last(cursor: Seq<char>)
    ensures
        match super::projection::last_separator(cursor) {
            Some(i) => 0 <= i < cursor.len() && cursor[i] == '\u{1f}' && !cursor.skip(
                i + 1,
            ).contains('\u{1f}'),
            None => !cursor.contains('\u{1f}'),
        },
    decreases cursor.len(),
{
    if cursor.len() > 0 {
        let init = cursor.drop_last();
        let last = cursor.len() - 1;
        if cursor.last() != '\u{1f}' {
            last_separator_is_last(init);
            match super::projection::last_separator(init) {
                Some(i) => {
                    let rest = cursor.skip(i + 1);
                    if rest.contains('\u{1f}') {
                        let k = choose|k: int| 0 <= k < rest.len() && rest[k] == '\u{1f}';
                        assert(init.skip(i + 1)[k] == '\u{1f}');
                    }
                },
                None => {
                    if cursor.contains('\u{1f}') {
                        let k = choose|k: int| 0 <= k < cursor.len() && cursor[k] == '\u{1f}';
                        assert(init[k] == '\u{1f}');
                    }
                },
            }
        }
    }
}

/// The statement for a page asks for the projection first, then for each owner, and last for no
/// more items than the limit, in the order of sort keys and, among equal ones, of item keys; what
/// it binds are these values, in this order.
pub proof fn pages_are_asked_for_in_order(
    storage: Seq<char>,
    owners: Seq<Seq<char>>,
    prefix: Option<Seq<char>>,
    start: Option<PageStartView>,
    limit: usize,
)
    ensures
        ({
            let query = super::projection::page_query(storage, owners, prefix, start, limit);
            let n = query.values.len();
            let tail = " ORDER BY sort_key ASC, item_key ASC LIMIT ?"@;
            &&& query.values[0] == SqlView::Text(storage)
            &&& forall|i: int|
                0 <= i < owners.len() ==> query.values[i + 1] == SqlView::Text(#[trigger] owners[i])
            &&& query.values.last() == SqlView::Integer(limit as i64)
            &&& query.sql.len() >= tail.len() && query.sql.skip(query.sql.len() - tail.len())
                == tail
            &&& prefix matches Some(p) ==> query.values[owners.len() as int + 1] == SqlView::Text(p + "%"@)
            &&& n == owners.len() + 2 + (if prefix is Some {
                1int
            } else {
                0
            }) + match start {
                None => 0int,
                Some(PageStartView::AfterSortKey(_)) => 1,
                Some(PageStartView::AfterItem(_, _)) => 3,
            }
            &&& start matches Some(PageStartView::AfterSortKey(s)) ==> query.values[n - 2]
                == SqlView::Text(s)
            &&& start matches Some(PageStartView::AfterItem(s, k)) ==> query.values[n - 4]
                == SqlView::Text(s) && query.values[n - 3] == SqlView::Text(s) && query.values[n
                - 2] == SqlView::Text(k)
        }),
{
    let query = super::projection::page_query(storage, owners, prefix, start, limit);
    let n = query.values.len();
    let tail = " ORDER BY sort_key ASC, item_key ASC LIMIT ?"@;
    assert(super::projection::text_values(owners).len() == owners.len());
    assert(query.sql.skip(query.sql.len() - tail.len()) =~= tail);
}

/// A text in a value is a reference of a blob just where it begins as one; references are found in
/// lists and under names at any depth, and nowhere else.
pub proof fn references_are_found_at_any_depth(value: JsonView, blob_ref: Seq<char>)
    ensures
        super::projection::refers_to(value, blob_ref) ==> crate::text::begins(
            blob_ref,
            "blob:sha256:"@,
        ),
        value is Str && crate::text::begins(value->Str_0, "blob:sha256:"@) ==> (
        super::projection::refers_to(value, blob_ref) <==> value->Str_0 == blob_ref),
        value matches JsonView::Array(items) ==> forall|i: int|
            0 <= i < items.len() && super::projection::refers_to(#[trigger] items[i], blob_ref)
                ==> super::projection::refers_to(value, blob_ref),
        value matches JsonView::Object(members) ==> forall|i: int|
            0 <= i < members.len() && super::projection::refers_to(
                (#[trigger] members[i]).1,
                blob_ref,
            ) ==> super::projection::refers_to(value, blob_ref),
    decreases value,
{
    match value {
        JsonView::Array(items) => {
            if super::projection::refers_to(value, blob_ref) {
                let i = choose|i: int|
                    0 <= i < items.len() && super::projection::refers_to(
                        #[trigger] items[i],
                        blob_ref,
                    );
                references_are_found_at_any_depth(items[i], blob_ref);
            }
        },
        JsonView::Object(members) => {
            if super::projection::refers_to(value, blob_ref) {
                let i = choose|i: int|
                    0 <= i < members.len() && super::projection::refers_to(
                        (#[trigger] members[i]).1,
                        blob_ref,
                    );
                references_are_found_at_any_depth(members[i].1, blob_ref);
            }
        },
        _ => {},
    }
}

/// A page is refused just where the projection or an owner has no name, no owner is asked for, no
/// item or more than can be counted, or the cursor leads nowhere.
pub proof fn pages_are_refused_for_a_reason(
    projection: Seq<char>,
    owners: Seq<Seq<char>>,
    after: Option<Seq<char>>,
    limit: usize,
)
    ensures
        super::projection::page_fault(projection, owners, after, limit) is None <==> {
            &&& !crate::text::blank(projection)
            &&& owners.len() > 0
            &&& 0 < limit <= i64::MAX
            &&& forall|i: int| 0 <= i < owners.len() ==> !crate::text::blank(#[trigger] owners[i])
            &&& after matches Some(cursor) ==> super::projection::page_start(cursor) is Ok
        },
{
}

/// The statement for a page names the columns, the projection and the marks of the owners; a prefix
/// of the item key, a sort key or an item that it goes on after add their condition, in this order,
/// and the order and the limit come last.
pub proof fn pages_are_asked_for_in_words(
    storage: Seq<char>,
    owners: Seq<Seq<char>>,
    prefix: Seq<char>,
    sort_key: Seq<char>,
    item_key: Seq<char>,
    limit: usize,
)
    ensures
        ({
            let head = "SELECT item_key, owner_key, sort_key, value_json FROM projection_materialization_items WHERE projection_id = ?1 AND owner_key IN ("@
                + crate::text::join(
                Seq::new(
                    owners.len(),
                    |i: int| "?"@ + crate::text::decimal((i + 2) as nat),
                ),
                ", "@,
            ) + ")"@;
            let tail = " ORDER BY sort_key ASC, item_key ASC LIMIT ?"@;
            let later = Some(PageStartView::AfterSortKey(sort_key));
            let next = Some(PageStartView::AfterItem(sort_key, item_key));
            &&& super::projection::page_query(storage, owners, None, None, limit).sql == head + tail
            &&& super::projection::page_query(storage, owners, Some(prefix), None, limit).sql == head
                + " AND item_key LIKE ?"@ + tail
            &&& super::projection::page_query(storage, owners, None, later, limit).sql == head
                + " AND sort_key > ?"@ + tail
            &&& super::projection::page_query(storage, owners, None, next, limit).sql == head
                + " AND (sort_key > ?"@ + " OR (sort_key = ?"@ + " AND item_key > ?))"@ + tail
            &&& super::projection::page_query(storage, owners, Some(prefix), next, limit).sql == head
                + " AND item_key LIKE ?"@ + " AND (sort_key > ?"@ + " OR (sort_key = ?"@
                + " AND item_key > ?))"@ + tail
        }),
{
    assert(Seq::new(owners.len(), |i: int| "?"@ + crate::text::decimal((i + 2) as nat))
        =~= super::projection::owner_marks(owners.len()));
}

/// Items stand on pages by sort key, and those of one sort key by item key; an item lies after a
/// sort key where its own comes later, and after an item where it stands behind it.
pub proof fn items_stand_by_sort_key_and_item_key(
    a: super::projection::ItemView,
    b: super::projection::ItemView,
)
    ensures
        ({
            let first = super::projection::comes_before(a, b);
            &&& crate::text::precedes(a.sort_key, b.sort_key) ==> first
            &&& a.sort_key == b.sort_key ==> (first <==> crate::text::precedes(
                a.item_key,
                b.item_key,
            ))
            &&& a.sort_key != b.sort_key && !crate::text::precedes(a.sort_key, b.sort_key) ==> !first
            &&& super::projection::lies_after(None, b)
            &&& super::projection::lies_after(Some(PageStartView::AfterSortKey(a.sort_key)), b)
                <==> crate::text::precedes(a.sort_key, b.sort_key)
            &&& super::projection::lies_after(
                Some(PageStartView::AfterItem(a.sort_key, a.item_key)),
                b,
            ) <==> first
        }),
{
    crate::text::precedes_irreflexive(a.sort_key);
}

/// A field of a manifest is dropped just where it is stored and the new manifest does not name it.
pub proof fn fields_are_dropped_that_are_not_named(
    stored: Seq<Seq<char>>,
    manifest: JsonView,
    field: Seq<char>,
)
    ensures
        super::projection::dropped_fields(stored, manifest).contains(field) <==> stored.contains(
            field,
        ) && crate::json::member(manifest, field) is None,
        super::projection::dropped_fields(stored, manifest).len() <= stored.len(),
    decreases stored.len(),
{
    if stored.len() > 0 {
        let rest = stored.drop_last();
        fields_are_dropped_that_are_not_named(rest, manifest, field);
        let before = super::projection::dropped_fields(rest, manifest);
        let now = super::projection::dropped_fields(stored, manifest);
        assert(stored =~= rest.push(stored.last()));
        if before.contains(field) {
            let i = choose|i: int| 0 <= i < before.len() && before[i] == field;
            assert(now[i] == field);
        }
        if rest.contains(field) {
            let i = choose|i: int| 0 <= i < rest.len() && rest[i] == field;
            assert(stored[i] == field);
        }
        if stored.contains(field) && !rest.contains(field) {
            let i = choose|i: int| 0 <= i < stored.len() && stored[i] == field;
            if i < rest.len() {
                assert(rest[i] == field);
            }
            assert(stored.last() == field);
            if crate::json::member(manifest, field) is None {
                assert(now[now.len() - 1] == field);
            }
        }
        if now.contains(field) && !before.contains(field) {
            let i = choose|i: int| 0 <= i < now.len() && now[i] == field;
            if i < before.len() {
                assert(before[i] == field);
            }
            assert(stored[stored.len() - 1] == field);
        }
    }
}

/// A delta that cannot be carried out is told what it needs, of which item, and in which projection:
/// an item that it deletes first, then one that it updates, then one that it inserts.
pub proof fn refused_deltas_are_told(
    items: Map<Seq<char>, ItemView>,
    inserts: Vec<ProjectionItem>,
    updates: Vec<ProjectionItem>,
    deletes: Vec<String>,
    projection: Seq<char>,
)
    ensures
        ({
            let told = super::projection::after_commit(
                items,
                ProjectionItemCommit::Delta { inserts, updates, deletes },
                projection,
            );
            let left = super::projection::after_deletes(items, crate::text::strings(deletes@));
            let now = super::projection::after_updates(left->Ok_0, updates@);
            let done = super::projection::after_inserts(now->Ok_0, inserts@);
            &&& left matches Err(key) ==> told == Err::<
                Map<Seq<char>, ItemView>,
                PersistenceErrorView,
            >(
                PersistenceErrorView::SchemaInvariant(
                    "projection item delta "@ + "delete requires existing"@ + " item_key "@ + key
                        + " for "@ + projection,
                ),
            )
            &&& left is Ok ==> (now matches Err(key) ==> told == Err::<
                Map<Seq<char>, ItemView>,
                PersistenceErrorView,
            >(
                PersistenceErrorView::SchemaInvariant(
                    "projection item delta "@ + "update requires existing"@ + " item_key "@ + key
                        + " for "@ + projection,
                ),
            ))
            &&& left is Ok && now is Ok ==> (done matches Err(key) ==> told == Err::<
                Map<Seq<char>, ItemView>,
                PersistenceErrorView,
            >(
                PersistenceErrorView::SchemaInvariant(
                    "projection item delta "@ + "insert requires absent"@ + " item_key "@ + key
                        + " for "@ + projection,
                ),
            ))
        }),
{
}

/// The first item that a delta updates and that is not stored is told, and the first that it inserts
/// and that is.
pub proof fn the_first_item_in_the_way_is_told(
    items: Map<Seq<char>, ItemView>,
    list: Seq<ProjectionItem>,
    n: int,
)
    requires
        0 <= n < list.len(),
    ensures
        !items.contains_key(list[n].item_key@) && (forall|i: int|
            0 <= i < n ==> items.contains_key((#[trigger] list[i]).item_key@))
            ==> super::projection::after_updates(items, list) == Err::<
            Map<Seq<char>, ItemView>,
            Seq<char>,
        >(list[n].item_key@),
        items.contains_key(list[n].item_key@) && (forall|i: int|
            0 <= i < n ==> !items.contains_key((#[trigger] list[i]).item_key@)) && (forall|
            i: int,
            j: int,
        |
            0 <= i < j < n ==> (#[trigger] list[i]).item_key@ != (#[trigger] list[j]).item_key@)
            ==> super::projection::after_inserts(items, list) == Err::<
            Map<Seq<char>, ItemView>,
            Seq<char>,
        >(list[n].item_key@),
    decreases list.len(),
{
    let rest = list.drop_last();
    assert(forall|i: int| 0 <= i < rest.len() ==> #[trigger] rest[i] == list[i]);
    if n < rest.len() {
        the_first_item_in_the_way_is_told(items, rest, n);
        assert(rest[n] == list[n]);
        if forall|i: int| 0 <= i < n ==> items.contains_key((#[trigger] list[i]).item_key@) {
            assert forall|i: int| 0 <= i < n implies items.contains_key(
                (#[trigger] rest[i]).item_key@,
            ) by {
                assert(items.contains_key(list[i].item_key@));
            }
        }
        if forall|i: int| 0 <= i < n ==> !items.contains_key((#[trigger] list[i]).item_key@) {
            assert forall|i: int| 0 <= i < n implies !items.contains_key(
                (#[trigger] rest[i]).item_key@,
            ) by {
                assert(!items.contains_key(list[i].item_key@));
            }
        }
        if forall|i: int, j: int|
            0 <= i < j < n ==> (#[trigger] list[i]).item_key@ != (#[trigger] list[j]).item_key@ {
            assert forall|i: int, j: int| 0 <= i < j < n implies (#[trigger] rest[i]).item_key@ != (
            #[trigger] rest[j]).item_key@ by {
                assert(list[i].item_key@ != list[j].item_key@);
            }
        }
    } else {
        if forall|i: int| 0 <= i < n ==> items.contains_key((#[trigger] list[i]).item_key@) {
            updated_keys_stay(items, rest);
        }
        if (forall|i: int| 0 <= i < n ==> !items.contains_key((#[trigger] list[i]).item_key@))
            && (forall|i: int, j: int|
            0 <= i < j < n ==> (#[trigger] list[i]).item_key@ != (#[trigger] list[j]).item_key@) {
            assert forall|i: int, j: int| 0 <= i < j < rest.len() implies (
            #[trigger] rest[i]).item_key@ != (#[trigger] rest[j]).item_key@ by {
                assert(list[i].item_key@ != list[j].item_key@);
            }
            inserted_keys_join(items, rest);
        }
    }
}

proof fn updated_keys_stay(items: Map<Seq<char>, ItemView>, list: Seq<ProjectionItem>)
    requires
        forall|i: int| 0 <= i < list.len() ==> items.contains_key((#[trigger] list[i]).item_key@),
    ensures
        super::projection::after_updates(items, list) is Ok,
        super::projection::after_updates(items, list)->Ok_0.dom() == items.dom(),
    decreases list.len(),
{
    if list.len() > 0 {
        let rest = list.drop_last();
        assert forall|i: int| 0 <= i < rest.len() implies items.contains_key(
            (#[trigger] rest[i]).item_key@,
        ) by {
            assert(items.contains_key(list[i].item_key@));
        }
        updated_keys_stay(items, rest);
        assert(items.contains_key(list[list.len() - 1].item_key@));
        let now = super::projection::after_updates(items, rest)->Ok_0;
        assert(now.dom().contains(list.last().item_key@));
        assert(super::projection::after_updates(items, list)->Ok_0.dom() =~= items.dom());
    }
}

proof fn inserted_keys_join(items: Map<Seq<char>, ItemView>, list: Seq<ProjectionItem>)
    requires
        forall|i: int| 0 <= i < list.len() ==> !items.contains_key((#[trigger] list[i]).item_key@),
        forall|i: int, j: int|
            0 <= i < j < list.len() ==> (#[trigger] list[i]).item_key@ != (
            #[trigger] list[j]).item_key@,
    ensures
        super::projection::after_inserts(items, list) is Ok,
        forall|key: Seq<char>| #[trigger]
            super::projection::after_inserts(items, list)->Ok_0.contains_key(key)
                <==> items.contains_key(key) || exists|i: int|
                0 <= i < list.len() && (#[trigger] list[i]).item_key@ == key,
    decreases list.len(),
{
    if list.len() > 0 {
        let rest = list.drop_last();
        assert(forall|i: int| 0 <= i < rest.len() ==> #[trigger] rest[i] == list[i]);
        assert forall|i: int| 0 <= i < rest.len() implies !items.contains_key(
            (#[trigger] rest[i]).item_key@,
        ) by {
            assert(!items.contains_key(list[i].item_key@));
        }
        assert forall|i: int, j: int| 0 <= i < j < rest.len() implies (
        #[trigger] rest[i]).item_key@ != (#[trigger] rest[j]).item_key@ by {
            assert(list[i].item_key@ != list[j].item_key@);
        }
        inserted_keys_join(items, rest);
        let before = super::projection::after_inserts(items, rest)->Ok_0;
        let last = list[list.len() - 1];
        assert(last == list.last());
        assert(!items.contains_key(last.item_key@));
        if before.contains_key(last.item_key@) {
            let i = choose|i: int|
                0 <= i < rest.len() && (#[trigger] rest[i]).item_key@ == last.item_key@;
            assert(list[i].item_key@ != list[list.len() - 1].item_key@);
        }
        let now = super::projection::after_inserts(items, list)->Ok_0;
        assert forall|key: Seq<char>| #[trigger] now.contains_key(key) <==> items.contains_key(key)
            || exists|i: int| 0 <= i < list.len() && (#[trigger] list[i]).item_key@ == key by {
            if before.contains_key(key) && !items.contains_key(key) {
                let i = choose|i: int| 0 <= i < rest.len() && (#[trigger] rest[i]).item_key@ == key;
                assert(list[i].item_key@ == key);
            }
            if exists|i: int| 0 <= i < list.len() && (#[trigger] list[i]).item_key@ == key {
                let i = choose|i: int| 0 <= i < list.len() && (#[trigger] list[i]).item_key@ == key;
                if i < rest.len() {
                    assert(rest[i].item_key@ == key);
                    assert(before.contains_key(key));
                }
            }
        }
    }
}

} // verus!
