//! Items of projections: what a commit may hold, what it does to the items that are there, and how
//! pages of items are asked for.

use vstd::prelude::*;
use vstd::string::*;

use crate::domain::ProjectionRef;
use crate::json::{Json, JsonView};
use crate::text::{
    chars_of, decimal_text, is_blank, join_strings, sorted_set, starts_with, str_eq, text2, text3,
    text4,
};
use crate::text_map::TextMap;

use super::error::{
    projection_item_validation_error, violation, PersistenceError, PersistenceErrorView,
    StorageError, StorageErrorView,
};
use super::sql::{Query, QueryView, SqlValue, SqlView};

verus! {

/// An item of a projection.
#[derive(Debug)]
pub struct ProjectionItem {
    pub item_key: String,
    pub owner_key: String,
    pub sort_key: String,
    pub value: Json,
}

/// What an item says.
pub struct ItemView {
    pub item_key: Seq<char>,
    pub owner_key: Seq<char>,
    pub sort_key: Seq<char>,
    pub value: JsonView,
}

impl View for ProjectionItem {
    type V = ItemView;

    open spec fn view(&self) -> ItemView {
        ItemView {
            item_key: self.item_key@,
            owner_key: self.owner_key@,
            sort_key: self.sort_key@,
            value: self.value@,
        }
    }
}

impl Clone for ProjectionItem {
    fn clone(&self) -> (r: ProjectionItem)
        ensures
            r@ == self@,
    {
        ProjectionItem {
            item_key: self.item_key.clone(),
            owner_key: self.owner_key.clone(),
            sort_key: self.sort_key.clone(),
            value: self.value.copy(),
        }
    }
}

/// What changes in the items of a projection.
#[derive(Debug)]
pub enum ProjectionItemCommit {
    /// The given items take the place of all that are there.
    Replace { items: Vec<ProjectionItem> },
    /// Some items come, some change and some go.
    Delta { inserts: Vec<ProjectionItem>, updates: Vec<ProjectionItem>, deletes: Vec<String> },
}

/// The keys of items.
pub open spec fn item_keys(items: Seq<ProjectionItem>) -> Seq<Seq<char>> {
    items.map_values(|item: ProjectionItem| item.item_key@)
}

/// The keys that a commit names, those of inserts before those of updates and of deletes.
pub open spec fn commit_keys(commit: ProjectionItemCommit) -> Seq<Seq<char>> {
    match commit {
        ProjectionItemCommit::Replace { items } => item_keys(items@),
        ProjectionItemCommit::Delta { inserts, updates, deletes } => item_keys(inserts@)
            + item_keys(updates@) + crate::text::strings(deletes@),
    }
}

/// Whether an item has a key, an owner and a place.
pub open spec fn complete(item: ProjectionItem) -> bool {
    &&& !crate::text::blank(item.item_key@)
    &&& !crate::text::blank(item.owner_key@)
    &&& !crate::text::blank(item.sort_key@)
}

/// Whether all items have a key, an owner and a place.
pub open spec fn all_complete(items: Seq<ProjectionItem>) -> bool {
    forall|i: int| 0 <= i < items.len() ==> complete(#[trigger] items[i])
}

/// Whether no text occurs twice.
pub open spec fn all_different(texts: Seq<Seq<char>>) -> bool {
    forall|i: int, j: int|
        #![trigger texts[i], texts[j]]
        0 <= i < j < texts.len() ==> texts[i] != texts[j]
}

/// Whether the items of a commit are complete and its deletes name something.
pub open spec fn complete_commit(commit: ProjectionItemCommit) -> bool {
    match commit {
        ProjectionItemCommit::Replace { items } => all_complete(items@),
        ProjectionItemCommit::Delta { inserts, updates, deletes } => {
            &&& all_complete(inserts@)
            &&& all_complete(updates@)
            &&& forall|i: int|
                0 <= i < deletes@.len() ==> !crate::text::blank((#[trigger] deletes@[i])@)
        },
    }
}

/// Whether a commit can be carried out at all: it is complete and names no key twice.
pub open spec fn valid_commit(commit: ProjectionItemCommit) -> bool {
    complete_commit(commit) && all_different(commit_keys(commit))
}

/// What is wrong with a commit.
pub open spec fn commit_fault(commit: ProjectionItemCommit) -> Option<StorageErrorView> {
    if !complete_commit(commit) {
        Some(incomplete_error())
    } else if !all_different(commit_keys(commit)) {
        Some(repeated_error())
    } else {
        None
    }
}

/// What an incomplete item is refused with.
pub open spec fn incomplete_error() -> StorageErrorView {
    StorageErrorView::Invariant("projection item keys must not be blank"@)
}

/// What a repeated key is refused with.
pub open spec fn repeated_error() -> StorageErrorView {
    StorageErrorView::Invariant("projection item commit names an item_key twice"@)
}

fn items_complete(items: &Vec<ProjectionItem>) -> (r: bool)
    ensures
        r == all_complete(items@),
{
    let mut i: usize = 0;
    while i < items.len()
        invariant
            i <= items@.len(),
            forall|j: int| 0 <= j < i ==> complete(#[trigger] items@[j]),
        decreases items@.len() - i,
    {
        if is_blank(items[i].item_key.as_str()) || is_blank(items[i].owner_key.as_str())
            || is_blank(items[i].sort_key.as_str()) {
            assert(!complete(items@[i as int]));
            return false;
        }
        i = i + 1;
    }
    true
}

fn push_keys(keys: &mut Vec<String>, items: &Vec<ProjectionItem>)
    ensures
        crate::text::strings(final(keys)@) == crate::text::strings(old(keys)@) + item_keys(items@),
{
    let ghost before = crate::text::strings(keys@);
    let ghost all = item_keys(items@);
    let mut i: usize = 0;
    assert(crate::text::strings(keys@) =~= before + all.take(0));
    while i < items.len()
        invariant
            i <= items@.len(),
            all == item_keys(items@),
            crate::text::strings(keys@) == before + all.take(i as int),
        decreases items@.len() - i,
    {
        let ghost now = keys@;
        keys.push(items[i].item_key.clone());
        proof {
            assert(crate::text::strings(keys@) =~= crate::text::strings(now).push(all[i as int]));
            assert(all.take(i + 1) =~= all.take(i as int).push(all[i as int]));
            assert(crate::text::strings(keys@) =~= before + all.take(i + 1));
        }
        i = i + 1;
    }
    assert(all.take(i as int) =~= all);
}

fn texts_differ(texts: &Vec<String>) -> (r: bool)
    ensures
        r == all_different(crate::text::strings(texts@)),
{
    let ghost all = crate::text::strings(texts@);
    let mut i: usize = 0;
    while i < texts.len()
        invariant
            i <= texts@.len(),
            all == crate::text::strings(texts@),
            forall|a: int, b: int|
                #![trigger all[a], all[b]]
                0 <= a < b < i ==> all[a] != all[b],
        decreases texts@.len() - i,
    {
        let mut j: usize = 0;
        while j < i
            invariant
                j <= i < texts@.len(),
                all == crate::text::strings(texts@),
                forall|a: int| 0 <= a < j ==> #[trigger] all[a] != all[i as int],
            decreases i - j,
        {
            assert(all[j as int] == texts@[j as int]@);
            assert(all[i as int] == texts@[i as int]@);
            if str_eq(texts[j].as_str(), texts[i].as_str()) {
                assert(all[j as int] == all[i as int]);
                return false;
            }
            j = j + 1;
        }
        i = i + 1;
    }
    true
}

impl ProjectionItemCommit {
    /// Checks whether the commit can be carried out at all.
    pub fn validate(&self) -> (r: Result<(), StorageError>)
        ensures
            match r {
                Ok(()) => commit_fault(*self) is None,
                Err(e) => commit_fault(*self) == Some(e@),
            },
    {
        let mut keys: Vec<String> = Vec::new();
        assert(crate::text::strings(keys@) =~= Seq::empty());
        match self {
            ProjectionItemCommit::Replace { items } => {
                if !items_complete(items) {
                    return Err(
                        StorageError::Invariant("projection item keys must not be blank".to_owned()),
                    );
                }
                push_keys(&mut keys, items);
                assert(crate::text::strings(keys@) =~= commit_keys(*self));
            },
            ProjectionItemCommit::Delta { inserts, updates, deletes } => {
                if !items_complete(inserts) || !items_complete(updates) {
                    return Err(
                        StorageError::Invariant("projection item keys must not be blank".to_owned()),
                    );
                }
                push_keys(&mut keys, inserts);
                push_keys(&mut keys, updates);
                let ghost before = crate::text::strings(keys@);
                let ghost gone = crate::text::strings(deletes@);
                let mut i: usize = 0;
                assert(crate::text::strings(keys@) =~= before + gone.take(0));
                while i < deletes.len()
                    invariant
                        i <= deletes@.len(),
                        gone == crate::text::strings(deletes@),
                        *self matches ProjectionItemCommit::Delta { deletes: own, .. } && own
                            == *deletes,
                        crate::text::strings(keys@) == before + gone.take(i as int),
                        forall|j: int|
                            0 <= j < i ==> !crate::text::blank((#[trigger] deletes@[j])@),
                    decreases deletes@.len() - i,
                {
                    if is_blank(deletes[i].as_str()) {
                        assert(crate::text::blank(deletes@[i as int]@));
                        return Err(
                            StorageError::Invariant(
                                "projection item keys must not be blank".to_owned(),
                            ),
                        );
                    }
                    let ghost now = keys@;
                    keys.push(deletes[i].clone());
                    proof {
                        assert(crate::text::strings(keys@) =~= crate::text::strings(now).push(
                            gone[i as int],
                        ));
                        assert(gone.take(i + 1) =~= gone.take(i as int).push(gone[i as int]));
                        assert(crate::text::strings(keys@) =~= before + gone.take(i + 1));
                    }
                    i = i + 1;
                }
                assert(gone.take(i as int) =~= gone);
                assert(crate::text::strings(keys@) =~= commit_keys(*self));
            },
        }
        if !texts_differ(&keys) {
            return Err(
                StorageError::Invariant(
                    "projection item commit names an item_key twice".to_owned(),
                ),
            );
        }
        Ok(())
    }
}

/// The items of one projection by their keys.
#[derive(Debug)]
pub struct ProjectionItems {
    pub items: TextMap<ProjectionItem>,
}

/// Items by their keys.
pub open spec fn by_key(items: Seq<ProjectionItem>) -> Map<Seq<char>, ItemView>
    decreases items.len(),
{
    if items.len() == 0 {
        Map::empty()
    } else {
        by_key(items.drop_last()).insert(items.last().item_key@, items.last()@)
    }
}

impl View for ProjectionItems {
    type V = Map<Seq<char>, ItemView>;

    open spec fn view(&self) -> Map<Seq<char>, ItemView> {
        self.items@.map_values(|item: ProjectionItem| item@)
    }
}

/// Items without those of some keys, or the first key that has none.
pub open spec fn after_deletes(items: Map<Seq<char>, ItemView>, keys: Seq<Seq<char>>) -> Result<
    Map<Seq<char>, ItemView>,
    Seq<char>,
>
    decreases keys.len(),
{
    if keys.len() == 0 {
        Ok(items)
    } else {
        match after_deletes(items, keys.drop_last()) {
            Err(key) => Err(key),
            Ok(left) => if left.contains_key(keys.last()) {
                Ok(left.remove(keys.last()))
            } else {
                Err(keys.last())
            },
        }
    }
}

/// Items with some of them changed, or the first key that has none.
pub open spec fn after_updates(
    items: Map<Seq<char>, ItemView>,
    updates: Seq<ProjectionItem>,
) -> Result<Map<Seq<char>, ItemView>, Seq<char>>
    decreases updates.len(),
{
    if updates.len() == 0 {
        Ok(items)
    } else {
        match after_updates(items, updates.drop_last()) {
            Err(key) => Err(key),
            Ok(now) => {
                let item = updates.last();
                if now.contains_key(item.item_key@) {
                    Ok(now.insert(item.item_key@, item@))
                } else {
                    Err(item.item_key@)
                }
            },
        }
    }
}

/// Items with some more, or the first key that is there already.
pub open spec fn after_inserts(
    items: Map<Seq<char>, ItemView>,
    inserts: Seq<ProjectionItem>,
) -> Result<Map<Seq<char>, ItemView>, Seq<char>>
    decreases inserts.len(),
{
    if inserts.len() == 0 {
        Ok(items)
    } else {
        match after_inserts(items, inserts.drop_last()) {
            Err(key) => Err(key),
            Ok(now) => {
                let item = inserts.last();
                if now.contains_key(item.item_key@) {
                    Err(item.item_key@)
                } else {
                    Ok(now.insert(item.item_key@, item@))
                }
            },
        }
    }
}

/// What a key that a delta needs or must not have is refused with.
pub open spec fn delta_error(
    what: Seq<char>,
    key: Seq<char>,
    projection: Seq<char>,
) -> PersistenceErrorView {
    super::error::broken(
        "projection item delta "@ + what + " item_key "@ + key + " for "@ + projection,
    )
}

/// The items after a commit, or why it is refused: deletes come before updates and those before
/// inserts; the first item that is missing, or there already, decides.
pub open spec fn after_commit(
    items: Map<Seq<char>, ItemView>,
    commit: ProjectionItemCommit,
    projection: Seq<char>,
) -> Result<Map<Seq<char>, ItemView>, PersistenceErrorView> {
    match commit {
        ProjectionItemCommit::Replace { items } => Ok(by_key(items@)),
        ProjectionItemCommit::Delta { inserts, updates, deletes } => match after_deletes(
            items,
            crate::text::strings(deletes@),
        ) {
            Err(key) => Err(delta_error("delete requires existing"@, key, projection)),
            Ok(left) => match after_updates(left, updates@) {
                Err(key) => Err(delta_error("update requires existing"@, key, projection)),
                Ok(now) => match after_inserts(now, inserts@) {
                    Err(key) => Err(delta_error("insert requires absent"@, key, projection)),
                    Ok(done) => Ok(done),
                },
            },
        },
    }
}

proof fn deletes_stay_refused(
    items: Map<Seq<char>, ItemView>,
    keys: Seq<Seq<char>>,
    n: int,
)
    requires
        0 <= n <= keys.len(),
        after_deletes(items, keys.take(n)) is Err,
    ensures
        after_deletes(items, keys) == after_deletes(items, keys.take(n)),
    decreases keys.len() - n,
{
    if n == keys.len() {
        assert(keys.take(n) =~= keys);
    } else {
        assert(keys.take(n + 1).drop_last() =~= keys.take(n));
        deletes_stay_refused(items, keys, n + 1);
    }
}

proof fn updates_stay_refused(
    items: Map<Seq<char>, ItemView>,
    updates: Seq<ProjectionItem>,
    n: int,
)
    requires
        0 <= n <= updates.len(),
        after_updates(items, updates.take(n)) is Err,
    ensures
        after_updates(items, updates) == after_updates(items, updates.take(n)),
    decreases updates.len() - n,
{
    if n == updates.len() {
        assert(updates.take(n) =~= updates);
    } else {
        assert(updates.take(n + 1).drop_last() =~= updates.take(n));
        updates_stay_refused(items, updates, n + 1);
    }
}

proof fn inserts_stay_refused(
    items: Map<Seq<char>, ItemView>,
    inserts: Seq<ProjectionItem>,
    n: int,
)
    requires
        0 <= n <= inserts.len(),
        after_inserts(items, inserts.take(n)) is Err,
    ensures
        after_inserts(items, inserts) == after_inserts(items, inserts.take(n)),
    decreases inserts.len() - n,
{
    if n == inserts.len() {
        assert(inserts.take(n) =~= inserts);
    } else {
        assert(inserts.take(n + 1).drop_last() =~= inserts.take(n));
        inserts_stay_refused(items, inserts, n + 1);
    }
}

fn delta_refusal(what: &str, key: &str, projection: &str) -> (r: PersistenceError)
    ensures
        r@ == delta_error(what@, key@, projection@),
{
    let head = text3("projection item delta ", what, " item_key ");
    PersistenceError::SchemaInvariant(text4(head.as_str(), key, " for ", projection))
}

impl ProjectionItems {
    /// No items.
    pub fn new() -> (r: ProjectionItems)
        ensures
            r@ == Map::<Seq<char>, ItemView>::empty(),
    {
        let r = ProjectionItems { items: TextMap::new() };
        assert(r@ =~= Map::<Seq<char>, ItemView>::empty());
        r
    }

    fn put(&mut self, item: &ProjectionItem)
        ensures
            final(self)@ == old(self)@.insert(item.item_key@, item@),
    {
        let ghost before = self@;
        self.items.insert(item.item_key.as_str(), item.clone());
        assert(self@ =~= before.insert(item.item_key@, item@));
    }

    fn take_out(&mut self, key: &str)
        ensures
            final(self)@ == old(self)@.remove(key@),
    {
        let ghost before = self@;
        let _ = self.items.remove(key);
        assert(self@ =~= before.remove(key@));
    }

    /// Whether there is an item of a key.
    pub fn contains(&self, key: &str) -> (r: bool)
        ensures
            r == self@.contains_key(key@),
    {
        self.items.contains_key(key)
    }

    /// The item of a key.
    pub fn get(&self, key: &str) -> (r: Option<&ProjectionItem>)
        ensures
            match r {
                Some(item) => self@.contains_key(key@) && self@[key@] == item@,
                None => !self@.contains_key(key@),
            },
    {
        self.items.get(key)
    }

    /// The items after a commit, or why it is refused; the given items stay as they are.
    pub fn committed(&self, commit: &ProjectionItemCommit, projection: &str) -> (r: Result<
        ProjectionItems,
        PersistenceError,
    >)
        ensures
            (match r {
                Ok(items) => Ok(items@),
                Err(e) => Err(e@),
            }) == after_commit(self@, *commit, projection@),
    {
        match commit {
            ProjectionItemCommit::Replace { items } => {
                let mut now = ProjectionItems::new();
                let mut i: usize = 0;
                while i < items.len()
                    invariant
                        i <= items@.len(),
                        now@ == by_key(items@.take(i as int)),
                    decreases items@.len() - i,
                {
                    assert(items@.take(i + 1).drop_last() =~= items@.take(i as int));
                    now.put(&items[i]);
                    i = i + 1;
                }
                assert(items@.take(i as int) =~= items@);
                Ok(now)
            },
            ProjectionItemCommit::Delta { inserts, updates, deletes } => {
                let mut now = self.copy();
                let ghost given = self@;
                let ghost keys = crate::text::strings(deletes@);
                let mut i: usize = 0;
                while i < deletes.len()
                    invariant
                        i <= deletes@.len(),
                        *commit matches ProjectionItemCommit::Delta { inserts: a, updates: b, deletes: c } && a
                            == *inserts && b == *updates && c == *deletes,
                        given == self@,
                        keys == crate::text::strings(deletes@),
                        after_deletes(given, keys.take(i as int)) == Ok::<
                            Map<Seq<char>, ItemView>,
                            Seq<char>,
                        >(now@),
                    decreases deletes@.len() - i,
                {
                    proof {
                        assert(keys.take(i + 1).drop_last() =~= keys.take(i as int));
                        assert(keys.take(i + 1).last() == deletes@[i as int]@);
                    }
                    if !now.contains(deletes[i].as_str()) {
                        proof {
                            deletes_stay_refused(given, keys, i + 1);
                        }
                        return Err(
                            delta_refusal(
                                "delete requires existing",
                                deletes[i].as_str(),
                                projection,
                            ),
                        );
                    }
                    now.take_out(deletes[i].as_str());
                    i = i + 1;
                }
                assert(keys.take(i as int) =~= keys);
                let ghost left = now@;
                let mut j: usize = 0;
                while j < updates.len()
                    invariant
                        j <= updates@.len(),
                        *commit matches ProjectionItemCommit::Delta { inserts: a, updates: b, deletes: c } && a
                            == *inserts && b == *updates && c == *deletes,
                        given == self@,
                        keys == crate::text::strings(deletes@),
                        after_deletes(given, keys) == Ok::<Map<Seq<char>, ItemView>, Seq<char>>(
                            left,
                        ),
                        after_updates(left, updates@.take(j as int)) == Ok::<
                            Map<Seq<char>, ItemView>,
                            Seq<char>,
                        >(now@),
                    decreases updates@.len() - j,
                {
                    assert(updates@.take(j + 1).drop_last() =~= updates@.take(j as int));
                    if !now.contains(updates[j].item_key.as_str()) {
                        proof {
                            updates_stay_refused(left, updates@, j + 1);
                        }
                        return Err(
                            delta_refusal(
                                "update requires existing",
                                updates[j].item_key.as_str(),
                                projection,
                            ),
                        );
                    }
                    now.put(&updates[j]);
                    j = j + 1;
                }
                assert(updates@.take(j as int) =~= updates@);
                let ghost changed = now@;
                let mut k: usize = 0;
                while k < inserts.len()
                    invariant
                        k <= inserts@.len(),
                        *commit matches ProjectionItemCommit::Delta { inserts: a, updates: b, deletes: c } && a
                            == *inserts && b == *updates && c == *deletes,
                        given == self@,
                        keys == crate::text::strings(deletes@),
                        after_deletes(given, keys) == Ok::<Map<Seq<char>, ItemView>, Seq<char>>(
                            left,
                        ),
                        after_updates(left, updates@) == Ok::<Map<Seq<char>, ItemView>, Seq<char>>(
                            changed,
                        ),
                        after_inserts(changed, inserts@.take(k as int)) == Ok::<
                            Map<Seq<char>, ItemView>,
                            Seq<char>,
                        >(now@),
                    decreases inserts@.len() - k,
                {
                    assert(inserts@.take(k + 1).drop_last() =~= inserts@.take(k as int));
                    if now.contains(inserts[k].item_key.as_str()) {
                        proof {
                            inserts_stay_refused(changed, inserts@, k + 1);
                        }
                        return Err(
                            delta_refusal(
                                "insert requires absent",
                                inserts[k].item_key.as_str(),
                                projection,
                            ),
                        );
                    }
                    now.put(&inserts[k]);
                    k = k + 1;
                }
                assert(inserts@.take(k as int) =~= inserts@);
                Ok(now)
            },
        }
    }

    /// The same items in a table of their own.
    pub fn copy(&self) -> (r: ProjectionItems)
        ensures
            r@ == self@,
    {
        let entries = self.items.entries();
        let ghost all = entries@;
        let mut now = ProjectionItems::new();
        let mut i: usize = 0;
        while i < entries.len()
            invariant
                i <= entries@.len(),
                all == entries@,
                self.items@ == crate::text_map::entry_map(all),
                crate::text::ascending(crate::text_map::entry_keys(all)),
                forall|k: Seq<char>|
                    now@.contains_key(k) <==> exists|j: int| 0 <= j < i && #[trigger] all[j].0@ == k,
                forall|j: int|
                    0 <= j < i ==> now@.contains_key(#[trigger] all[j].0@) && now@[all[j].0@]
                        == all[j].1@,
            decreases entries@.len() - i,
        {
            let ghost before = now@;
            let ghost table = now.items@;
            now.items.insert(entries[i].0.as_str(), entries[i].1.clone());
            proof {
                let key = all[i as int].0@;
                assert(now@ =~= before.insert(key, all[i as int].1@));
                assert forall|j: int| 0 <= j < i + 1 implies now@.contains_key(
                    #[trigger] all[j].0@,
                ) && now@[all[j].0@] == all[j].1@ by {
                    if j < i {
                        let keys = crate::text_map::entry_keys(all);
                        assert(keys[j] == all[j].0@ && keys[i as int] == key);
                        assert(crate::text::precedes(keys[j], keys[i as int]));
                        crate::text::precedes_irreflexive(key);
                    }
                }
                assert forall|k: Seq<char>| now@.contains_key(k) implies exists|j: int|
                    0 <= j < i + 1 && #[trigger] all[j].0@ == k by {
                    if k == key {
                        assert(all[i as int].0@ == k);
                    } else {
                        assert(before.contains_key(k));
                        let j = choose|j: int| 0 <= j < i && #[trigger] all[j].0@ == k;
                        assert(all[j].0@ == k);
                    }
                }
            }
            i = i + 1;
        }
        proof {
            assert forall|k: Seq<char>| now@.contains_key(k) == self@.contains_key(k) by {
                let keys = crate::text_map::entry_keys(all);
                if self@.contains_key(k) {
                    assert(keys.contains(k));
                    let j = choose|j: int| 0 <= j < keys.len() && keys[j] == k;
                    assert(all[j].0@ == k);
                }
                if now@.contains_key(k) {
                    let j = choose|j: int| 0 <= j < i && #[trigger] all[j].0@ == k;
                    assert(keys[j] == k);
                }
            }
            assert forall|k: Seq<char>| now@.contains_key(k) implies now@[k] == self@[k] by {
                let j = choose|j: int| 0 <= j < i && #[trigger] all[j].0@ == k;
                crate::text_map::entry_at(all, j);
            }
            assert(now@ =~= self@);
        }
        now
    }
}

/// The items after a commit to a projection, or why it is refused: the projection has to have a
/// name, and the commit has to be one that can be carried out.
pub fn commit_projection_items(
    projection: &ProjectionRef,
    items: &ProjectionItems,
    commit: &ProjectionItemCommit,
) -> (r: Result<ProjectionItems, PersistenceError>)
    ensures
        (match r {
            Ok(now) => Ok(now@),
            Err(e) => Err(e@),
        }) == (if crate::text::blank(projection@) {
            Err(super::error::broken("projection item projection_id must not be blank"@))
        } else {
            match commit_fault(*commit) {
                Some(fault) => Err(super::error::broken(super::error::refusal_text(fault))),
                None => after_commit(items@, *commit, projection@),
            }
        }),
{
    match validate_projection_key(projection) {
        Ok(()) => {},
        Err(e) => {
            return Err(e);
        },
    }
    match commit.validate() {
        Ok(()) => {},
        Err(e) => {
            return Err(projection_item_validation_error(e));
        },
    }
    items.committed(commit, projection.as_str())
}

/// A delta that is carried out holds what it says: what it deletes is gone, what it inserts and
/// updates is there as it was given, and every other item is as it was.
pub proof fn deltas_do_what_they_say(
    items: Map<Seq<char>, ItemView>,
    inserts: Vec<ProjectionItem>,
    updates: Vec<ProjectionItem>,
    deletes: Vec<String>,
    projection: Seq<char>,
    key: Seq<char>,
)
    requires
        valid_commit(ProjectionItemCommit::Delta { inserts, updates, deletes }),
        after_commit(
            items,
            ProjectionItemCommit::Delta { inserts, updates, deletes },
            projection,
        ) is Ok,
    ensures
        ({
            let done = after_commit(
                items,
                ProjectionItemCommit::Delta { inserts, updates, deletes },
                projection,
            )->Ok_0;
            &&& crate::text::strings(deletes@).contains(key) ==> items.contains_key(key)
                && !done.contains_key(key)
            &&& item_keys(inserts@).contains(key) ==> !items.contains_key(key)
                && done.contains_key(key)
            &&& item_keys(updates@).contains(key) ==> items.contains_key(key) && done.contains_key(
                key,
            )
            &&& !commit_keys(
                ProjectionItemCommit::Delta { inserts, updates, deletes },
            ).contains(key) ==> done.contains_key(key) == items.contains_key(key) && (
            items.contains_key(key) ==> done[key] == items[key])
            &&& forall|i: int|
                0 <= i < inserts@.len() ==> done.contains_key(#[trigger] inserts@[i].item_key@)
                    && done[inserts@[i].item_key@] == inserts@[i]@
            &&& forall|i: int|
                0 <= i < updates@.len() ==> done.contains_key(#[trigger] updates@[i].item_key@)
                    && done[updates@[i].item_key@] == updates@[i]@
        }),
{
    let commit = ProjectionItemCommit::Delta { inserts, updates, deletes };
    let gone = crate::text::strings(deletes@);
    let a = item_keys(inserts@);
    let b = item_keys(updates@);
    let keys = commit_keys(commit);
    assert forall|i: int, j: int| 0 <= i < j < a.len() implies a[i] != a[j] by {
        assert(keys[i] == a[i] && keys[j] == a[j]);
    }
    assert forall|i: int, j: int| 0 <= i < j < b.len() implies b[i] != b[j] by {
        assert(keys[a.len() + i] == b[i] && keys[a.len() + j] == b[j]);
    }
    assert forall|i: int, j: int| 0 <= i < j < gone.len() implies gone[i] != gone[j] by {
        assert(keys[a.len() + b.len() + i] == gone[i] && keys[a.len() + b.len() + j] == gone[j]);
    }
    assert forall|i: int, j: int| 0 <= i < a.len() && 0 <= j < b.len() implies a[i] != b[j] by {
        assert(keys[i] == a[i] && keys[a.len() + j] == b[j]);
    }
    assert forall|i: int, j: int| 0 <= i < a.len() && 0 <= j < gone.len() implies a[i] != gone[j] by {
        assert(keys[i] == a[i] && keys[a.len() + b.len() + j] == gone[j]);
    }
    assert forall|i: int, j: int| 0 <= i < b.len() && 0 <= j < gone.len() implies b[i] != gone[j] by {
        assert(keys[a.len() + i] == b[i] && keys[a.len() + b.len() + j] == gone[j]);
    }
    let left = after_deletes(items, gone)->Ok_0;
    let changed = after_updates(left, updates@)->Ok_0;
    let done = after_inserts(changed, inserts@)->Ok_0;
    deletes_remove(items, gone);
    updates_change(left, updates@);
    inserts_add(changed, inserts@);
    assert(keys.contains(key) <==> a.contains(key) || b.contains(key) || gone.contains(key)) by {
        if a.contains(key) {
            let i = choose|i: int| 0 <= i < a.len() && a[i] == key;
            assert(keys[i] == key);
        }
        if b.contains(key) {
            let i = choose|i: int| 0 <= i < b.len() && b[i] == key;
            assert(keys[a.len() + i] == key);
        }
        if gone.contains(key) {
            let i = choose|i: int| 0 <= i < gone.len() && gone[i] == key;
            assert(keys[a.len() + b.len() + i] == key);
        }
    }
    assert forall|i: int| 0 <= i < updates@.len() implies done.contains_key(
        #[trigger] updates@[i].item_key@,
    ) && done[updates@[i].item_key@] == updates@[i]@ by {
        assert(b[i] == updates@[i].item_key@);
        if a.contains(b[i]) {
            let k = choose|k: int| 0 <= k < a.len() && a[k] == b[i];
        }
    }
    assert(done == after_commit(items, commit, projection)->Ok_0);
    if gone.contains(key) {
        let i = choose|i: int| 0 <= i < gone.len() && gone[i] == key;
        assert(items.contains_key(key));
        assert(!left.contains_key(key));
        assert(!changed.contains_key(key));
        if a.contains(key) {
            let j = choose|j: int| 0 <= j < a.len() && a[j] == key;
            assert(false);
        }
        assert(!done.contains_key(key));
    }
    if a.contains(key) {
        let i = choose|i: int| 0 <= i < a.len() && a[i] == key;
        if gone.contains(key) {
            let j = choose|j: int| 0 <= j < gone.len() && gone[j] == key;
            assert(false);
        }
        assert(done.contains_key(inserts@[i].item_key@));
        if items.contains_key(key) {
            assert(left.contains_key(key));
            assert(changed.contains_key(key));
            assert(false);
        }
    }
    if b.contains(key) {
        let i = choose|i: int| 0 <= i < b.len() && b[i] == key;
        assert(changed.contains_key(updates@[i].item_key@));
        assert(left.contains_key(key));
        assert(items.contains_key(key));
        assert(done.contains_key(key));
    }
    if !keys.contains(key) {
        assert(left.contains_key(key) == items.contains_key(key));
        assert(changed.contains_key(key) == left.contains_key(key));
        assert(done.contains_key(key) == changed.contains_key(key));
        if items.contains_key(key) {
            assert(left[key] == items[key]);
            assert(changed[key] == left[key]);
            assert(done[key] == changed[key]);
        }
    }
}

proof fn deletes_remove(items: Map<Seq<char>, ItemView>, keys: Seq<Seq<char>>)
    requires
        after_deletes(items, keys) is Ok,
    ensures
        forall|k: Seq<char>|
            #![trigger after_deletes(items, keys)->Ok_0.contains_key(k)]
            after_deletes(items, keys)->Ok_0.contains_key(k) <==> items.contains_key(k)
                && !keys.contains(k),
        forall|k: Seq<char>|
            #![trigger after_deletes(items, keys)->Ok_0[k]]
            after_deletes(items, keys)->Ok_0.contains_key(k) ==> after_deletes(
                items,
                keys,
            )->Ok_0[k] == items[k],
        forall|k: Seq<char>| #[trigger] keys.contains(k) ==> items.contains_key(k),
    decreases keys.len(),
{
    if keys.len() > 0 {
        let init = keys.drop_last();
        deletes_remove(items, init);
        let left = after_deletes(items, init)->Ok_0;
        assert forall|k: Seq<char>| #[trigger] keys.contains(k) <==> init.contains(k) || k
            == keys.last() by {
            if keys.contains(k) {
                let i = choose|i: int| 0 <= i < keys.len() && keys[i] == k;
                if i < init.len() {
                    assert(init[i] == k);
                }
            }
            if init.contains(k) {
                let i = choose|i: int| 0 <= i < init.len() && init[i] == k;
                assert(keys[i] == k);
            }
            if k == keys.last() {
                assert(keys[keys.len() - 1] == k);
            }
        }
        assert(left.contains_key(keys.last()));
    }
}

proof fn updates_change(items: Map<Seq<char>, ItemView>, updates: Seq<ProjectionItem>)
    requires
        after_updates(items, updates) is Ok,
        forall|i: int, j: int|
            0 <= i < j < item_keys(updates).len() ==> item_keys(updates)[i] != item_keys(
                updates,
            )[j],
    ensures
        ({
            let now = after_updates(items, updates)->Ok_0;
            &&& forall|k: Seq<char>| #[trigger] now.contains_key(k) <==> items.contains_key(k)
            &&& forall|k: Seq<char>|
                !(#[trigger] item_keys(updates).contains(k)) && items.contains_key(k) ==> now[k]
                    == items[k]
            &&& forall|i: int|
                0 <= i < updates.len() ==> now.contains_key(#[trigger] updates[i].item_key@)
                    && now[updates[i].item_key@] == updates[i]@
        }),
    decreases updates.len(),
{
    if updates.len() > 0 {
        let init = updates.drop_last();
        let keys = item_keys(updates);
        assert forall|i: int, j: int| 0 <= i < j < item_keys(init).len() implies item_keys(init)[i]
            != item_keys(init)[j] by {
            assert(item_keys(init)[i] == keys[i] && item_keys(init)[j] == keys[j]);
        }
        updates_change(items, init);
        let before = after_updates(items, init)->Ok_0;
        let now = after_updates(items, updates)->Ok_0;
        let last = updates.last();
        assert forall|k: Seq<char>| !(#[trigger] keys.contains(k)) && items.contains_key(
            k,
        ) implies now[k] == items[k] by {
            assert(k != last.item_key@) by {
                assert(keys[updates.len() - 1] == last.item_key@);
            }
            if item_keys(init).contains(k) {
                let i = choose|i: int| 0 <= i < init.len() && item_keys(init)[i] == k;
                assert(keys[i] == k);
            }
        }
        assert forall|i: int| 0 <= i < updates.len() implies now.contains_key(
            #[trigger] updates[i].item_key@,
        ) && now[updates[i].item_key@] == updates[i]@ by {
            if i < init.len() {
                assert(init[i] == updates[i]);
                assert(keys[i] != keys[updates.len() - 1]);
                assert(keys[i] == updates[i].item_key@);
            }
        }
    }
}

proof fn inserts_add(items: Map<Seq<char>, ItemView>, inserts: Seq<ProjectionItem>)
    requires
        after_inserts(items, inserts) is Ok,
    ensures
        ({
            let now = after_inserts(items, inserts)->Ok_0;
            &&& forall|k: Seq<char>|
                #[trigger] now.contains_key(k) <==> items.contains_key(k) || item_keys(
                    inserts,
                ).contains(k)
            &&& forall|k: Seq<char>| #[trigger]
                items.contains_key(k) ==> now[k] == items[k] && !item_keys(inserts).contains(k)
            &&& forall|i: int|
                0 <= i < inserts.len() ==> now.contains_key(#[trigger] inserts[i].item_key@)
                    && now[inserts[i].item_key@] == inserts[i]@
        }),
    decreases inserts.len(),
{
    if inserts.len() > 0 {
        let init = inserts.drop_last();
        inserts_add(items, init);
        let before = after_inserts(items, init)->Ok_0;
        let now = after_inserts(items, inserts)->Ok_0;
        let keys = item_keys(inserts);
        let last = inserts.last();
        assert forall|k: Seq<char>| #[trigger] keys.contains(k) <==> item_keys(init).contains(k)
            || k == last.item_key@ by {
            if keys.contains(k) {
                let i = choose|i: int| 0 <= i < keys.len() && keys[i] == k;
                if i < init.len() {
                    assert(item_keys(init)[i] == k);
                }
            }
            if item_keys(init).contains(k) {
                let i = choose|i: int| 0 <= i < init.len() && item_keys(init)[i] == k;
                assert(keys[i] == k);
            }
            if k == last.item_key@ {
                assert(keys[inserts.len() - 1] == k);
            }
        }
        assert(!before.contains_key(last.item_key@));
        assert forall|i: int| 0 <= i < inserts.len() implies now.contains_key(
            #[trigger] inserts[i].item_key@,
        ) && now[inserts[i].item_key@] == inserts[i]@ by {
            if i < init.len() {
                assert(init[i] == inserts[i]);
                assert(before.contains_key(init[i].item_key@));
            }
        }
    }
}

/// A projection has to have a name.
pub fn validate_projection_key(projection: &ProjectionRef) -> (r: Result<(), PersistenceError>)
    ensures
        match r {
            Ok(()) => !crate::text::blank(projection@),
            Err(e) => crate::text::blank(projection@) && e@ == super::error::broken(
                "projection item projection_id must not be blank"@,
            ),
        },
{
    if is_blank(projection.as_str()) {
        Err(violation("projection item projection_id must not be blank"))
    } else {
        Ok(())
    }
}

/// An owner has to have a name.
pub fn validate_owner_key(owner_key: &str) -> (r: Result<(), PersistenceError>)
    ensures
        match r {
            Ok(()) => !crate::text::blank(owner_key@),
            Err(e) => crate::text::blank(owner_key@) && e@ == super::error::broken(
                "projection item owner_key must not be blank"@,
            ),
        },
{
    if is_blank(owner_key) {
        Err(violation("projection item owner_key must not be blank"))
    } else {
        Ok(())
    }
}

/// An item has to have a name.
pub fn validate_item_key(item_key: &str) -> (r: Result<(), PersistenceError>)
    ensures
        match r {
            Ok(()) => !crate::text::blank(item_key@),
            Err(e) => crate::text::blank(item_key@) && e@ == super::error::broken(
                "projection item item_key must not be blank"@,
            ),
        },
{
    if is_blank(item_key) {
        Err(violation("projection item item_key must not be blank"))
    } else {
        Ok(())
    }
}

/// A supplemental record can only be committed with a delta.
pub fn require_delta(commit: &ProjectionItemCommit) -> (r: Result<(), PersistenceError>)
    ensures
        match r {
            Ok(()) => commit is Delta,
            Err(e) => commit is Replace && e@ == super::error::broken(
                "supplemental projection commit requires a projection item delta"@,
            ),
        },
{
    match commit {
        ProjectionItemCommit::Delta { .. } => Ok(()),
        ProjectionItemCommit::Replace { .. } => Err(
            violation("supplemental projection commit requires a projection item delta"),
        ),
    }
}

/// A supplemental record can be committed once.
pub fn require_new_supplemental(id: &str, inserted: usize) -> (r: Result<(), PersistenceError>)
    ensures
        match r {
            Ok(()) => inserted == 1,
            Err(e) => inserted != 1 && e@ == super::error::broken(
                "supplemental append requires absent id "@ + id@,
            ),
        },
{
    if inserted != 1 {
        Err(
            PersistenceError::SchemaInvariant(text2("supplemental append requires absent id ", id)),
        )
    } else {
        Ok(())
    }
}

/// Whether a text is the reference of a blob that occurs somewhere in a value.
pub open spec fn refers_to(value: JsonView, blob_ref: Seq<char>) -> bool
    decreases value,
{
    match value {
        JsonView::Str(t) => t == blob_ref && crate::text::begins(t, "blob:sha256:"@),
        JsonView::Array(items) => exists|i: int|
            0 <= i < items.len() && refers_to(#[trigger] items[i], blob_ref),
        JsonView::Object(members) => exists|i: int|
            0 <= i < members.len() && refers_to((#[trigger] members[i]).1, blob_ref),
        _ => false,
    }
}

proof fn array_refers(items: Seq<JsonView>, at: int, blob_ref: Seq<char>)
    requires
        0 <= at < items.len(),
        refers_to(items[at], blob_ref),
    ensures
        refers_to(JsonView::Array(items), blob_ref),
{
    let v = JsonView::Array(items);
    assert(v->Array_0[at] == items[at]);
    assert(refers_to(v->Array_0[at], blob_ref));
}

proof fn object_refers(members: Seq<(Seq<char>, JsonView)>, at: int, blob_ref: Seq<char>)
    requires
        0 <= at < members.len(),
        refers_to(members[at].1, blob_ref),
    ensures
        refers_to(JsonView::Object(members), blob_ref),
{
    let v = JsonView::Object(members);
    assert(v->Object_0[at] == members[at]);
    assert(refers_to(v->Object_0[at].1, blob_ref));
}

/// Whether a list holds the references of some others and those that occur in a value.
pub open spec fn gathers(
    list: Seq<Seq<char>>,
    before: Seq<Seq<char>>,
    value: JsonView,
) -> bool {
    forall|t: Seq<char>| #[trigger] list.contains(t) <==> before.contains(t) || refers_to(value, t)
}

fn gather_blob_refs(value: &Json, refs: &mut Vec<String>)
    ensures
        gathers(
            crate::text::strings(final(refs)@),
            crate::text::strings(old(refs)@),
            value@,
        ),
    decreases value,
{
    let ghost given = crate::text::strings(refs@);
    match value {
        Json::Str(t) => {
            if starts_with(t.as_str(), "blob:sha256:") {
                let ghost before = refs@;
                refs.push(t.clone());
                proof {
                    let list = crate::text::strings(refs@);
                    assert(list =~= given.push(t@));
                    assert forall|x: Seq<char>| #[trigger] list.contains(x) <==> given.contains(x)
                        || refers_to(value@, x) by {
                        if given.contains(x) {
                            let i = choose|i: int| 0 <= i < given.len() && given[i] == x;
                            assert(list[i] == x);
                        }
                        if list.contains(x) {
                            let i = choose|i: int| 0 <= i < list.len() && list[i] == x;
                            if i < given.len() {
                                assert(given[i] == x);
                            }
                        }
                        if x == t@ {
                            assert(list[given.len() as int] == x);
                        }
                    }
                }
            }
        },
        Json::Array(items) => {
            let ghost views = value@->Array_0;
            let mut i: usize = 0;
            while i < items.len()
                invariant
                    i <= items@.len(),
                    *value matches Json::Array(own) && own == *items,
                    value@ == JsonView::Array(views),
                    views.len() == items@.len(),
                    forall|t: Seq<char>| #[trigger]
                        crate::text::strings(refs@).contains(t) <==> given.contains(t) || exists|
                            k: int,
                        |
                            0 <= k < i && refers_to(#[trigger] views[k], t),
                decreases items@.len() - i,
            {
                let ghost before = crate::text::strings(refs@);
                assert(views[i as int] == items@[i as int]@);
                gather_blob_refs(&items[i], refs);
                proof {
                    let now = crate::text::strings(refs@);
                    assert forall|t: Seq<char>| #[trigger] now.contains(t) <==> given.contains(t)
                        || exists|k: int| 0 <= k < i + 1 && refers_to(#[trigger] views[k], t) by {
                        if before.contains(t) && !given.contains(t) {
                            let k = choose|k: int| 0 <= k < i && refers_to(#[trigger] views[k], t);
                            assert(refers_to(views[k], t));
                        }
                        if refers_to(views[i as int], t) {
                            assert(now.contains(t));
                        }
                        if exists|k: int| 0 <= k < i + 1 && refers_to(#[trigger] views[k], t) {
                            let k = choose|k: int|
                                0 <= k < i + 1 && refers_to(#[trigger] views[k], t);
                            if k < i {
                                assert(before.contains(t));
                            }
                        }
                    }
                }
                i = i + 1;
            }
            proof {
                assert forall|t: Seq<char>| #[trigger] crate::text::strings(refs@).contains(t)
                    <==> given.contains(t) || refers_to(value@, t) by {
                    if exists|k: int| 0 <= k < i && refers_to(#[trigger] views[k], t) {
                        let k = choose|k: int| 0 <= k < i && refers_to(#[trigger] views[k], t);
                        array_refers(views, k, t);
                    }
                }
            }
        },
        Json::Object(members) => {
            let ghost views = value@->Object_0;
            let mut i: usize = 0;
            while i < members.len()
                invariant
                    i <= members@.len(),
                    *value matches Json::Object(own) && own == *members,
                    value@ == JsonView::Object(views),
                    views.len() == members@.len(),
                    forall|t: Seq<char>| #[trigger]
                        crate::text::strings(refs@).contains(t) <==> given.contains(t) || exists|
                            k: int,
                        |
                            0 <= k < i && refers_to((#[trigger] views[k]).1, t),
                decreases members@.len() - i,
            {
                let ghost before = crate::text::strings(refs@);
                assert(views[i as int].1 == members@[i as int].1@);
                gather_blob_refs(&members[i].1, refs);
                proof {
                    let now = crate::text::strings(refs@);
                    assert forall|t: Seq<char>| #[trigger] now.contains(t) <==> given.contains(t)
                        || exists|k: int| 0 <= k < i + 1 && refers_to((#[trigger] views[k]).1, t) by {
                        if before.contains(t) && !given.contains(t) {
                            let k = choose|k: int|
                                0 <= k < i && refers_to((#[trigger] views[k]).1, t);
                            assert(refers_to(views[k].1, t));
                        }
                        if refers_to(views[i as int].1, t) {
                            assert(now.contains(t));
                        }
                        if exists|k: int| 0 <= k < i + 1 && refers_to((#[trigger] views[k]).1, t) {
                            let k = choose|k: int|
                                0 <= k < i + 1 && refers_to((#[trigger] views[k]).1, t);
                            if k < i {
                                assert(before.contains(t));
                            }
                        }
                    }
                }
                i = i + 1;
            }
            proof {
                assert forall|t: Seq<char>| #[trigger] crate::text::strings(refs@).contains(t)
                    <==> given.contains(t) || refers_to(value@, t) by {
                    if exists|k: int| 0 <= k < i && refers_to((#[trigger] views[k]).1, t) {
                        let k = choose|k: int| 0 <= k < i && refers_to((#[trigger] views[k]).1, t);
                        object_refers(views, k, t);
                    }
                }
            }
        },
        _ => {},
    }
}

/// The blobs that a value refers to, in ascending order and each once.
pub fn collect_blob_refs(value: &Json) -> (r: Vec<String>)
    ensures
        crate::text::ascending(crate::text::strings(r@)),
        forall|t: Seq<char>| #[trigger]
            crate::text::strings(r@).contains(t) <==> refers_to(value@, t),
{
    let mut refs: Vec<String> = Vec::new();
    assert(crate::text::strings(refs@) =~= Seq::empty());
    gather_blob_refs(value, &mut refs);
    sorted_set(&refs)
}

/// For whom a blob is visible through an item.
pub fn consent_scope(projection: &ProjectionRef, owner_key: &str) -> (r: String)
    ensures
        r@ == "projection:"@ + projection@ + ":owner:"@ + owner_key@,
{
    text4("projection:", projection.as_str(), ":owner:", owner_key)
}

/// The fields of a manifest that are stored but no longer named.
pub open spec fn dropped_fields(stored: Seq<Seq<char>>, manifest: JsonView) -> Seq<Seq<char>>
    decreases stored.len(),
{
    if stored.len() == 0 {
        Seq::empty()
    } else {
        let before = dropped_fields(stored.drop_last(), manifest);
        if crate::json::member(manifest, stored.last()) is None {
            before.push(stored.last())
        } else {
            before
        }
    }
}

/// How a manifest is written over the fields that are stored.
#[derive(Debug)]
pub struct ManifestWrite<'a> {
    /// The stored fields that go.
    pub dropped: Vec<String>,
    /// The fields that are written, with their values.
    pub written: &'a Vec<(String, Json)>,
}

/// How a manifest is written: stored fields that it does not name are dropped, and all that it names
/// are written.
pub fn manifest_fields<'a>(manifest: &'a Json, stored: &Vec<String>) -> (r: Result<
    ManifestWrite<'a>,
    PersistenceError,
>)
    ensures
        match r {
            Ok(w) => {
                &&& manifest@ is Object
                &&& crate::text::strings(w.dropped@) == dropped_fields(
                    crate::text::strings(stored@),
                    manifest@,
                )
                &&& crate::json::member_views(w.written@) == manifest@->Object_0
            },
            Err(e) => !(manifest@ is Object) && e@ == super::error::broken(
                "projection manifest must be a JSON object"@,
            ),
        },
{
    let written = match manifest {
        Json::Object(members) => {
            assert(crate::json::member_views(members@) =~= manifest@->Object_0);
            members
        },
        _ => {
            return Err(violation("projection manifest must be a JSON object"));
        },
    };
    let ghost all = crate::text::strings(stored@);
    let mut dropped: Vec<String> = Vec::new();
    let mut i: usize = 0;
    assert(crate::text::strings(dropped@) =~= Seq::empty());
    while i < stored.len()
        invariant
            i <= stored@.len(),
            all == crate::text::strings(stored@),
            crate::text::strings(dropped@) == dropped_fields(all.take(i as int), manifest@),
        decreases stored@.len() - i,
    {
        proof {
            assert(all.take(i + 1).drop_last() =~= all.take(i as int));
            assert(all.take(i + 1).last() == stored@[i as int]@);
        }
        let ghost before = dropped@;
        if manifest.get(stored[i].as_str()).is_none() {
            dropped.push(stored[i].clone());
            assert(crate::text::strings(dropped@) =~= crate::text::strings(before).push(
                stored@[i as int]@,
            ));
        }
        i = i + 1;
    }
    assert(all.take(i as int) =~= all);
    Ok(ManifestWrite { dropped, written })
}

/// The fields of a manifest with their values.
pub open spec fn fields_of(manifest: JsonView) -> Map<Seq<char>, JsonView> {
    Map::new(
        |name: Seq<char>| crate::json::member(manifest, name) is Some,
        |name: Seq<char>| crate::json::member(manifest, name)->0,
    )
}

/// Whether an object names each of its members once.
pub open spec fn named_once(members: Seq<(Seq<char>, JsonView)>) -> bool {
    forall|i: int, j: int|
        #![trigger members[i], members[j]]
        0 <= i < j < members.len() ==> members[i].0 != members[j].0
}

/// Stored fields after some were written.
pub open spec fn with_written(
    stored: Map<Seq<char>, JsonView>,
    written: Seq<(Seq<char>, JsonView)>,
) -> Map<Seq<char>, JsonView>
    decreases written.len(),
{
    if written.len() == 0 {
        stored
    } else {
        with_written(stored, written.drop_last()).insert(written.last().0, written.last().1)
    }
}

proof fn written_are_found(
    stored: Map<Seq<char>, JsonView>,
    written: Seq<(Seq<char>, JsonView)>,
    name: Seq<char>,
)
    requires
        named_once(written),
    ensures
        match crate::json::member_index(written, name) {
            Some(i) => with_written(stored, written).contains_key(name) && with_written(
                stored,
                written,
            )[name] == written[i].1,
            None => with_written(stored, written).contains_key(name) == stored.contains_key(name),
        },
    decreases written.len(),
{
    crate::json::member_index_in_range(written, name);
    if written.len() > 0 {
        let init = written.drop_last();
        assert forall|i: int, j: int|
            #![trigger init[i], init[j]]
            0 <= i < j < init.len() implies init[i].0 != init[j].0 by {
            assert(init[i] == written[i] && init[j] == written[j]);
        }
        written_are_found(stored, init, name);
        crate::json::member_index_in_range(init, name);
        let last = written.len() - 1;
        match crate::json::member_index(written, name) {
            Some(i) => {
                if i < last {
                    assert(written[i].0 != written[last].0);
                    assert(init[i] == written[i]);
                    match crate::json::member_index(init, name) {
                        Some(k) => {
                            assert(init[k] == written[k]);
                            if k < i {
                                assert(written[k].0 != written[i].0);
                            }
                            if i < k {
                                assert(written[i].0 != written[k].0);
                            }
                        },
                        None => {},
                    }
                } else {
                    assert(written[last].0 == name);
                }
            },
            None => {
                assert(written[last].0 != name);
                match crate::json::member_index(init, name) {
                    Some(k) => {
                        assert(init[k] == written[k]);
                    },
                    None => {},
                }
            },
        }
    }
}

proof fn unnamed_fields_are_dropped(
    names: Seq<Seq<char>>,
    manifest: JsonView,
    name: Seq<char>,
)
    ensures
        dropped_fields(names, manifest).contains(name) <==> names.contains(name)
            && crate::json::member(manifest, name) is None,
    decreases names.len(),
{
    if names.len() > 0 {
        let init = names.drop_last();
        unnamed_fields_are_dropped(init, manifest, name);
        let before = dropped_fields(init, manifest);
        let after = dropped_fields(names, manifest);
        let last = names.last();
        assert(names.contains(name) <==> init.contains(name) || name == last) by {
            assert(names =~= init.push(last));
            if init.contains(name) {
                let i = choose|i: int| 0 <= i < init.len() && init[i] == name;
                assert(names[i] == name);
            }
            if name == last {
                assert(names[names.len() - 1] == name);
            }
        }
        if crate::json::member(manifest, last) is None {
            assert(after =~= before.push(last));
            if before.contains(name) {
                let i = choose|i: int| 0 <= i < before.len() && before[i] == name;
                assert(after[i] == name);
            }
            if name == last {
                assert(after[after.len() - 1] == name);
            }
        }
    }
}

/// After a manifest was written over whatever was stored, the stored fields are those of the
/// manifest, with its values.
pub proof fn written_manifests_are_stored(
    stored: Map<Seq<char>, JsonView>,
    names: Seq<Seq<char>>,
    manifest: JsonView,
)
    requires
        manifest is Object,
        named_once(manifest->Object_0),
        forall|name: Seq<char>| #[trigger] names.contains(name) <==> stored.contains_key(name),
    ensures
        with_written(
            stored.remove_keys(dropped_fields(names, manifest).to_set()),
            manifest->Object_0,
        ) == fields_of(manifest),
{
    let kept = stored.remove_keys(dropped_fields(names, manifest).to_set());
    let members = manifest->Object_0;
    let after = with_written(kept, members);
    assert forall|name: Seq<char>| #[trigger]
        after.contains_key(name) <==> fields_of(manifest).contains_key(name) by {
        written_are_found(kept, members, name);
        unnamed_fields_are_dropped(names, manifest, name);
        assert(names.contains(name) <==> stored.contains_key(name));
    }
    assert forall|name: Seq<char>| after.contains_key(name) implies #[trigger] after[name]
        == fields_of(manifest)[name] by {
        written_are_found(kept, members, name);
        unnamed_fields_are_dropped(names, manifest, name);
        assert(fields_of(manifest).contains_key(name));
        assert(names.contains(name) <==> stored.contains_key(name));
    }
    assert(after =~= fields_of(manifest));
}

/// The character between the two parts of a cursor.
pub const CURSOR_SEPARATOR: char = '\u{1f}';

/// The position of the last separator.
pub open spec fn last_separator(cursor: Seq<char>) -> Option<int>
    decreases cursor.len(),
{
    if cursor.len() == 0 {
        None
    } else if cursor.last() == CURSOR_SEPARATOR {
        Some(cursor.len() - 1)
    } else {
        last_separator(cursor.drop_last())
    }
}

/// Where a page of items goes on.
#[derive(Debug)]
pub enum PageStart {
    /// After every item with a sort key.
    AfterSortKey(String),
    /// After the item with a sort key and an item key.
    AfterItem(String, String),
}

/// Where a page goes on.
pub enum PageStartView {
    AfterSortKey(Seq<char>),
    AfterItem(Seq<char>, Seq<char>),
}

impl View for PageStart {
    type V = PageStartView;

    open spec fn view(&self) -> PageStartView {
        match *self {
            PageStart::AfterSortKey(s) => PageStartView::AfterSortKey(s@),
            PageStart::AfterItem(s, i) => PageStartView::AfterItem(s@, i@),
        }
    }
}

/// Where a cursor says that a page goes on.
pub open spec fn page_start(cursor: Seq<char>) -> Result<PageStartView, PersistenceErrorView> {
    match last_separator(cursor) {
        None => Ok(PageStartView::AfterSortKey(cursor)),
        Some(i) => if i == 0 || i == cursor.len() - 1 {
            Err(super::error::broken("projection item cursor boundary is invalid"@))
        } else {
            Ok(PageStartView::AfterItem(cursor.take(i), cursor.skip(i + 1)))
        },
    }
}

/// Where a cursor says that a page goes on.
pub fn parse_page_start(cursor: &str) -> (r: Result<PageStart, PersistenceError>)
    ensures
        crate::text::result_view(r) == page_start(cursor@),
{
    let chars = chars_of(cursor);
    let n = chars.len();
    let mut i: usize = n;
    assert(cursor@.take(n as int) =~= cursor@);
    while i > 0
        invariant
            i <= n,
            n == chars@.len(),
            chars@ == cursor@,
            last_separator(cursor@) == last_separator(cursor@.take(i as int)),
        decreases i,
    {
        if chars[i - 1] == CURSOR_SEPARATOR {
            assert(last_separator(cursor@) == Some(i - 1));
            if i == 1 || i == n {
                return Err(violation("projection item cursor boundary is invalid"));
            }
            let sort_key = cursor.substring_char(0, i - 1).to_owned();
            let item_key = cursor.substring_char(i, n).to_owned();
            proof {
                assert(sort_key@ =~= cursor@.take(i - 1));
                assert(item_key@ =~= cursor@.skip(i as int));
            }
            return Ok(PageStart::AfterItem(sort_key, item_key));
        }
        assert(cursor@.take(i as int).drop_last() =~= cursor@.take(i - 1));
        i = i - 1;
    }
    Ok(PageStart::AfterSortKey(cursor.to_owned()))
}

/// The cursor after an item.
pub open spec fn cursor_after(sort_key: Seq<char>, item_key: Seq<char>) -> Seq<char> {
    sort_key.push(CURSOR_SEPARATOR) + item_key
}

proof fn separator_after_item(sort_key: Seq<char>, item_key: Seq<char>)
    requires
        !item_key.contains(CURSOR_SEPARATOR),
    ensures
        last_separator(cursor_after(sort_key, item_key)) == Some(sort_key.len() as int),
    decreases item_key.len(),
{
    let cursor = cursor_after(sort_key, item_key);
    if item_key.len() == 0 {
        assert(cursor =~= sort_key.push(CURSOR_SEPARATOR));
    } else {
        assert(cursor.last() == item_key.last());
        assert(item_key[item_key.len() - 1] == item_key.last());
        assert(cursor.drop_last() =~= cursor_after(sort_key, item_key.drop_last()));
        assert(!item_key.drop_last().contains(CURSOR_SEPARATOR)) by {
            if item_key.drop_last().contains(CURSOR_SEPARATOR) {
                let k = choose|k: int|
                    0 <= k < item_key.len() - 1 && item_key.drop_last()[k] == CURSOR_SEPARATOR;
                assert(item_key[k] == CURSOR_SEPARATOR);
            }
        }
        separator_after_item(sort_key, item_key.drop_last());
    }
}

/// A page that goes on after an item starts right behind it: the cursor after an item is read back
/// as its two keys, whatever the sort key holds.
pub proof fn cursors_are_read_back(sort_key: Seq<char>, item_key: Seq<char>)
    requires
        sort_key.len() > 0,
        item_key.len() > 0,
        !item_key.contains(CURSOR_SEPARATOR),
    ensures
        page_start(cursor_after(sort_key, item_key)) == Ok::<PageStartView, PersistenceErrorView>(
            PageStartView::AfterItem(sort_key, item_key),
        ),
{
    let cursor = cursor_after(sort_key, item_key);
    separator_after_item(sort_key, item_key);
    assert(cursor.take(sort_key.len() as int) =~= sort_key);
    assert(cursor.skip(sort_key.len() as int + 1) =~= item_key);
}

/// The numbered marks of owners, which follow the mark of the projection.
pub open spec fn owner_marks(count: nat) -> Seq<Seq<char>> {
    Seq::new(count, |i: int| "?"@ + crate::text::decimal((i + 2) as nat))
}

fn build_owner_marks(count: usize) -> (r: Vec<String>)
    requires
        count < usize::MAX - 2,
    ensures
        crate::text::strings(r@) == owner_marks(count as nat),
{
    let mut out: Vec<String> = Vec::new();
    let mut i: usize = 0;
    while i < count
        invariant
            i <= count,
            count < usize::MAX - 2,
            out@.len() == i,
            forall|j: int|
                0 <= j < i ==> (#[trigger] out@[j])@ == "?"@ + crate::text::decimal((j + 2) as nat),
        decreases count - i,
    {
        let number = decimal_text((i + 2) as u64);
        out.push(text2("?", number.as_str()));
        i = i + 1;
    }
    assert(crate::text::strings(out@) =~= owner_marks(count as nat));
    out
}

/// Texts as bound values.
pub open spec fn text_values(texts: Seq<Seq<char>>) -> Seq<SqlView> {
    texts.map_values(|t: Seq<char>| SqlView::Text(t))
}

/// The statement that reads a page of items of some owners, in the order of their sort keys and
/// then of their item keys.
pub open spec fn page_query(
    storage: Seq<char>,
    owners: Seq<Seq<char>>,
    prefix: Option<Seq<char>>,
    start: Option<PageStartView>,
    limit: usize,
) -> QueryView {
    let q0 = QueryView {
        sql: "SELECT item_key, owner_key, sort_key, value_json FROM projection_materialization_items WHERE projection_id = ?1 AND owner_key IN ("@
            + crate::text::join(owner_marks(owners.len()), ", "@) + ")"@,
        values: seq![SqlView::Text(storage)] + text_values(owners),
    };
    let q1 = match prefix {
        Some(p) => super::sql::extended(
            q0,
            " AND item_key LIKE ?"@,
            SqlView::Text(p + "%"@),
        ),
        None => q0,
    };
    let q2 = match start {
        Some(PageStartView::AfterSortKey(s)) => super::sql::extended(
            q1,
            " AND sort_key > ?"@,
            SqlView::Text(s),
        ),
        Some(PageStartView::AfterItem(s, i)) => super::sql::extended(
            super::sql::extended(
                super::sql::extended(q1, " AND (sort_key > ?"@, SqlView::Text(s)),
                " OR (sort_key = ?"@,
                SqlView::Text(s),
            ),
            " AND item_key > ?))"@,
            SqlView::Text(i),
        ),
        None => q1,
    };
    super::sql::extended(
        q2,
        " ORDER BY sort_key ASC, item_key ASC LIMIT ?"@,
        SqlView::Integer(limit as i64),
    )
}

/// What is wrong with a page of items that is asked for.
pub open spec fn page_fault(
    projection: Seq<char>,
    owners: Seq<Seq<char>>,
    after: Option<Seq<char>>,
    limit: usize,
) -> Option<PersistenceErrorView> {
    if crate::text::blank(projection) {
        Some(super::error::broken("projection item projection_id must not be blank"@))
    } else if owners.len() == 0 || limit == 0 {
        Some(
            super::error::broken("projection item page requires owners and a positive limit"@),
        )
    } else if exists|i: int| 0 <= i < owners.len() && crate::text::blank(#[trigger] owners[i]) {
        Some(super::error::broken("projection item owner_key must not be blank"@))
    } else if after is Some && page_start(after->0) is Err {
        Some(page_start(after->0)->Err_0)
    } else if limit > i64::MAX {
        Some(super::error::broken("projection item limit overflow"@))
    } else {
        None
    }
}

/// The statement that reads a page of items, given the generation that the projection is stored
/// under.
pub fn projection_items_page(
    projection: &ProjectionRef,
    storage: &str,
    owner_keys: &Vec<String>,
    item_key_prefix: Option<&str>,
    after_sort_key: Option<&str>,
    limit: usize,
) -> (r: Result<Query, PersistenceError>)
    requires
        owner_keys@.len() < usize::MAX - 2,
    ensures
        match r {
            Ok(query) => {
                &&& page_fault(
                    projection@,
                    crate::text::strings(owner_keys@),
                    crate::json::opt_str(after_sort_key),
                    limit,
                ) is None
                &&& query@ == page_query(
                    storage@,
                    crate::text::strings(owner_keys@),
                    crate::json::opt_str(item_key_prefix),
                    match crate::json::opt_str(after_sort_key) {
                        Some(cursor) => Some(page_start(cursor)->Ok_0),
                        None => None,
                    },
                    limit,
                )
            },
            Err(e) => page_fault(
                projection@,
                crate::text::strings(owner_keys@),
                crate::json::opt_str(after_sort_key),
                limit,
            ) == Some(e@),
        },
{
    let ghost owners = crate::text::strings(owner_keys@);
    match validate_projection_key(projection) {
        Ok(()) => {},
        Err(e) => {
            return Err(e);
        },
    }
    if owner_keys.len() == 0 || limit == 0 {
        return Err(violation("projection item page requires owners and a positive limit"));
    }
    let mut values: Vec<SqlValue> = vec![SqlValue::Text(storage.to_owned())];
    let mut i: usize = 0;
    assert(super::sql::sql_views(values@) =~= seq![SqlView::Text(storage@)] + text_values(
        owners.take(0),
    ));
    while i < owner_keys.len()
        invariant
            i <= owner_keys@.len(),
            owners == crate::text::strings(owner_keys@),
            !crate::text::blank(projection@),
            limit > 0,
            owner_keys@.len() > 0,
            forall|j: int| 0 <= j < i ==> !crate::text::blank(#[trigger] owners[j]),
            super::sql::sql_views(values@) == seq![SqlView::Text(storage@)] + text_values(
                owners.take(i as int),
            ),
        decreases owner_keys@.len() - i,
    {
        assert(owners[i as int] == owner_keys@[i as int]@);
        match validate_owner_key(owner_keys[i].as_str()) {
            Ok(()) => {},
            Err(e) => {
                assert(crate::text::blank(owners[i as int]));
                return Err(e);
            },
        }
        let ghost before = values@;
        values.push(SqlValue::Text(owner_keys[i].clone()));
        proof {
            assert(super::sql::sql_views(values@) =~= super::sql::sql_views(before).push(
                SqlView::Text(owners[i as int]),
            ));
            assert(owners.take(i + 1) =~= owners.take(i as int).push(owners[i as int]));
            assert(text_values(owners.take(i + 1)) =~= text_values(owners.take(i as int)).push(
                SqlView::Text(owners[i as int]),
            ));
            assert(super::sql::sql_views(values@) =~= seq![SqlView::Text(storage@)] + text_values(
                owners.take(i + 1),
            ));
        }
        i = i + 1;
    }
    assert(owners.take(i as int) =~= owners);
    let marks = build_owner_marks(owner_keys.len());
    let joined = join_strings(marks.as_slice(), ", ");
    let mut query = Query {
        sql: text3(
            "SELECT item_key, owner_key, sort_key, value_json FROM projection_materialization_items WHERE projection_id = ?1 AND owner_key IN (",
            joined.as_str(),
            ")",
        ),
        values,
    };
    match item_key_prefix {
        Some(p) => {
            query.extend(" AND item_key LIKE ?", SqlValue::Text(text2(p, "%")));
        },
        None => {},
    }
    match after_sort_key {
        Some(cursor) => match parse_page_start(cursor) {
            Ok(PageStart::AfterSortKey(s)) => {
                query.extend(" AND sort_key > ?", SqlValue::Text(s));
            },
            Ok(PageStart::AfterItem(s, k)) => {
                query.extend(" AND (sort_key > ?", SqlValue::Text(s.clone()));
                query.extend(" OR (sort_key = ?", SqlValue::Text(s));
                query.extend(" AND item_key > ?))", SqlValue::Text(k));
            },
            Err(e) => {
                return Err(e);
            },
        },
        None => {},
    }
    if limit as u64 > 0x7fff_ffff_ffff_ffff {
        return Err(violation("projection item limit overflow"));
    }
    query.extend(
        " ORDER BY sort_key ASC, item_key ASC LIMIT ?",
        SqlValue::Integer(limit as i64),
    );
    Ok(query)
}

/// How far a projection has come on a leaf.
#[derive(Debug)]
pub struct ProjectionLeafWatermark {
    pub projection_id: ProjectionRef,
    pub leaf_id: String,
    pub append_seq: u64,
    pub status: String,
}

/// Whether an item comes before another on the pages of a projection: by the sort key, and where
/// these are equal by the item key.
pub open spec fn comes_before(a: ItemView, b: ItemView) -> bool {
    ||| crate::text::precedes(a.sort_key, b.sort_key)
    ||| a.sort_key == b.sort_key && crate::text::precedes(a.item_key, b.item_key)
}

/// Whether items stand in the order of pages, no two at one place.
pub open spec fn in_page_order(items: Seq<ItemView>) -> bool {
    forall|i: int, j: int|
        #![trigger items[i], items[j]]
        0 <= i < j < items.len() ==> comes_before(items[i], items[j])
}

/// Whether an item lies after the place where a page goes on.
pub open spec fn lies_after(start: Option<PageStartView>, item: ItemView) -> bool {
    match start {
        None => true,
        Some(PageStartView::AfterSortKey(s)) => crate::text::precedes(s, item.sort_key),
        Some(PageStartView::AfterItem(s, k)) => crate::text::precedes(s, item.sort_key)
            || item.sort_key == s && crate::text::precedes(k, item.item_key),
    }
}

/// Whether an item is stored, belongs to one of some owners and lies after the place where a page
/// goes on: what the statement for a page without a prefix looks for.
pub open spec fn wanted(
    items: Map<Seq<char>, ItemView>,
    owners: Seq<Seq<char>>,
    start: Option<PageStartView>,
    item: ItemView,
) -> bool {
    &&& items.contains_key(item.item_key) && items[item.item_key] == item
    &&& owners.contains(item.owner_key)
    &&& lies_after(start, item)
}

/// Whether a list is what the statement for a page without a prefix selects: the first of the
/// wanted items in the order of pages, all of them or as many as the limit allows.
pub open spec fn is_page(
    page: Seq<ItemView>,
    items: Map<Seq<char>, ItemView>,
    owners: Seq<Seq<char>>,
    start: Option<PageStartView>,
    limit: nat,
) -> bool {
    &&& in_page_order(page)
    &&& page.len() <= limit
    &&& forall|item: ItemView| #[trigger] page.contains(item) ==> wanted(items, owners, start, item)
    &&& forall|item: ItemView|
        #![trigger wanted(items, owners, start, item)]
        wanted(items, owners, start, item) && !page.contains(item) ==> page.len() == limit
            && forall|i: int| 0 <= i < page.len() ==> comes_before(#[trigger] page[i], item)
}

/// The place after an item, as its cursor is read.
pub open spec fn place_after(item: ItemView) -> Option<PageStartView> {
    Some(page_start(cursor_after(item.sort_key, item.item_key))->Ok_0)
}

/// Whether pages were taken one after another: the first from the start, and each next one after the
/// last item of the one before.
pub open spec fn one_after_another(
    pages: Seq<Seq<ItemView>>,
    items: Map<Seq<char>, ItemView>,
    owners: Seq<Seq<char>>,
    limit: nat,
) -> bool {
    &&& pages.len() > 0 ==> is_page(pages[0], items, owners, None, limit)
    &&& forall|i: int|
        1 <= i < pages.len() ==> pages[i - 1].len() > 0 && is_page(
            #[trigger] pages[i],
            items,
            owners,
            place_after(pages[i - 1].last()),
            limit,
        )
}

/// All items of some pages, page by page.
pub open spec fn all_items(pages: Seq<Seq<ItemView>>) -> Seq<ItemView>
    decreases pages.len(),
{
    if pages.len() == 0 {
        Seq::empty()
    } else {
        all_items(pages.drop_last()) + pages.last()
    }
}

/// Whether the cursor of every stored item can be read back.
pub open spec fn have_cursors(items: Map<Seq<char>, ItemView>) -> bool {
    forall|key: Seq<char>| #[trigger]
        items.contains_key(key) ==> items[key].sort_key.len() > 0 && items[key].item_key.len() > 0
            && !items[key].item_key.contains(CURSOR_SEPARATOR)
}

proof fn page_order_is_transitive(a: ItemView, b: ItemView, c: ItemView)
    requires
        comes_before(a, b),
        comes_before(b, c),
    ensures
        comes_before(a, c),
{
    if crate::text::precedes(a.sort_key, b.sort_key) && crate::text::precedes(
        b.sort_key,
        c.sort_key,
    ) {
        crate::text::precedes_transitive(a.sort_key, b.sort_key, c.sort_key);
    }
    if crate::text::precedes(a.item_key, b.item_key) && crate::text::precedes(
        b.item_key,
        c.item_key,
    ) {
        crate::text::precedes_transitive(a.item_key, b.item_key, c.item_key);
    }
}

#[verifier::rlimit(60)]
#[verifier::spinoff_prover]
proof fn pages_so_far(
    pages: Seq<Seq<ItemView>>,
    items: Map<Seq<char>, ItemView>,
    owners: Seq<Seq<char>>,
    limit: nat,
)
    requires
        limit > 0,
        have_cursors(items),
        one_after_another(pages, items, owners, limit),
    ensures
        ({
            let all = all_items(pages);
            &&& in_page_order(all)
            &&& pages.len() > 0 && pages.last().len() > 0 ==> all.len() > 0 && all.last()
                == pages.last().last()
            &&& forall|item: ItemView| #[trigger]
                all.contains(item) ==> wanted(items, owners, None, item)
            &&& forall|item: ItemView|
                #![trigger wanted(items, owners, None, item)]
                wanted(items, owners, None, item) && !all.contains(item) ==> (forall|i: int|
                    0 <= i < all.len() ==> comes_before(#[trigger] all[i], item)) && (pages.len()
                    > 0 ==> pages.last().len() == limit)
        }),
    decreases pages.len(),
{
    let all = all_items(pages);
    if pages.len() == 1 {
        assert(pages.drop_last() =~= Seq::<Seq<ItemView>>::empty());
        assert(all_items(pages.drop_last()) =~= Seq::<ItemView>::empty());
        assert(all =~= pages[0]);
    } else if pages.len() > 1 {
        let init = pages.drop_last();
        let n = pages.len() - 1;
        assert forall|i: int| 1 <= i < init.len() implies init[i - 1].len() > 0 && is_page(
            #[trigger] init[i],
            items,
            owners,
            place_after(init[i - 1].last()),
            limit,
        ) by {
            assert(init[i] == pages[i]);
            assert(init[i - 1] == pages[i - 1]);
        }
        assert(init[0] == pages[0]);
        pages_so_far(init, items, owners, limit);
        let before = all_items(init);
        let page = pages[n];
        assert(pages.last() == page);
        let seen = init.last().last();
        assert(init.last() == pages[n - 1]);
        let start = place_after(seen);
        assert(is_page(page, items, owners, start, limit));
        assert(before[before.len() - 1] == seen);
        assert(before.contains(seen));
        cursors_are_read_back(seen.sort_key, seen.item_key);
        assert forall|item: ItemView| lies_after(start, item) == comes_before(seen, item) by {}
        assert forall|i: int, j: int|
            #![trigger all[i], all[j]]
            0 <= i < j < all.len() implies comes_before(all[i], all[j]) by {
            if j < before.len() {
                assert(all[i] == before[i] && all[j] == before[j]);
            } else if i >= before.len() {
                assert(all[i] == page[i - before.len()] && all[j] == page[j - before.len()]);
            } else {
                assert(all[j] == page[j - before.len()]);
                assert(page.contains(all[j]));
                assert(comes_before(seen, all[j]));
                assert(all[i] == before[i]);
                if i < before.len() - 1 {
                    assert(comes_before(before[i], before[before.len() - 1]));
                    page_order_is_transitive(all[i], seen, all[j]);
                }
            }
        }
        assert forall|item: ItemView| #[trigger] all.contains(item) implies wanted(
            items,
            owners,
            None,
            item,
        ) by {
            let i = choose|i: int| 0 <= i < all.len() && all[i] == item;
            if i < before.len() {
                assert(before[i] == item);
                assert(before.contains(item));
            } else {
                assert(page[i - before.len()] == item);
                assert(page.contains(item));
                assert(wanted(items, owners, start, item));
            }
        }
        assert forall|item: ItemView|
            #![trigger wanted(items, owners, None, item)]
            wanted(items, owners, None, item) && !all.contains(item) implies (forall|i: int|
            0 <= i < all.len() ==> comes_before(#[trigger] all[i], item)) && page.len() == limit by {
            if before.contains(item) {
                let i = choose|i: int| 0 <= i < before.len() && before[i] == item;
                assert(all[i] == item);
            }
            if page.contains(item) {
                let i = choose|i: int| 0 <= i < page.len() && page[i] == item;
                assert(all[before.len() + i] == item);
            }
            assert(comes_before(before[before.len() - 1], item));
            assert(wanted(items, owners, start, item));
            assert forall|i: int| 0 <= i < all.len() implies comes_before(
                #[trigger] all[i],
                item,
            ) by {
                if i < before.len() {
                    assert(all[i] == before[i]);
                } else {
                    assert(all[i] == page[i - before.len()]);
                }
            }
        }
    }
}

/// Pages that are taken one after another until one is empty show every stored item of the owners
/// exactly once and in order, also where items that share a sort key fall on different pages; and no
/// page is longer than its limit.
pub proof fn pages_lose_and_repeat_nothing(
    pages: Seq<Seq<ItemView>>,
    items: Map<Seq<char>, ItemView>,
    owners: Seq<Seq<char>>,
    limit: nat,
)
    requires
        limit > 0,
        have_cursors(items),
        one_after_another(pages, items, owners, limit),
        pages.len() > 0,
        pages.last().len() == 0,
    ensures
        in_page_order(all_items(pages)),
        all_items(pages).no_duplicates(),
        forall|item: ItemView| #[trigger]
            all_items(pages).contains(item) <==> items.contains_key(item.item_key)
                && items[item.item_key] == item && owners.contains(item.owner_key),
        forall|i: int| 0 <= i < pages.len() ==> (#[trigger] pages[i]).len() <= limit,
{
    pages_so_far(pages, items, owners, limit);
    let all = all_items(pages);
    assert forall|item: ItemView| #[trigger] all.contains(item) <==> items.contains_key(
        item.item_key,
    ) && items[item.item_key] == item && owners.contains(item.owner_key) by {
        assert(wanted(items, owners, None, item) == (items.contains_key(item.item_key)
            && items[item.item_key] == item && owners.contains(item.owner_key)));
    }
    assert forall|i: int, j: int| 0 <= i < all.len() && 0 <= j < all.len() && i != j implies all[i]
        != all[j] by {
        crate::text::precedes_irreflexive(all[i].sort_key);
        crate::text::precedes_irreflexive(all[i].item_key);
        if i < j {
            assert(comes_before(all[i], all[j]));
        } else {
            assert(comes_before(all[j], all[i]));
        }
    }
}

/// How far a projection has come on a leaf: where nothing is stored, nowhere, and successfully.
pub fn projection_leaf_watermark(
    projection: &ProjectionRef,
    leaf_id: &str,
    stored: Option<(u64, String)>,
) -> (r: ProjectionLeafWatermark)
    ensures
        r.projection_id@ == projection@,
        r.leaf_id@ == leaf_id@,
        (r.append_seq, r.status@) == (match stored {
            Some((append_seq, status)) => (append_seq, status@),
            None => (0u64, "success"@),
        }),
{
    let (append_seq, status) = match stored {
        Some(found) => found,
        None => (0, "success".to_owned()),
    };
    ProjectionLeafWatermark {
        projection_id: projection.clone(),
        leaf_id: leaf_id.to_owned(),
        append_seq,
        status,
    }
}

/// A watermark never goes back.
pub fn commit_projection_leaf_watermark(current: u64, next: u64) -> (r: Result<
    (),
    PersistenceError,
>)
    ensures
        match r {
            Ok(()) => next >= current,
            Err(e) => next < current && e@ == super::error::broken(
                "projection leaf watermark cannot decrease: "@ + crate::text::decimal(
                    current as nat,
                ) + " -> "@ + crate::text::decimal(next as nat),
            ),
        },
{
    if next < current {
        let from = decimal_text(current);
        let to = decimal_text(next);
        return Err(
            PersistenceError::SchemaInvariant(
                text4(
                    "projection leaf watermark cannot decrease: ",
                    from.as_str(),
                    " -> ",
                    to.as_str(),
                ),
            ),
        );
    }
    Ok(())
}

} // verus!
