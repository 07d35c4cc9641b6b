//! Laws of the review session.

use vstd::prelude::*;
use vstd::string::*;

use crate::attribute_inventory::{
    AttributeCandidate, AttributeInventoryDocument, AttributeInventoryState, AttributeSuggestion,
    CountError, InventoryCommand, ReviewAction,
};
use crate::inventory_review::{OptionsView, TurnView};

verus! {

/// A session without arguments reads no new data, keeps its state in the default file, starts at the
/// first document, has no limit, exports and imports nothing and asks nobody.
pub proof fn sessions_start_with_defaults()
    ensures
        ({
            let r = crate::inventory_review::options_of(Seq::empty());
            let options = r->Ok_0;
            &&& r is Ok
            &&& !options.refresh_data
            &&& options.state_path == ".\\data\\attribute_inventory_state.json"@
            &&& options.offset == 0
            &&& options.limit is None
            &&& options.export_discovered is None
            &&& options.export_aliases is None
            &&& options.import_aliases is None
            &&& !options.interactive
        }),
{
}

/// Arguments count one after the other; a fault ends it.
pub proof fn arguments_count_in_order(args: Seq<Seq<char>>, one: Seq<char>)
    ensures
        crate::inventory_review::options_of(args) matches Ok(before)
            ==> crate::inventory_review::options_of(args.push(one))
            == crate::inventory_review::with_argument(before, one),
        crate::inventory_review::options_of(args) matches Err(e)
            ==> crate::inventory_review::options_of(args.push(one)) == Err::<
            OptionsView,
            CountError,
        >(e),
{
    assert(args.push(one).drop_last() =~= args);
}

proof fn stripped(prefix: Seq<char>, value: Seq<char>)
    ensures
        crate::text::begins(prefix + value, prefix),
        crate::inventory_review::after(prefix + value, prefix) == value,
{
    assert((prefix + value).take(prefix.len() as int) =~= prefix);
    assert((prefix + value).skip(prefix.len() as int) =~= value);
}

proof fn differs(arg: Seq<char>, other: Seq<char>, k: int)
    requires
        0 <= k < arg.len(),
        k < other.len(),
        arg[k] != other[k],
    ensures
        !crate::text::begins(arg, other),
        arg != other,
{
    if crate::text::begins(arg, other) {
        assert(arg.take(other.len() as int)[k] == arg[k]);
    }
}

/// A flag sets the one thing that it names, and nothing else.
pub proof fn flags_set_what_they_name(options: OptionsView)
    ensures
        crate::inventory_review::with_argument(options, "--refresh-data"@) == Ok::<
            OptionsView,
            CountError,
        >(OptionsView { refresh_data: true, ..options }),
        crate::inventory_review::with_argument(options, "--interactive"@) == Ok::<
            OptionsView,
            CountError,
        >(OptionsView { interactive: true, ..options }),
{
    reveal_strlit("--refresh-data");
    reveal_strlit("--interactive");
    assert("--refresh-data"@[2] == 'r' && "--interactive"@[2] == 'i');
}

/// What stands behind `--state=` is where the state is kept.
pub proof fn state_arguments_name_the_file(options: OptionsView, value: Seq<char>)
    ensures
        crate::inventory_review::with_argument(options, "--state="@ + value) == Ok::<
            OptionsView,
            CountError,
        >(OptionsView { state_path: value, ..options }),
{
    reveal_strlit("--refresh-data");
    reveal_strlit("--interactive");
    reveal_strlit("--state=");
    let arg = "--state="@ + value;
    stripped("--state="@, value);
    assert(arg[2] == 's');
    differs(arg, "--refresh-data"@, 2);
    differs(arg, "--interactive"@, 2);
}

/// What stands behind `--offset=` is the number of documents that are passed over.
pub proof fn offset_arguments_name_a_count(options: OptionsView, value: Seq<char>)
    ensures
        crate::inventory_review::with_argument(options, "--offset="@ + value) == (match
        crate::attribute_inventory::count_value(value) {
            Ok(n) => Ok::<OptionsView, CountError>(OptionsView { offset: n, ..options }),
            Err(e) => Err(e),
        }),
{
    reveal_strlit("--refresh-data");
    reveal_strlit("--interactive");
    reveal_strlit("--state=");
    reveal_strlit("--offset=");
    let arg = "--offset="@ + value;
    stripped("--offset="@, value);
    assert(arg[2] == 'o');
    differs(arg, "--refresh-data"@, 2);
    differs(arg, "--interactive"@, 2);
    differs(arg, "--state="@, 2);
}

/// What stands behind `--limit=` is the number of documents that are shown at most.
pub proof fn limit_arguments_name_a_count(options: OptionsView, value: Seq<char>)
    ensures
        crate::inventory_review::with_argument(options, "--limit="@ + value) == (match
        crate::attribute_inventory::count_value(value) {
            Ok(n) => Ok::<OptionsView, CountError>(OptionsView { limit: Some(n), ..options }),
            Err(e) => Err(e),
        }),
{
    reveal_strlit("--refresh-data");
    reveal_strlit("--interactive");
    reveal_strlit("--state=");
    reveal_strlit("--offset=");
    reveal_strlit("--limit=");
    let arg = "--limit="@ + value;
    stripped("--limit="@, value);
    assert(arg[2] == 'l');
    differs(arg, "--refresh-data"@, 2);
    differs(arg, "--interactive"@, 2);
    differs(arg, "--state="@, 2);
    differs(arg, "--offset="@, 2);
}

/// What stands behind an argument for an export or an import is the file for it.
pub proof fn file_arguments_name_their_file(options: OptionsView, value: Seq<char>)
    ensures
        crate::inventory_review::with_argument(options, "--export-discovered="@ + value) == Ok::<
            OptionsView,
            CountError,
        >(OptionsView { export_discovered: Some(value), ..options }),
        crate::inventory_review::with_argument(options, "--export-aliases="@ + value) == Ok::<
            OptionsView,
            CountError,
        >(OptionsView { export_aliases: Some(value), ..options }),
        crate::inventory_review::with_argument(options, "--import-aliases="@ + value) == Ok::<
            OptionsView,
            CountError,
        >(OptionsView { import_aliases: Some(value), ..options }),
{
    reveal_strlit("--refresh-data");
    reveal_strlit("--interactive");
    reveal_strlit("--state=");
    reveal_strlit("--offset=");
    reveal_strlit("--limit=");
    reveal_strlit("--export-discovered=");
    reveal_strlit("--export-aliases=");
    reveal_strlit("--import-aliases=");
    let a = "--export-discovered="@ + value;
    let b = "--export-aliases="@ + value;
    let c = "--import-aliases="@ + value;
    stripped("--export-discovered="@, value);
    stripped("--export-aliases="@, value);
    stripped("--import-aliases="@, value);
    assert(a[2] == 'e' && b[2] == 'e' && c[2] == 'i' && c[3] == 'm' && b[9] == 'a');
    differs(a, "--refresh-data"@, 2);
    differs(a, "--interactive"@, 2);
    differs(a, "--state="@, 2);
    differs(a, "--offset="@, 2);
    differs(a, "--limit="@, 2);
    differs(b, "--refresh-data"@, 2);
    differs(b, "--interactive"@, 2);
    differs(b, "--state="@, 2);
    differs(b, "--offset="@, 2);
    differs(b, "--limit="@, 2);
    differs(b, "--export-discovered="@, 9);
    differs(c, "--refresh-data"@, 2);
    differs(c, "--interactive"@, 3);
    differs(c, "--state="@, 2);
    differs(c, "--offset="@, 2);
    differs(c, "--limit="@, 2);
    differs(c, "--export-discovered="@, 2);
    differs(c, "--export-aliases="@, 2);
}

/// The documents of a session are those behind the offset, in their order, and no more than the
/// limit.
pub proof fn sessions_show_a_stretch_of_documents(
    documents: Seq<AttributeInventoryDocument>,
    options: OptionsView,
    i: int,
)
    ensures
        ({
            let shown = crate::inventory_review::selected_documents(documents, options);
            let left: int = if options.offset < documents.len() {
                documents.len() - options.offset
            } else {
                0
            };
            &&& shown.len() == (if options.limit is Some && options.limit->0 < left {
                options.limit->0 as int
            } else {
                left
            })
            &&& 0 <= i < shown.len() ==> shown[i] == documents[options.offset + i]
        }),
{
}

/// One more candidate is pending just where its key was not reviewed.
pub proof fn candidates_are_pending_until_reviewed(
    state: AttributeInventoryState,
    candidates: Seq<AttributeCandidate>,
    one: AttributeCandidate,
)
    ensures
        crate::inventory_review::pending_in(state, Seq::empty()) == 0,
        crate::inventory_review::pending_in(state, candidates.push(one))
            == crate::inventory_review::pending_in(state, candidates) + (if
        state.reviewed_candidates@.contains_key(one.candidate_key@) {
            0int
        } else {
            1int
        }),
{
    assert(candidates.push(one).drop_last() =~= candidates);
}

/// A suggestion is picked by its number, counted from one; a number that there is none for is asked
/// for again, and so is an attribute that is not known.
pub proof fn suggestions_are_picked_from_one_on(
    state: AttributeInventoryState,
    suggestions: Seq<AttributeSuggestion>,
    n: usize,
)
    ensures
        ({
            let command = InventoryCommand::PickSuggestion(n);
            let turn = crate::inventory_review::turn_of(state, suggestions, command);
            let known = crate::attribute_inventory::known_views(state.known_attributes@);
            &&& n == 0 || n > suggestions.len() ==> turn == TurnView::AskAgain(
                "No suggestion #"@ + crate::text::decimal(n as nat) + "."@,
            ) && crate::inventory_review::mapped_id(command, suggestions) is None
            &&& 1 <= n <= suggestions.len() ==> {
                let id = suggestions[n as int - 1].id@;
                &&& crate::inventory_review::mapped_id(command, suggestions) == Some(id)
                &&& (exists|k: int| 0 <= k < known.len() && (#[trigger] known[k]).id == id) ==> turn
                    == TurnView::Reviewed
                &&& !(exists|k: int| 0 <= k < known.len() && (#[trigger] known[k]).id == id)
                    ==> turn == TurnView::AskAgain("unknown attribute id: "@ + id)
            }
        }),
{
    let known = crate::attribute_inventory::known_views(state.known_attributes@);
    if 1 <= n <= suggestions.len() {
        crate::attribute_inventory_laws::the_first_attribute_of_an_identity_is_found(
            known,
            suggestions[n as int - 1].id@,
        );
    }
}

/// A candidate is mapped to a named attribute where it is known, a new one is made where the name
/// gives an identity that is not known, a candidate is passed over on demand, and help and the end
/// are had without a decision.
pub proof fn commands_do_what_they_say(
    state: AttributeInventoryState,
    suggestions: Seq<AttributeSuggestion>,
    word: String,
)
    ensures
        ({
            let known = crate::attribute_inventory::known_views(state.known_attributes@);
            let named = exists|k: int| 0 <= k < known.len() && (#[trigger] known[k]).id == word@;
            let id = crate::attribute_inventory::attribute_id_of(word@);
            let taken = exists|k: int| 0 <= k < known.len() && (#[trigger] known[k]).id == id;
            let map = InventoryCommand::MapExisting(word);
            let make = InventoryCommand::CreateNew(word);
            &&& crate::inventory_review::mapped_id(map, suggestions) == Some(word@)
            &&& named ==> crate::inventory_review::turn_of(state, suggestions, map)
                == TurnView::Reviewed
            &&& !named ==> crate::inventory_review::turn_of(state, suggestions, map)
                == TurnView::AskAgain("unknown attribute id: "@ + word@)
            &&& id.len() == 0 ==> crate::inventory_review::turn_of(state, suggestions, make)
                == TurnView::AskAgain(
                "attribute name must contain at least one alphanumeric character"@,
            )
            &&& id.len() > 0 && taken ==> crate::inventory_review::turn_of(state, suggestions, make)
                == TurnView::AskAgain("attribute id already exists: "@ + id)
            &&& id.len() > 0 && !taken ==> crate::inventory_review::turn_of(
                state,
                suggestions,
                make,
            ) == TurnView::Created(id)
        }),
        crate::inventory_review::turn_of(state, suggestions, InventoryCommand::Help)
            == TurnView::Explain,
        crate::inventory_review::turn_of(state, suggestions, InventoryCommand::Quit)
            == TurnView::Quit,
        crate::inventory_review::turn_of(state, suggestions, InventoryCommand::Skip)
            == TurnView::Reviewed,
        crate::inventory_review::mapped_id(InventoryCommand::Skip, suggestions) is None,
        crate::inventory_review::action_of(InventoryCommand::Skip) == ReviewAction::Skipped,
        crate::inventory_review::action_of(InventoryCommand::MapExisting(word))
            == ReviewAction::Existing,
        crate::inventory_review::action_of(InventoryCommand::PickSuggestion(1))
            == ReviewAction::Existing,
{
    let known = crate::attribute_inventory::known_views(state.known_attributes@);
    crate::attribute_inventory_laws::the_first_attribute_of_an_identity_is_found(known, word@);
    crate::attribute_inventory_laws::the_first_attribute_of_an_identity_is_found(
        known,
        crate::attribute_inventory::attribute_id_of(word@),
    );
}

} // verus!
