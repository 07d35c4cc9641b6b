//! The review session of the attribute inventory: its options, and what each command does.

use vstd::prelude::*;
use vstd::string::*;

use crate::attribute_inventory::{
    parse_count, AttributeCandidate, AttributeInventoryDocument, AttributeInventoryState,
    AttributeSuggestion, CountError, InventoryCommand, ReviewAction, ReviewedCandidate,
};
use crate::text::{decimal_text, str_eq, strip_prefix};
use crate::time::Timestamp;

verus! {

/// What a session is started with; paths are texts.
#[derive(Debug, PartialEq, Eq)]
pub struct CliOptions {
    pub refresh_data: bool,
    pub state_path: String,
    pub offset: usize,
    pub limit: Option<usize>,
    pub export_discovered_path: Option<String>,
    pub export_aliases_path: Option<String>,
    pub import_aliases_path: Option<String>,
    pub interactive: bool,
}

/// What options say.
pub struct OptionsView {
    pub refresh_data: bool,
    pub state_path: Seq<char>,
    pub offset: nat,
    pub limit: Option<nat>,
    pub export_discovered: Option<Seq<char>>,
    pub export_aliases: Option<Seq<char>>,
    pub import_aliases: Option<Seq<char>>,
    pub interactive: bool,
}

impl View for CliOptions {
    type V = OptionsView;

    open spec fn view(&self) -> OptionsView {
        OptionsView {
            refresh_data: self.refresh_data,
            state_path: self.state_path@,
            offset: self.offset as nat,
            limit: match self.limit {
                Some(n) => Some(n as nat),
                None => None,
            },
            export_discovered: crate::text::opt_string(self.export_discovered_path),
            export_aliases: crate::text::opt_string(self.export_aliases_path),
            import_aliases: crate::text::opt_string(self.import_aliases_path),
            interactive: self.interactive,
        }
    }
}

/// The options of a session that was given none.
pub open spec fn default_options() -> OptionsView {
    OptionsView {
        refresh_data: false,
        state_path: ".\\data\\attribute_inventory_state.json"@,
        offset: 0,
        limit: None,
        export_discovered: None,
        export_aliases: None,
        import_aliases: None,
        interactive: false,
    }
}

/// What follows a prefix of a text.
pub open spec fn after(s: Seq<char>, prefix: Seq<char>) -> Seq<char> {
    s.skip(prefix.len() as int)
}

/// The options after one more argument; an argument that is none of them changes nothing.
pub open spec fn with_argument(options: OptionsView, arg: Seq<char>) -> Result<
    OptionsView,
    CountError,
> {
    if arg == "--refresh-data"@ {
        Ok(OptionsView { refresh_data: true, ..options })
    } else if arg == "--interactive"@ {
        Ok(OptionsView { interactive: true, ..options })
    } else if crate::text::begins(arg, "--state="@) {
        Ok(OptionsView { state_path: after(arg, "--state="@), ..options })
    } else if crate::text::begins(arg, "--offset="@) {
        match crate::attribute_inventory::count_value(after(arg, "--offset="@)) {
            Ok(n) => Ok(OptionsView { offset: n, ..options }),
            Err(e) => Err(e),
        }
    } else if crate::text::begins(arg, "--limit="@) {
        match crate::attribute_inventory::count_value(after(arg, "--limit="@)) {
            Ok(n) => Ok(OptionsView { limit: Some(n), ..options }),
            Err(e) => Err(e),
        }
    } else if crate::text::begins(arg, "--export-discovered="@) {
        Ok(
            OptionsView {
                export_discovered: Some(after(arg, "--export-discovered="@)),
                ..options
            },
        )
    } else if crate::text::begins(arg, "--export-aliases="@) {
        Ok(OptionsView { export_aliases: Some(after(arg, "--export-aliases="@)), ..options })
    } else if crate::text::begins(arg, "--import-aliases="@) {
        Ok(OptionsView { import_aliases: Some(after(arg, "--import-aliases="@)), ..options })
    } else {
        Ok(options)
    }
}

/// The options that a list of arguments gives; later arguments prevail.
pub open spec fn options_of(args: Seq<Seq<char>>) -> Result<OptionsView, CountError>
    decreases args.len(),
{
    if args.len() == 0 {
        Ok(default_options())
    } else {
        match options_of(args.drop_last()) {
            Ok(options) => with_argument(options, args.last()),
            Err(e) => Err(e),
        }
    }
}

proof fn fault_stays(args: Seq<Seq<char>>, i: int)
    requires
        0 <= i <= args.len(),
        options_of(args.take(i)) is Err,
    ensures
        options_of(args) == options_of(args.take(i)),
    decreases args.len() - i,
{
    if i < args.len() {
        assert(args.take(i + 1).drop_last() =~= args.take(i));
        fault_stays(args, i + 1);
    } else {
        assert(args.take(i) =~= args);
    }
}

/// Reads the options of a session from its arguments.
pub fn parse_options(args: &[String]) -> (r: Result<CliOptions, CountError>)
    ensures
        match r {
            Ok(options) => options_of(crate::text::strings(args@)) == Ok::<OptionsView, CountError>(
                options@,
            ),
            Err(e) => options_of(crate::text::strings(args@)) == Err::<OptionsView, CountError>(e),
        },
{
    let ghost views = crate::text::strings(args@);
    let mut options = CliOptions {
        refresh_data: false,
        state_path: ".\\data\\attribute_inventory_state.json".to_owned(),
        offset: 0,
        limit: None,
        export_discovered_path: None,
        export_aliases_path: None,
        import_aliases_path: None,
        interactive: false,
    };
    let mut i: usize = 0;
    assert(views.take(0) =~= Seq::<Seq<char>>::empty());
    while i < args.len()
        invariant
            i <= args.len(),
            views == crate::text::strings(args@),
            options_of(views.take(i as int)) == Ok::<OptionsView, CountError>(options@),
        decreases args.len() - i,
    {
        proof {
            assert(views.take(i + 1).drop_last() =~= views.take(i as int));
            assert(views.take(i + 1).last() == args@[i as int]@);
            if options_of(views.take(i + 1)) is Err {
                fault_stays(views, i + 1);
            }
        }
        let arg = args[i].as_str();
        if str_eq(arg, "--refresh-data") {
            options.refresh_data = true;
        } else if str_eq(arg, "--interactive") {
            options.interactive = true;
        } else if let Some(raw) = strip_prefix(arg, "--state=") {
            options.state_path = raw.to_owned();
        } else if let Some(raw) = strip_prefix(arg, "--offset=") {
            match parse_count(raw) {
                Ok(n) => {
                    options.offset = n;
                },
                Err(e) => return Err(e),
            }
        } else if let Some(raw) = strip_prefix(arg, "--limit=") {
            match parse_count(raw) {
                Ok(n) => {
                    options.limit = Some(n);
                },
                Err(e) => return Err(e),
            }
        } else if let Some(raw) = strip_prefix(arg, "--export-discovered=") {
            options.export_discovered_path = Some(raw.to_owned());
        } else if let Some(raw) = strip_prefix(arg, "--export-aliases=") {
            options.export_aliases_path = Some(raw.to_owned());
        } else if let Some(raw) = strip_prefix(arg, "--import-aliases=") {
            options.import_aliases_path = Some(raw.to_owned());
        }
        i = i + 1;
    }
    assert(views.take(i as int) =~= views);
    Ok(options)
}

impl CliOptions {
    /// Whether a session ends before its review: something was exported or imported, and no review
    /// was asked for.
    pub fn ends_without_review(&self) -> (r: bool)
        ensures
            r == ((self.export_discovered_path is Some || self.export_aliases_path is Some
                || self.import_aliases_path is Some) && !self.interactive),
    {
        (self.export_discovered_path.is_some() || self.export_aliases_path.is_some()
            || self.import_aliases_path.is_some()) && !self.interactive
    }

    /// The documents of a session, from the offset on and up to the limit.
    pub fn select(&self, documents: Vec<AttributeInventoryDocument>) -> (r: Vec<
        AttributeInventoryDocument,
    >)
        ensures
            r@ == selected_documents(documents@, self@),
    {
        let mut rest = documents;
        let n: usize = rest.len();
        let from: usize = if self.offset < n {
            self.offset
        } else {
            n
        };
        let mut kept = rest.split_off(from);
        match self.limit {
            Some(limit) => {
                kept.truncate(limit);
            },
            None => {},
        }
        assert(kept@ =~= selected_documents(documents@, self@));
        kept
    }
}

/// The documents from an offset on, up to a limit.
pub open spec fn selected_documents(
    documents: Seq<AttributeInventoryDocument>,
    options: OptionsView,
) -> Seq<AttributeInventoryDocument> {
    let rest = if options.offset < documents.len() {
        documents.skip(options.offset as int)
    } else {
        Seq::empty()
    };
    match options.limit {
        Some(limit) => if limit < rest.len() {
            rest.take(limit as int)
        } else {
            rest
        },
        None => rest,
    }
}

/// How many candidates of a list were not reviewed yet.
pub open spec fn pending_in(
    state: AttributeInventoryState,
    candidates: Seq<AttributeCandidate>,
) -> nat
    decreases candidates.len(),
{
    if candidates.len() == 0 {
        0
    } else {
        pending_in(state, candidates.drop_last())
            + if state.reviewed_candidates@.contains_key(candidates.last().candidate_key@) {
            0nat
        } else {
            1nat
        }
    }
}

/// Counts the candidates of a document that were not reviewed yet.
pub fn pending_in_document(
    state: &AttributeInventoryState,
    document: &AttributeInventoryDocument,
) -> (r: usize)
    ensures
        r == pending_in(*state, document.candidates@),
{
    let mut n: usize = 0;
    let mut i: usize = 0;
    assert(document.candidates@.take(0) =~= Seq::<AttributeCandidate>::empty());
    while i < document.candidates.len()
        invariant
            i <= document.candidates.len(),
            n <= i,
            n == pending_in(*state, document.candidates@.take(i as int)),
        decreases document.candidates.len() - i,
    {
        assert(document.candidates@.take(i + 1).drop_last() =~= document.candidates@.take(
            i as int,
        ));
        if !state.is_reviewed(&document.candidates[i]) {
            n = n + 1;
        }
        i = i + 1;
    }
    assert(document.candidates@.take(i as int) =~= document.candidates@);
    n
}

/// What a session does after a command.
#[derive(Debug, PartialEq, Eq)]
pub enum ReviewTurn {
    /// The candidate was reviewed: save, and go on with the next.
    Reviewed,
    /// A new attribute was made, of this identity: save, and go on with the next.
    Created(String),
    /// Nothing was decided: say why, and ask again.
    AskAgain(String),
    /// Explain the commands, and ask again.
    Explain,
    /// Save, and end the session.
    Quit,
}

/// What a turn of the session does.
pub enum TurnView {
    Reviewed,
    Created(Seq<char>),
    AskAgain(Seq<char>),
    Explain,
    Quit,
}

impl View for ReviewTurn {
    type V = TurnView;

    open spec fn view(&self) -> TurnView {
        match *self {
            ReviewTurn::Reviewed => TurnView::Reviewed,
            ReviewTurn::Created(id) => TurnView::Created(id@),
            ReviewTurn::AskAgain(message) => TurnView::AskAgain(message@),
            ReviewTurn::Explain => TurnView::Explain,
            ReviewTurn::Quit => TurnView::Quit,
        }
    }
}

/// The attribute that a command maps a candidate to, where it names one.
pub open spec fn mapped_id(
    command: InventoryCommand,
    suggestions: Seq<AttributeSuggestion>,
) -> Option<Seq<char>> {
    match command {
        InventoryCommand::PickSuggestion(n) => if 1 <= n <= suggestions.len() {
            Some(suggestions[n - 1].id@)
        } else {
            None
        },
        InventoryCommand::MapExisting(id) => Some(id@),
        _ => None,
    }
}

/// The kind of review that a command makes where it maps or passes over a candidate.
pub open spec fn action_of(command: InventoryCommand) -> ReviewAction {
    if command is Skip {
        ReviewAction::Skipped
    } else {
        ReviewAction::Existing
    }
}

/// What a command does to a candidate: the turn of the session that follows.
pub open spec fn turn_of(
    state: AttributeInventoryState,
    suggestions: Seq<AttributeSuggestion>,
    command: InventoryCommand,
) -> TurnView {
    let known = crate::attribute_inventory::known_views(state.known_attributes@);
    match command {
        InventoryCommand::Help => TurnView::Explain,
        InventoryCommand::Quit => TurnView::Quit,
        InventoryCommand::Skip => TurnView::Reviewed,
        InventoryCommand::CreateNew(name) => {
            let id = crate::attribute_inventory::attribute_id_of(name@);
            if id.len() == 0 {
                TurnView::AskAgain(
                    "attribute name must contain at least one alphanumeric character"@,
                )
            } else if crate::attribute_inventory::attribute_index(known, id) is Some {
                TurnView::AskAgain("attribute id already exists: "@ + id)
            } else {
                TurnView::Created(id)
            }
        },
        _ => match mapped_id(command, suggestions) {
            None => TurnView::AskAgain(
                "No suggestion #"@ + crate::text::decimal(command->PickSuggestion_0 as nat) + "."@,
            ),
            Some(id) => if crate::attribute_inventory::attribute_index(known, id) is Some {
                TurnView::Reviewed
            } else {
                TurnView::AskAgain("unknown attribute id: "@ + id)
            },
        },
    }
}

/// Carries out a command for a candidate. The candidate is reviewed exactly where the session goes
/// on to the next; otherwise the state stays as it is.
pub fn review_turn(
    state: &mut AttributeInventoryState,
    candidate: &AttributeCandidate,
    suggestions: &[AttributeSuggestion],
    command: InventoryCommand,
    now: Timestamp,
) -> (r: ReviewTurn)
    ensures
        r@ == turn_of(*old(state), suggestions@, command),
        final(state).version == old(state).version,
        ({
            let known = crate::attribute_inventory::known_views(old(state).known_attributes@);
            let now_known = final(state).known_attributes@;
            match (r, mapped_id(command, suggestions@), command) {
                (ReviewTurn::Reviewed, Some(id), _) => {
                    let i = crate::attribute_inventory::attribute_index(known, id)->0;
                    crate::attribute_inventory::known_views(now_known) == known.update(
                        i,
                        crate::attribute_inventory::absorbed(known[i], candidate@),
                    )
                },
                (ReviewTurn::Created(_), _, InventoryCommand::CreateNew(name)) =>
                    crate::attribute_inventory::sorted_attributes(
                    now_known,
                    known.push(
                        crate::attribute_inventory::new_attribute(name@, candidate@),
                    ),
                ),
                _ => now_known == old(state).known_attributes@,
            }
        }),
        match r {
            ReviewTurn::Reviewed => final(state).reviewed_candidates@.contains_key(
                candidate.candidate_key@,
            ) && exists|record: ReviewedCandidate|
                {
                    &&& #[trigger] crate::attribute_inventory::records(
                        record,
                        candidate@,
                        action_of(command),
                        mapped_id(command, suggestions@),
                        now,
                    )
                    &&& final(state).reviewed_candidates@ == old(state).reviewed_candidates@.insert(
                        candidate.candidate_key@,
                        record,
                    )
                },
            ReviewTurn::Created(id) => exists|record: ReviewedCandidate|
                {
                    &&& #[trigger] crate::attribute_inventory::records(
                        record,
                        candidate@,
                        ReviewAction::New,
                        Some(id@),
                        now,
                    )
                    &&& final(state).reviewed_candidates@ == old(state).reviewed_candidates@.insert(
                        candidate.candidate_key@,
                        record,
                    )
                },
            _ => final(state).known_attributes@ == old(state).known_attributes@
                && final(state).reviewed_candidates@ == old(state).reviewed_candidates@,
        },
{
    match command {
        InventoryCommand::Help => ReviewTurn::Explain,
        InventoryCommand::Quit => ReviewTurn::Quit,
        InventoryCommand::Skip => {
            state.review_skip(candidate, now);
            ReviewTurn::Reviewed
        },
        InventoryCommand::CreateNew(name) => match state.review_new(
            candidate,
            name.as_str(),
            now,
        ) {
            Ok(id) => ReviewTurn::Created(id),
            Err(message) => ReviewTurn::AskAgain(message),
        },
        InventoryCommand::PickSuggestion(n) => {
            if n == 0 || n > suggestions.len() {
                let mut message = "No suggestion #".to_owned();
                message.append(decimal_text(n as u64).as_str());
                message.append(".");
                return ReviewTurn::AskAgain(message);
            }
            match state.review_existing(candidate, suggestions[n - 1].id.as_str(), now) {
                Ok(_) => ReviewTurn::Reviewed,
                Err(message) => ReviewTurn::AskAgain(message),
            }
        },
        InventoryCommand::MapExisting(id) => match state.review_existing(
            candidate,
            id.as_str(),
            now,
        ) {
            Ok(_) => ReviewTurn::Reviewed,
            Err(message) => ReviewTurn::AskAgain(message),
        },
    }
}

} // verus!
