//! The blue/green migration from one pair of keyspecs to another.

use vstd::prelude::*;

use crate::text::text4;

verus! {

/// The versions of the two keyspecs that a structure was built with.
#[derive(Debug, PartialEq, Eq)]
pub struct KeyspecVersionSet {
    pub routing_keyspec_version: String,
    pub identity_keyspec_version: String,
}

impl View for KeyspecVersionSet {
    type V = (Seq<char>, Seq<char>);

    open spec fn view(&self) -> (Seq<char>, Seq<char>) {
        (self.routing_keyspec_version@, self.identity_keyspec_version@)
    }
}

/// What is kept of a structure after it was replaced.
#[derive(Debug, PartialEq, Eq)]
pub struct RetainedKeyspecMetadata {
    pub routing_keyspec_version: String,
    pub identity_keyspec_version: String,
    pub partition_log_name: String,
}

impl View for RetainedKeyspecMetadata {
    type V = (Seq<char>, Seq<char>, Seq<char>);

    open spec fn view(&self) -> (Seq<char>, Seq<char>, Seq<char>) {
        (self.routing_keyspec_version@, self.identity_keyspec_version@, self.partition_log_name@)
    }
}

/// How far a migration has come.
#[derive(Debug, Clone, Copy, PartialEq, Eq, Structural)]
pub enum MigrationPhase {
    NewStructure,
    BulkRehomeModeB,
    IterativeCatchUp,
    Freeze,
    Cutover,
    Retired,
}

/// The place of a phase in the order of a migration.
pub open spec fn phase_rank(phase: MigrationPhase) -> int {
    match phase {
        MigrationPhase::NewStructure => 0,
        MigrationPhase::BulkRehomeModeB => 1,
        MigrationPhase::IterativeCatchUp => 2,
        MigrationPhase::Freeze => 3,
        MigrationPhase::Cutover => 4,
        MigrationPhase::Retired => 5,
    }
}

/// Why a migration step was refused.
#[derive(Debug, Clone, Copy, PartialEq, Eq, Structural)]
pub enum MigrationError {
    UnchangedKeyspec,
    PhaseOutOfOrder { expected: MigrationPhase, actual: MigrationPhase },
}

/// The name of a phase.
pub open spec fn phase_label(phase: MigrationPhase) -> Seq<char> {
    match phase {
        MigrationPhase::NewStructure => "NewStructure"@,
        MigrationPhase::BulkRehomeModeB => "BulkRehomeModeB"@,
        MigrationPhase::IterativeCatchUp => "IterativeCatchUp"@,
        MigrationPhase::Freeze => "Freeze"@,
        MigrationPhase::Cutover => "Cutover"@,
        MigrationPhase::Retired => "Retired"@,
    }
}

fn label(phase: MigrationPhase) -> (r: &'static str)
    ensures
        r@ == phase_label(phase),
{
    match phase {
        MigrationPhase::NewStructure => "NewStructure",
        MigrationPhase::BulkRehomeModeB => "BulkRehomeModeB",
        MigrationPhase::IterativeCatchUp => "IterativeCatchUp",
        MigrationPhase::Freeze => "Freeze",
        MigrationPhase::Cutover => "Cutover",
        MigrationPhase::Retired => "Retired",
    }
}

impl MigrationError {
    /// The text of the error.
    pub fn message(&self) -> (r: String)
        ensures
            r@ == (match *self {
                MigrationError::UnchangedKeyspec => "old and new keyspec versions must differ"@,
                MigrationError::PhaseOutOfOrder { expected, actual } =>
                    "migration phase out of order: expected "@ + phase_label(expected)
                    + ", actual "@ + phase_label(actual),
            }),
    {
        match *self {
            MigrationError::UnchangedKeyspec =>
                "old and new keyspec versions must differ".to_owned(),
            MigrationError::PhaseOutOfOrder { expected, actual } => text4(
                "migration phase out of order: expected ",
                label(expected),
                ", actual ",
                label(actual),
            ),
        }
    }
}

/// A migration: a new structure is filled next to the old one, catches up, and replaces it.
#[derive(Debug, PartialEq, Eq)]
pub struct BlueGreenKeyspecMigration {
    old_set: KeyspecVersionSet,
    new_set: KeyspecVersionSet,
    new_log: String,
    retained: RetainedKeyspecMetadata,
    at: MigrationPhase,
}

/// What a migration knows.
pub struct MigrationView {
    pub old_versions: (Seq<char>, Seq<char>),
    pub new_versions: (Seq<char>, Seq<char>),
    pub old_log: Seq<char>,
    pub new_log: Seq<char>,
    pub phase: MigrationPhase,
}

/// A migration whose phase was replaced.
pub open spec fn with_phase(migration: MigrationView, phase: MigrationPhase) -> MigrationView {
    MigrationView { phase, ..migration }
}

/// One step of a migration: from the one phase that it is allowed in to the next.
pub open spec fn advanced(
    before: MigrationView,
    after: MigrationView,
    r: Result<(), MigrationError>,
    expected: MigrationPhase,
    next: MigrationPhase,
) -> bool {
    if before.phase == expected {
        r == Ok::<(), MigrationError>(()) && after == with_phase(before, next)
    } else {
        r == Err::<(), MigrationError>(
            MigrationError::PhaseOutOfOrder { expected, actual: before.phase },
        ) && after == before
    }
}

impl View for BlueGreenKeyspecMigration {
    type V = MigrationView;

    closed spec fn view(&self) -> MigrationView {
        MigrationView {
            old_versions: self.old_set@,
            new_versions: self.new_set@,
            old_log: self.retained.partition_log_name@,
            new_log: self.new_log@,
            phase: self.at,
        }
    }
}

impl BlueGreenKeyspecMigration {
    /// What is retained of the old structure are its keyspec versions and the name of its log.
    #[verifier::type_invariant]
    spec fn retains_the_old(self) -> bool {
        self.retained@ == (self.old_set@.0, self.old_set@.1, self.retained.partition_log_name@)
    }

    pub fn create(
        old: KeyspecVersionSet,
        new: KeyspecVersionSet,
        old_partition_log_name: String,
        new_partition_log_name: String,
    ) -> (r: Result<BlueGreenKeyspecMigration, MigrationError>)
        ensures
            if old@ == new@ {
                r is Err && r->Err_0 == MigrationError::UnchangedKeyspec
            } else {
                r is Ok && r->Ok_0@ == (MigrationView {
                    old_versions: old@,
                    new_versions: new@,
                    old_log: old_partition_log_name@,
                    new_log: new_partition_log_name@,
                    phase: MigrationPhase::NewStructure,
                })
            },
    {
        if old.routing_keyspec_version == new.routing_keyspec_version
            && old.identity_keyspec_version == new.identity_keyspec_version {
            return Err(MigrationError::UnchangedKeyspec);
        }
        Ok(
            BlueGreenKeyspecMigration {
                retained: RetainedKeyspecMetadata {
                    routing_keyspec_version: old.routing_keyspec_version.clone(),
                    identity_keyspec_version: old.identity_keyspec_version.clone(),
                    partition_log_name: old_partition_log_name,
                },
                old_set: old,
                new_set: new,
                new_log: new_partition_log_name,
                at: MigrationPhase::NewStructure,
            },
        )
    }

    pub fn record_bulk_rehome_mode_b(&mut self) -> (r: Result<(), MigrationError>)
        ensures
            advanced(
                old(self)@,
                final(self)@,
                r,
                MigrationPhase::NewStructure,
                MigrationPhase::BulkRehomeModeB,
            ),
    {
        self.advance(MigrationPhase::NewStructure, MigrationPhase::BulkRehomeModeB)
    }

    pub fn record_iterative_catch_up(&mut self) -> (r: Result<(), MigrationError>)
        ensures
            advanced(
                old(self)@,
                final(self)@,
                r,
                MigrationPhase::BulkRehomeModeB,
                MigrationPhase::IterativeCatchUp,
            ),
    {
        self.advance(MigrationPhase::BulkRehomeModeB, MigrationPhase::IterativeCatchUp)
    }

    pub fn freeze(&mut self) -> (r: Result<(), MigrationError>)
        ensures
            advanced(
                old(self)@,
                final(self)@,
                r,
                MigrationPhase::IterativeCatchUp,
                MigrationPhase::Freeze,
            ),
    {
        self.advance(MigrationPhase::IterativeCatchUp, MigrationPhase::Freeze)
    }

    pub fn cutover_reads(&mut self) -> (r: Result<(), MigrationError>)
        ensures
            advanced(
                old(self)@,
                final(self)@,
                r,
                MigrationPhase::Freeze,
                MigrationPhase::Cutover,
            ),
    {
        self.advance(MigrationPhase::Freeze, MigrationPhase::Cutover)
    }

    pub fn retire_old_structure(&mut self) -> (r: Result<(), MigrationError>)
        ensures
            advanced(
                old(self)@,
                final(self)@,
                r,
                MigrationPhase::Cutover,
                MigrationPhase::Retired,
            ),
    {
        self.advance(MigrationPhase::Cutover, MigrationPhase::Retired)
    }

    pub fn phase(&self) -> (r: MigrationPhase)
        ensures
            r == self@.phase,
    {
        self.at
    }

    pub fn retained_old_metadata(&self) -> (r: &RetainedKeyspecMetadata)
        ensures
            r@ == (self@.old_versions.0, self@.old_versions.1, self@.old_log),
    {
        proof {
            use_type_invariant(self);
        }
        &self.retained
    }

    pub fn new_partition_log_name(&self) -> (r: &str)
        ensures
            r@ == self@.new_log,
    {
        self.new_log.as_str()
    }

    pub fn old_keyspecs(&self) -> (r: &KeyspecVersionSet)
        ensures
            r@ == self@.old_versions,
    {
        &self.old_set
    }

    pub fn new_keyspecs(&self) -> (r: &KeyspecVersionSet)
        ensures
            r@ == self@.new_versions,
    {
        &self.new_set
    }

    fn advance(&mut self, expected: MigrationPhase, next: MigrationPhase) -> (r: Result<
        (),
        MigrationError,
    >)
        ensures
            advanced(old(self)@, final(self)@, r, expected, next),
    {
        if self.at != expected {
            return Err(MigrationError::PhaseOutOfOrder { expected, actual: self.at });
        }
        proof {
            use_type_invariant(&*self);
        }
        self.at = next;
        Ok(())
    }
}

/// Whatever step is tried, a migration keeps what it knows of both structures, and its phase stays
/// or moves to the next one; no phase is skipped and none comes back.
pub proof fn migration_moves_forward_one_phase_at_a_time(
    before: MigrationView,
    after: MigrationView,
    r: Result<(), MigrationError>,
    expected: MigrationPhase,
    next: MigrationPhase,
)
    requires
        phase_rank(next) == phase_rank(expected) + 1,
        advanced(before, after, r, expected, next),
    ensures
        after == with_phase(before, after.phase),
        r is Ok ==> phase_rank(after.phase) == phase_rank(before.phase) + 1,
        r is Err ==> after == before,
{
}

} // verus!
