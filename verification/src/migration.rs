//! The rule of the migration runner: a change set is applied only if it was
//! never applied before, and one that was applied must not have changed
//! since.

use vstd::prelude::*;

verus! {

/// What to do with one migration file.
#[derive(Debug, Clone, Copy, PartialEq, Eq, Structural)]
pub enum MigrationStep {
    /// Never applied: run it and record its checksum.
    Apply,
    /// Applied before with the same content: leave it.
    AlreadyApplied,
    /// Applied before with other content: the ledger and the file disagree.
    ChecksumMismatch,
}

/// The step that the ledger calls for.
pub open spec fn step_for(recorded: Option<Seq<char>>, checksum: Seq<char>) -> MigrationStep {
    match recorded {
        None => MigrationStep::Apply,
        Some(known) => if known == checksum {
            MigrationStep::AlreadyApplied
        } else {
            MigrationStep::ChecksumMismatch
        },
    }
}

/// The checksum that the ledger holds, as a sequence of characters.
pub open spec fn recorded_text(recorded: Option<String>) -> Option<Seq<char>> {
    match recorded {
        Some(known) => Some(known@),
        None => None,
    }
}

/// Decides what to do with a migration file, from the checksum that the
/// ledger holds for its name, if any, and the checksum of the file as it is
/// now.
pub fn next_step(recorded: &Option<String>, checksum: &String) -> (step: MigrationStep)
    ensures
        step == step_for(recorded_text(*recorded), checksum@),
{
    match recorded {
        None => MigrationStep::Apply,
        Some(known) => {
            if *known == *checksum {
                MigrationStep::AlreadyApplied
            } else {
                MigrationStep::ChecksumMismatch
            }
        },
    }
}

/// Decides what to do with a migration file, from the checksum that the
/// ledger holds for its name, if any, and the content of the file as it is
/// now. The checksum of that content is handed out as well, to be recorded
/// once the file is applied.
pub fn inspect(recorded: &Option<String>, content: &[u8]) -> (r: (MigrationStep, String))
    ensures
        r.1@ == crate::checksum::checksum(content@),
        r.0 == step_for(recorded_text(*recorded), crate::checksum::checksum(content@)),
{
    let checksum = crate::checksum::checksum_of(content);
    let step = next_step(recorded, &checksum);
    (step, checksum)
}

/// One line of the ledger: a change set that was applied, and the checksum
/// that its file had then.
#[derive(Debug, Clone, PartialEq, Eq)]
pub struct LedgerEntry {
    pub file_name: String,
    pub checksum: String,
}

/// What a list of entries records: for each file name the checksum of the
/// entry that names it last.
pub open spec fn recorded_by(entries: Seq<LedgerEntry>) -> Map<Seq<char>, Seq<char>>
    decreases entries.len(),
{
    if entries.len() == 0 {
        Map::empty()
    } else {
        recorded_by(entries.drop_last()).insert(entries.last().file_name@, entries.last().checksum@)
    }
}

/// The checksum that a ledger holds for a file name, if any.
pub open spec fn lookup(ledger: Map<Seq<char>, Seq<char>>, file_name: Seq<char>) -> Option<
    Seq<char>,
> {
    if ledger.dom().contains(file_name) {
        Some(ledger[file_name])
    } else {
        None
    }
}

/// The ledger of the migration runner: which change sets were applied, each
/// with the checksum of its content.
#[derive(Debug, Clone, PartialEq, Eq)]
pub struct MigrationLedger {
    entries: Vec<LedgerEntry>,
}

impl View for MigrationLedger {
    type V = Map<Seq<char>, Seq<char>>;

    /// The checksum recorded for each file name.
    closed spec fn view(&self) -> Map<Seq<char>, Seq<char>> {
        recorded_by(self.entries@)
    }
}

impl MigrationLedger {
    /// A ledger in which nothing is recorded.
    pub fn new() -> (ledger: Self)
        ensures
            ledger@ == Map::<Seq<char>, Seq<char>>::empty(),
    {
        MigrationLedger { entries: Vec::new() }
    }

    /// Records that the change set of this name was applied with this
    /// checksum, in place of what was recorded for the name before.
    pub fn record(&mut self, file_name: String, checksum: String)
        ensures
            final(self)@ == old(self)@.insert(file_name@, checksum@),
    {
        let ghost before = self.entries@;
        self.entries.push(LedgerEntry { file_name, checksum });
        assert(self.entries@.drop_last() =~= before);
    }

    /// The checksum recorded for a file name, if any.
    pub fn recorded(&self, file_name: &String) -> (r: Option<String>)
        ensures
            recorded_text(r) == lookup(self@, file_name@),
    {
        let mut i: usize = self.entries.len();
        assert(self.entries@.take(i as int) =~= self.entries@);
        while i > 0
            invariant
                i <= self.entries@.len(),
                lookup(self@, file_name@) == lookup(
                    recorded_by(self.entries@.take(i as int)),
                    file_name@,
                ),
            decreases i,
        {
            let entry = &self.entries[i - 1];
            proof {
                let shorter = self.entries@.take(i as int);
                assert(shorter.drop_last() =~= self.entries@.take(i as int - 1));
                assert(shorter.last() == *entry);
            }
            if entry.file_name == *file_name {
                return Some(entry.checksum.clone());
            }
            i -= 1;
        }
        None
    }

    /// Decides what to do with a migration file, from what the ledger holds
    /// for its name and the content of the file as it is now. The checksum
    /// of that content is handed out as well.
    pub fn inspect(&self, file_name: &String, content: &[u8]) -> (r: (MigrationStep, String))
        ensures
            r.1@ == crate::checksum::checksum(content@),
            r.0 == step_for(lookup(self@, file_name@), crate::checksum::checksum(content@)),
    {
        let recorded = self.recorded(file_name);
        inspect(&recorded, content)
    }
}

/// A change set that was recorded is not applied again while its content
/// stays the same, and is refused once its checksum has changed.
pub proof fn lemma_gate_is_idempotent(
    ledger: Map<Seq<char>, Seq<char>>,
    file_name: Seq<char>,
    checksum: Seq<char>,
    other: Seq<char>,
)
    ensures
        step_for(lookup(ledger.insert(file_name, checksum), file_name), checksum)
            == MigrationStep::AlreadyApplied,
        other != checksum ==> step_for(lookup(ledger.insert(file_name, checksum), file_name), other)
            == MigrationStep::ChecksumMismatch,
        !ledger.dom().contains(file_name) ==> step_for(lookup(ledger, file_name), checksum)
            == MigrationStep::Apply,
{
}

/// Whether a file name has the form of a migration: something, a dot, and
/// the extension `sql`.
pub open spec fn names_migration(file_name: Seq<char>) -> bool {
    &&& file_name.len() > 4
    &&& file_name.subrange(file_name.len() - 4, file_name.len() as int) == seq!['.', 's', 'q', 'l']
}

/// Whether a file of this name is a migration. A name that is nothing but
/// `.sql` has no extension and is none.
pub fn is_migration_file(file_name: &str) -> (r: bool)
    ensures
        r == names_migration(file_name@),
{
    let n = file_name.unicode_len();
    if n <= 4 {
        return false;
    }
    let r = file_name.get_char(n - 4) == '.' && file_name.get_char(n - 3) == 's'
        && file_name.get_char(n - 2) == 'q' && file_name.get_char(n - 1) == 'l';
    proof {
        let tail = file_name@.subrange(n - 4, n as int);
        if r {
            assert(tail =~= seq!['.', 's', 'q', 'l']);
        } else {
            assert(tail[0] == file_name@[n - 4]);
            assert(tail[1] == file_name@[n - 3]);
            assert(tail[2] == file_name@[n - 2]);
            assert(tail[3] == file_name@[n - 1]);
        }
    }
    r
}

} // verus!
