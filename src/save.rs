use vstd::prelude::*;
use crate::contractor::Contractor;

verus! {

/// The stage of a save at which a failure happened.
#[derive(Clone, Copy, Debug, PartialEq, Eq)]
pub enum SaveStage {
    Connection,
    Begin,
    ContractorInsert,
    AccountInsert,
    Commit,
}

/// A failed save: the stage that failed and the storage engine's own words.
#[derive(Debug, PartialEq, Eq)]
pub struct SaveError {
    pub stage: SaveStage,
    pub detail: String,
}

pub open spec fn stage_label(stage: SaveStage) -> Seq<char> {
    match stage {
        SaveStage::Connection => "Database connection error: "@,
        SaveStage::Begin => "Error starting transaction: "@,
        SaveStage::ContractorInsert => "Error saving contractor: "@,
        SaveStage::AccountInsert => "Error saving account number: "@,
        SaveStage::Commit => "Error committing transaction: "@,
    }
}

impl SaveError {
    /// A readable cause: the failed stage, then the storage engine's words.
    pub fn message(&self) -> (r: String)
        ensures
            r@ == stage_label(self.stage) + self.detail@,
    {
        let label = match self.stage {
            SaveStage::Connection => "Database connection error: ",
            SaveStage::Begin => "Error starting transaction: ",
            SaveStage::ContractorInsert => "Error saving contractor: ",
            SaveStage::AccountInsert => "Error saving account number: ",
            SaveStage::Commit => "Error committing transaction: ",
        };
        let mut text = String::from_str(label);
        text.append(self.detail.as_str());
        text
    }
}

/// What the storage reported for the last action performed.
pub enum SaveEvent {
    /// The action succeeded.
    Completed,
    /// The contractor row was inserted under this generated identifier.
    Inserted(i64),
    /// The action failed, with the storage engine's words.
    Failed(String),
}

/// The next thing to do against the storage.
#[derive(Debug, PartialEq, Eq)]
pub enum SaveAction {
    AcquireConnection,
    BeginTransaction,
    /// Insert the contractor row; the storage answers with its identifier.
    InsertContractor,
    /// Insert the account number at `index` of the contractor's list, under
    /// the contractor row `contractor_id`.
    InsertAccount { contractor_id: i64, index: usize },
    Commit,
    /// The save is over. On `Err` the open transaction, if any, is dropped,
    /// which rolls it back.
    Finish(Result<(), SaveError>),
}

/// Where a save stands: what it waits for.
#[derive(Clone, Copy, Debug, PartialEq, Eq)]
pub enum SavePhase {
    AwaitingConnection,
    AwaitingBegin,
    AwaitingContractor,
    AwaitingAccount { contractor_id: i64, index: usize },
    AwaitingCommit,
    Finished,
}

/// One save of one contractor as a single transaction: a connection, a
/// transaction, the contractor row, one row per account number in list order,
/// and a commit that comes only after every insert succeeded. The tax id is
/// not checked for duplicates: saving one tax id twice stores two contractors.
pub struct SaveSession {
    pub contractor: Contractor,
    pub phase: SavePhase,
}

pub open spec fn failed_stage(phase: SavePhase) -> SaveStage {
    match phase {
        SavePhase::AwaitingConnection => SaveStage::Connection,
        SavePhase::AwaitingBegin => SaveStage::Begin,
        SavePhase::AwaitingContractor => SaveStage::ContractorInsert,
        SavePhase::AwaitingAccount { .. } => SaveStage::AccountInsert,
        _ => SaveStage::Commit,
    }
}

/// Whether `event` answers the action that `phase` waits on.
pub open spec fn accepts(phase: SavePhase, event: SaveEvent) -> bool {
    match phase {
        SavePhase::Finished => false,
        SavePhase::AwaitingContractor => !(event is Completed),
        _ => !(event is Inserted),
    }
}

/// The phase and action that follow one event, for a contractor with
/// `n` account numbers.
pub open spec fn next_step(phase: SavePhase, event: SaveEvent, n: int) -> (SavePhase, SaveAction) {
    match event {
        SaveEvent::Failed(detail) => (
            SavePhase::Finished,
            SaveAction::Finish(Err(SaveError { stage: failed_stage(phase), detail })),
        ),
        SaveEvent::Inserted(id) => if n == 0 {
            (SavePhase::AwaitingCommit, SaveAction::Commit)
        } else {
            (
                SavePhase::AwaitingAccount { contractor_id: id, index: 0 },
                SaveAction::InsertAccount { contractor_id: id, index: 0 },
            )
        },
        SaveEvent::Completed => match phase {
            SavePhase::AwaitingConnection => (SavePhase::AwaitingBegin, SaveAction::BeginTransaction),
            SavePhase::AwaitingBegin => (SavePhase::AwaitingContractor, SaveAction::InsertContractor),
            SavePhase::AwaitingAccount { contractor_id, index } => if index + 1 < n {
                (
                    SavePhase::AwaitingAccount { contractor_id, index: (index + 1) as usize },
                    SaveAction::InsertAccount { contractor_id, index: (index + 1) as usize },
                )
            } else {
                (SavePhase::AwaitingCommit, SaveAction::Commit)
            },
            _ => (SavePhase::Finished, SaveAction::Finish(Ok(()))),
        },
    }
}

impl SaveSession {
    pub open spec fn wf(&self) -> bool {
        match self.phase {
            SavePhase::AwaitingAccount { index, .. } => index < self.contractor.accounts_numbers@.len(),
            _ => true,
        }
    }

    /// Opens a save of `contractor`; the first action is to acquire a connection.
    pub fn start(contractor: Contractor) -> (r: (SaveSession, SaveAction))
        ensures
            r.0.wf(),
            r.0.contractor == contractor,
            r.0.phase == SavePhase::AwaitingConnection,
            r.1 == SaveAction::AcquireConnection,
    {
        (SaveSession { contractor, phase: SavePhase::AwaitingConnection }, SaveAction::AcquireConnection)
    }

    /// Whether `event` answers the action that this save waits on.
    pub fn accepts(&self, event: &SaveEvent) -> (r: bool)
        ensures
            r == accepts(self.phase, *event),
    {
        match self.phase {
            SavePhase::Finished => false,
            SavePhase::AwaitingContractor => !matches!(event, SaveEvent::Completed),
            _ => !matches!(event, SaveEvent::Inserted(_)),
        }
    }

    /// Takes the storage's answer to the last action and gives the next action.
    pub fn step(&mut self, event: SaveEvent) -> (r: SaveAction)
        requires
            old(self).wf(),
            accepts(old(self).phase, event),
        ensures
            final(self).wf(),
            final(self).contractor == old(self).contractor,
            (final(self).phase, r) == next_step(
                old(self).phase,
                event,
                old(self).contractor.accounts_numbers@.len() as int,
            ),
    {
        let n = self.contractor.accounts_numbers.len();
        let (phase, action) = match event {
            SaveEvent::Failed(detail) => {
                let stage = match self.phase {
                    SavePhase::AwaitingConnection => SaveStage::Connection,
                    SavePhase::AwaitingBegin => SaveStage::Begin,
                    SavePhase::AwaitingContractor => SaveStage::ContractorInsert,
                    SavePhase::AwaitingAccount { .. } => SaveStage::AccountInsert,
                    _ => SaveStage::Commit,
                };
                (SavePhase::Finished, SaveAction::Finish(Err(SaveError { stage, detail })))
            },
            SaveEvent::Inserted(id) => {
                if n == 0 {
                    (SavePhase::AwaitingCommit, SaveAction::Commit)
                } else {
                    (
                        SavePhase::AwaitingAccount { contractor_id: id, index: 0 },
                        SaveAction::InsertAccount { contractor_id: id, index: 0 },
                    )
                }
            },
            SaveEvent::Completed => match self.phase {
                SavePhase::AwaitingConnection => (SavePhase::AwaitingBegin, SaveAction::BeginTransaction),
                SavePhase::AwaitingBegin => (SavePhase::AwaitingContractor, SaveAction::InsertContractor),
                SavePhase::AwaitingAccount { contractor_id, index } => {
                    if index + 1 < n {
                        (
                            SavePhase::AwaitingAccount { contractor_id, index: index + 1 },
                            SaveAction::InsertAccount { contractor_id, index: index + 1 },
                        )
                    } else {
                        (SavePhase::AwaitingCommit, SaveAction::Commit)
                    }
                },
                _ => (SavePhase::Finished, SaveAction::Finish(Ok(()))),
            },
        };
        self.phase = phase;
        action
    }
}

} // verus!
