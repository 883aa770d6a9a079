//! The record kinds held in the store: todo records, vote records, and the
//! zero-payload vote receipts, with their byte budgets and patch shapes.

use vstd::prelude::*;

verus! {

/// An opaque public identifier of a party, compared by equality only.
pub struct Identity {
    pub bytes: Vec<u8>,
}

impl View for Identity {
    type V = Seq<u8>;

    open spec fn view(&self) -> Seq<u8> {
        self.bytes@
    }
}

impl Clone for Identity {
    fn clone(&self) -> (r: Self)
        ensures
            r@ == self@,
    {
        Identity { bytes: crate::address::copy_bytes(&self.bytes) }
    }
}

/// Byte budget of a todo title.
pub const TITLE_MAX_BYTES: usize = 50;

/// Byte budget of a todo description.
pub const DESCRIPTION_MAX_BYTES: usize = 200;

/// Byte budget of a vote name.
pub const NAME_MAX_BYTES: usize = 50;

/// A todo record.
pub struct TodoState {
    pub owner: Identity,
    pub title: Vec<u8>,
    pub description: Vec<u8>,
    pub is_active: bool,
    pub created_on: i64,
    pub modified_on: i64,
}

/// The mathematical value of a todo record.
pub struct TodoStateModel {
    pub owner: Seq<u8>,
    pub title: Seq<u8>,
    pub description: Seq<u8>,
    pub is_active: bool,
    pub created_on: i64,
    pub modified_on: i64,
}

impl View for TodoState {
    type V = TodoStateModel;

    open spec fn view(&self) -> TodoStateModel {
        TodoStateModel {
            owner: self.owner@,
            title: self.title@,
            description: self.description@,
            is_active: self.is_active,
            created_on: self.created_on,
            modified_on: self.modified_on,
        }
    }
}

/// A vote record.  `count` only ever grows, by one per successful cast.
pub struct VoteState {
    pub owner: Identity,
    pub name: Vec<u8>,
    pub count: u64,
    pub created_on: i64,
    pub modified_on: i64,
}

/// The mathematical value of a vote record; the count is unbounded here,
/// and the store proves it never outgrows the machine word.
pub struct VoteStateModel {
    pub owner: Seq<u8>,
    pub name: Seq<u8>,
    pub count: int,
    pub created_on: i64,
    pub modified_on: i64,
}

impl View for VoteState {
    type V = VoteStateModel;

    open spec fn view(&self) -> VoteStateModel {
        VoteStateModel {
            owner: self.owner@,
            name: self.name@,
            count: self.count as int,
            created_on: self.created_on,
            modified_on: self.modified_on,
        }
    }
}

/// A vote receipt carries no payload: its existence at its derived address
/// is itself the recorded fact.
pub struct VoteReceipt {}

/// A record of any kind, as stored at an address.
pub enum Record {
    Todo(TodoState),
    Vote(VoteState),
    Receipt(VoteReceipt),
}

/// The mathematical value of a stored record.
pub enum RecordModel {
    Todo(TodoStateModel),
    Vote(VoteStateModel),
    Receipt,
}

impl View for Record {
    type V = RecordModel;

    open spec fn view(&self) -> RecordModel {
        match self {
            Record::Todo(t) => RecordModel::Todo(t@),
            Record::Vote(v) => RecordModel::Vote(v@),
            Record::Receipt(_) => RecordModel::Receipt,
        }
    }
}

/// A sparse patch for a todo record: unset fields are left unchanged.
pub struct TodoPatch {
    pub title: Option<Vec<u8>>,
    pub description: Option<Vec<u8>>,
    pub is_active: Option<bool>,
}

/// The mathematical value of a todo patch.
pub struct TodoPatchModel {
    pub title: Option<Seq<u8>>,
    pub description: Option<Seq<u8>>,
    pub is_active: Option<bool>,
}

impl View for TodoPatch {
    type V = TodoPatchModel;

    open spec fn view(&self) -> TodoPatchModel {
        TodoPatchModel {
            title: match self.title {
                Some(t) => Some(t@),
                None => None,
            },
            description: match self.description {
                Some(d) => Some(d@),
                None => None,
            },
            is_active: self.is_active,
        }
    }
}

/// A sparse patch for a vote record: only the name can be patched; the
/// count is never touched by an update.
pub struct VotePatch {
    pub name: Option<Vec<u8>>,
}

/// The mathematical value of a vote patch.
pub struct VotePatchModel {
    pub name: Option<Seq<u8>>,
}

impl View for VotePatch {
    type V = VotePatchModel;

    open spec fn view(&self) -> VotePatchModel {
        VotePatchModel {
            name: match self.name {
                Some(n) => Some(n@),
                None => None,
            },
        }
    }
}

/// Whether a todo's initial fields are within their byte budgets.
pub open spec fn todo_fields_fit(title: Seq<u8>, description: Seq<u8>) -> bool {
    title.len() <= TITLE_MAX_BYTES && description.len() <= DESCRIPTION_MAX_BYTES
}

/// Whether every field a todo patch supplies is within its byte budget.
pub open spec fn todo_patch_fits(p: TodoPatchModel) -> bool {
    &&& match p.title {
        Some(t) => t.len() <= TITLE_MAX_BYTES,
        None => true,
    }
    &&& match p.description {
        Some(d) => d.len() <= DESCRIPTION_MAX_BYTES,
        None => true,
    }
}

/// Whether every field a vote patch supplies is within its byte budget.
pub open spec fn vote_patch_fits(p: VotePatchModel) -> bool {
    match p.name {
        Some(n) => n.len() <= NAME_MAX_BYTES,
        None => true,
    }
}

/// The todo record as it stands after a patch: supplied fields replace the
/// stored ones, unset fields stay, the owner and creation time never move,
/// and the modification time is stamped even if no field changed.
pub open spec fn todo_patched(t: TodoStateModel, p: TodoPatchModel, now: i64) -> TodoStateModel {
    TodoStateModel {
        owner: t.owner,
        title: match p.title {
            Some(x) => x,
            None => t.title,
        },
        description: match p.description {
            Some(x) => x,
            None => t.description,
        },
        is_active: match p.is_active {
            Some(x) => x,
            None => t.is_active,
        },
        created_on: t.created_on,
        modified_on: now,
    }
}

/// The vote record as it stands after a patch; the count is untouched.
pub open spec fn vote_patched(v: VoteStateModel, p: VotePatchModel, now: i64) -> VoteStateModel {
    VoteStateModel {
        owner: v.owner,
        name: match p.name {
            Some(x) => x,
            None => v.name,
        },
        count: v.count,
        created_on: v.created_on,
        modified_on: now,
    }
}

} // verus!
