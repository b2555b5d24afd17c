use vstd::prelude::*;

verus! {

/// Two-state tombstone tag of a memo. A memo starts `Active` and can only
/// ever move to `Deleted`: the one transition offered is [`MemoStatus::tombstone`],
/// and no operation goes the other way.
#[derive(Clone, Copy, PartialEq, Eq, Structural, Debug)]
pub enum MemoStatus {
    Active,
    Deleted,
}

impl MemoStatus {
    /// The one-way transition: whatever the status was, the result is `Deleted`.
    pub fn tombstone(self) -> (s: MemoStatus)
        ensures
            s == MemoStatus::Deleted,
    {
        MemoStatus::Deleted
    }

    pub open spec fn is_deleted(self) -> bool {
        self == MemoStatus::Deleted
    }
}

/// Mathematical value of a memo as the read operations return it.
/// The tombstone flag never appears here: the filtered reads only ever
/// hand out active records.
pub ghost struct MemoModel {
    /// Unique id the store assigned at creation; immutable, never reused.
    pub id: int,
    /// User-supplied text; mutated only by the update operation.
    pub content: Seq<char>,
    /// Caller-supplied creation timestamp; set once, immutable.
    pub created_at: int,
}

/// A memo record as the repository returns it. The creation time is a
/// caller-supplied timestamp held as a plain integer.
pub struct Memo {
    pub id: i32,
    pub content: String,
    pub created_at: i64,
}

impl View for Memo {
    type V = MemoModel;

    open spec fn view(&self) -> MemoModel {
        MemoModel {
            id: self.id as int,
            content: self.content@,
            created_at: self.created_at as int,
        }
    }
}

impl Memo {
    /// An explicit copy with a full contract: the derived `Clone` on a
    /// struct carrying a `String` tells the verifier nothing.
    pub fn duplicate(&self) -> (m: Memo)
        ensures
            m@ == self@,
    {
        Memo { id: self.id, content: self.content.clone(), created_at: self.created_at }
    }
}

/// Dormant pagination shape that the persisted schema carries; no repository
/// operation consumes it.
#[derive(Clone, Copy, PartialEq, Eq, Structural, Debug)]
pub struct Pages {
    pub prev: i32,
    pub id: i32,
    pub next: i32,
}

} // verus!
