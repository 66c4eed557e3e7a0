//! Members of a lending library.

use vstd::prelude::*;

verus! {

pub struct Member {
    pub id: u32,
    pub name: String,
    pub email: String,
    pub(crate) active: bool,
}

/// What a member is, to those who cannot see inside it.
pub ghost struct MemberRecord {
    pub id: u32,
    pub name: Seq<char>,
    pub email: Seq<char>,
    /// Whether the member may borrow.
    pub active: bool,
}

impl View for Member {
    type V = MemberRecord;

    closed spec fn view(&self) -> MemberRecord {
        MemberRecord { id: self.id, name: self.name@, email: self.email@, active: self.active }
    }
}

impl Member {
    /// The view of a member holds what its fields hold.
    pub(crate) proof fn lemma_view(&self)
        ensures
            self@ == (MemberRecord {
                id: self.id,
                name: self.name@,
                email: self.email@,
                active: self.active,
            }),
    {
    }

    /// A member who may borrow.
    pub fn new(id: u32, name: String, email: String) -> (member: Self)
        ensures
            member@ == (MemberRecord { id, name: name@, email: email@, active: true }),
    {
        Member { id, name, email, active: true }
    }

    pub fn is_active(&self) -> (b: bool)
        ensures
            b == self@.active,
    {
        self.active
    }
}

} // verus!
