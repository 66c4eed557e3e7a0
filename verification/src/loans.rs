//! Loans of a lending library.

use vstd::prelude::*;

verus! {

pub struct Loan {
    book_isbn: String,
    member_id: u32,
    due_date: String,
}

/// What a loan records.
pub ghost struct LoanRecord {
    pub book_isbn: Seq<char>,
    pub member_id: u32,
    pub due_date: Seq<char>,
}

impl View for Loan {
    type V = LoanRecord;

    closed spec fn view(&self) -> LoanRecord {
        LoanRecord {
            book_isbn: self.book_isbn@,
            member_id: self.member_id,
            due_date: self.due_date@,
        }
    }
}

impl Loan {
    pub fn new(book_isbn: String, member_id: u32, due_date: String) -> (loan: Self)
        ensures
            loan@ == (LoanRecord { book_isbn: book_isbn@, member_id, due_date: due_date@ }),
    {
        Loan { book_isbn, member_id, due_date }
    }

    pub fn book_isbn(&self) -> (isbn: &str)
        ensures
            isbn@ == self@.book_isbn,
    {
        self.book_isbn.as_str()
    }

    pub fn member_id(&self) -> (id: u32)
        ensures
            id == self@.member_id,
    {
        self.member_id
    }

    pub fn due_date(&self) -> (date: &str)
        ensures
            date@ == self@.due_date,
    {
        self.due_date.as_str()
    }
}

} // verus!
