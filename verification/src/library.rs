//! A lending library: books, members, and the loans between them.

use vstd::prelude::*;
pub use crate::books::Book;
use crate::books::BookRecord;
use crate::loans::{Loan, LoanRecord};
pub use crate::members::Member;
use crate::text::{same_str, to_chars, to_string};

verus! {

pub struct Library {
    pub books: Vec<Book>,
    pub members: Vec<Member>,
    loans: Vec<Loan>,
}

/// The least index at or after `from` of a book with the number `isbn`, or
/// the number of books where there is none.
pub open spec fn book_index(books: Seq<Book>, isbn: Seq<char>, from: int) -> int
    decreases books.len() - from,
{
    if from < 0 || from >= books.len() {
        books.len() as int
    } else if books[from]@.isbn == isbn {
        from
    } else {
        book_index(books, isbn, from + 1)
    }
}

/// The least index at or after `from` of a member with the number `id`, or
/// the number of members where there is none.
pub open spec fn member_index(members: Seq<Member>, id: u32, from: int) -> int
    decreases members.len() - from,
{
    if from < 0 || from >= members.len() {
        members.len() as int
    } else if members[from]@.id == id {
        from
    } else {
        member_index(members, id, from + 1)
    }
}

/// The least index at or after `from` of a loan of the book `isbn`, or the
/// number of loans where there is none.
pub open spec fn loan_index(loans: Seq<LoanRecord>, isbn: Seq<char>, from: int) -> int
    decreases loans.len() - from,
{
    if from < 0 || from >= loans.len() {
        loans.len() as int
    } else if loans[from].book_isbn == isbn {
        from
    } else {
        loan_index(loans, isbn, from + 1)
    }
}

/// Why the book `isbn` cannot be lent to the member `id`, if it cannot: the
/// first of the reasons that holds, in this order.
pub open spec fn checkout_refusal(
    books: Seq<Book>,
    members: Seq<Member>,
    isbn: Seq<char>,
    id: u32,
) -> Option<Seq<char>> {
    let b = book_index(books, isbn, 0);
    let m = member_index(members, id, 0);
    if b >= books.len() {
        Some("Book not found"@)
    } else if !books[b]@.available {
        Some("Book is not available"@)
    } else if m >= members.len() {
        Some("Member not found"@)
    } else if !members[m]@.active {
        Some("Member is not active"@)
    } else {
        None
    }
}

/// Whether `after` holds the books of `before`, the one at `at` with its
/// availability set to `available`.
pub open spec fn books_with(after: Seq<Book>, before: Seq<Book>, at: int, available: bool) -> bool {
    &&& after.len() == before.len()
    &&& forall|i: int| 0 <= i < before.len() && i != at ==> after[i] == before[i]
    &&& 0 <= at < before.len() ==> after[at]@ == (BookRecord { available, ..before[at]@ })
}

fn message(text: &str) -> (s: String)
    ensures
        s@ == text@,
{
    to_string(&to_chars(text))
}

impl Library {
    /// The books that the library lists.
    pub closed spec fn books(&self) -> Seq<Book> {
        self.books@
    }

    /// The members that the library lists.
    pub closed spec fn members(&self) -> Seq<Member> {
        self.members@
    }

    /// The loans that are open, oldest first.
    pub closed spec fn loans(&self) -> Seq<LoanRecord> {
        self.loans@.map_values(|l: Loan| l@)
    }

    /// A library without books, members or loans.
    pub fn new() -> (library: Self)
        ensures
            library.books().len() == 0,
            library.members().len() == 0,
            library.loans().len() == 0,
    {
        Library { books: Vec::new(), members: Vec::new(), loans: Vec::new() }
    }

    pub fn add_book(&mut self, book: Book)
        ensures
            final(self).books() == old(self).books().push(book),
            final(self).members() == old(self).members(),
            final(self).loans() == old(self).loans(),
    {
        self.books.push(book);
    }

    pub fn add_member(&mut self, member: Member)
        ensures
            final(self).members() == old(self).members().push(member),
            final(self).books() == old(self).books(),
            final(self).loans() == old(self).loans(),
    {
        self.members.push(member);
    }

    fn find_book(&self, isbn: &str) -> (at: usize)
        ensures
            at == book_index(self.books(), isbn@, 0),
            at <= self.books().len(),
            self.books() == self.books@,
    {
        let mut i: usize = 0;
        while i < self.books.len()
            invariant
                i <= self.books.len(),
                book_index(self.books@, isbn@, 0) == book_index(self.books@, isbn@, i as int),
            decreases self.books.len() - i,
        {
            proof {
                self.books@[i as int].lemma_view();
            }
            if same_str(self.books[i].isbn.as_str(), isbn) {
                return i;
            }
            i = i + 1;
        }
        i
    }

    fn find_member(&self, id: u32) -> (at: usize)
        ensures
            at == member_index(self.members(), id, 0),
            at <= self.members().len(),
            self.members() == self.members@,
    {
        let mut i: usize = 0;
        while i < self.members.len()
            invariant
                i <= self.members.len(),
                member_index(self.members@, id, 0) == member_index(self.members@, id, i as int),
            decreases self.members.len() - i,
        {
            proof {
                self.members@[i as int].lemma_view();
            }
            if self.members[i].id == id {
                return i;
            }
            i = i + 1;
        }
        i
    }

    fn find_loan(&self, isbn: &str) -> (at: usize)
        ensures
            at == loan_index(self.loans(), isbn@, 0),
            at <= self.loans().len(),
            self.loans().len() == self.loans@.len(),
    {
        let mut i: usize = 0;
        while i < self.loans.len()
            invariant
                i <= self.loans.len(),
                loan_index(self.loans(), isbn@, 0) == loan_index(self.loans(), isbn@, i as int),
            decreases self.loans.len() - i,
        {
            assert(self.loans()[i as int] == self.loans@[i as int]@);
            if same_str(self.loans[i].book_isbn(), isbn) {
                return i;
            }
            i = i + 1;
        }
        i
    }

    /// Lends the book `isbn` to the member `member_id` until `due_date`: the
    /// book leaves the shelf and a loan is opened. Where the loan is
    /// refused, nothing changes.
    pub fn checkout_book(&mut self, isbn: &str, member_id: u32, due_date: String) -> (r: Result<
        (),
        String,
    >)
        ensures
            final(self).members() == old(self).members(),
            match checkout_refusal(old(self).books(), old(self).members(), isbn@, member_id) {
                Some(reason) => {
                    &&& r matches Err(e) && e@ == reason
                    &&& final(self).books() == old(self).books()
                    &&& final(self).loans() == old(self).loans()
                },
                None => {
                    &&& r is Ok
                    &&& books_with(
                        final(self).books(),
                        old(self).books(),
                        book_index(old(self).books(), isbn@, 0),
                        false,
                    )
                    &&& final(self).loans() == old(self).loans().push(
                        LoanRecord { book_isbn: isbn@, member_id, due_date: due_date@ },
                    )
                },
            },
    {
        let b: usize = self.find_book(isbn);
        if b >= self.books.len() {
            return Err(message("Book not found"));
        }
        if !self.books[b].is_available() {
            return Err(message("Book is not available"));
        }
        let m: usize = self.find_member(member_id);
        if m >= self.members.len() {
            return Err(message("Member not found"));
        }
        if !self.members[m].is_active() {
            return Err(message("Member is not active"));
        }
        self.books[b].set_available(false);
        let loan: Loan = Loan::new(message(isbn), member_id, due_date);
        self.loans.push(loan);
        assert(self.loans() =~= old(self).loans().push(loan@));
        Ok(())
    }

    /// Takes back the book `isbn`: its oldest loan is closed and the book is
    /// on the shelf again. A loan is closed also where the library no longer
    /// lists the book, which is then an error.
    pub fn return_book(&mut self, isbn: &str) -> (r: Result<(), String>)
        ensures
            final(self).members() == old(self).members(),
            ({
                let l = loan_index(old(self).loans(), isbn@, 0);
                let b = book_index(old(self).books(), isbn@, 0);
                if l >= old(self).loans().len() {
                    &&& r matches Err(e) && e@ == "No active loan found for this book"@
                    &&& final(self).books() == old(self).books()
                    &&& final(self).loans() == old(self).loans()
                } else if b >= old(self).books().len() {
                    &&& r matches Err(e) && e@ == "Book not found"@
                    &&& final(self).books() == old(self).books()
                    &&& final(self).loans() == old(self).loans().remove(l)
                } else {
                    &&& r is Ok
                    &&& books_with(final(self).books(), old(self).books(), b, true)
                    &&& final(self).loans() == old(self).loans().remove(l)
                }
            }),
    {
        let l: usize = self.find_loan(isbn);
        if l >= self.loans.len() {
            return Err(message("No active loan found for this book"));
        }
        self.loans.remove(l);
        assert(self.loans() =~= old(self).loans().remove(l as int));
        let b: usize = self.find_book(isbn);
        if b >= self.books.len() {
            return Err(message("Book not found"));
        }
        self.books[b].set_available(true);
        Ok(())
    }

    /// The number of open loans.
    pub fn active_loans(&self) -> (n: usize)
        ensures
            n == self.loans().len(),
    {
        self.loans.len()
    }

    /// The oldest open loan of the book `isbn`.
    pub fn get_loan(&self, isbn: &str) -> (r: Option<&Loan>)
        ensures
            match r {
                Some(loan) => {
                    let l = loan_index(self.loans(), isbn@, 0);
                    l < self.loans().len() && loan@ == self.loans()[l]
                },
                None => loan_index(self.loans(), isbn@, 0) >= self.loans().len(),
            },
    {
        let l: usize = self.find_loan(isbn);
        if l < self.loans.len() {
            assert(self.loans()[l as int] == self.loans@[l as int]@);
            Some(&self.loans[l])
        } else {
            None
        }
    }
}

} // verus!
