//! Books of a lending library.

use vstd::prelude::*;

verus! {

pub struct Book {
    pub title: String,
    pub author: String,
    pub isbn: String,
    pub(crate) available: bool,
}

/// What a book is, to those who cannot see inside it.
pub ghost struct BookRecord {
    pub title: Seq<char>,
    pub author: Seq<char>,
    pub isbn: Seq<char>,
    /// Whether the book is on the shelf.
    pub available: bool,
}

impl View for Book {
    type V = BookRecord;

    closed spec fn view(&self) -> BookRecord {
        BookRecord {
            title: self.title@,
            author: self.author@,
            isbn: self.isbn@,
            available: self.available,
        }
    }
}

impl Book {
    /// The view of a book holds what its fields hold.
    pub(crate) proof fn lemma_view(&self)
        ensures
            self@ == (BookRecord {
                title: self.title@,
                author: self.author@,
                isbn: self.isbn@,
                available: self.available,
            }),
    {
    }

    /// A book that is on the shelf.
    pub fn new(title: String, author: String, isbn: String) -> (book: Self)
        ensures
            book@ == (BookRecord {
                title: title@,
                author: author@,
                isbn: isbn@,
                available: true,
            }),
    {
        Book { title, author, isbn, available: true }
    }

    pub fn is_available(&self) -> (b: bool)
        ensures
            b == self@.available,
    {
        self.available
    }

    pub(crate) fn set_available(&mut self, available: bool)
        ensures
            final(self)@ == (BookRecord { available, ..old(self)@ }),
    {
        self.available = available;
    }
}

} // verus!
