//! A book that can be lent or reserved, and a traffic light.

use vstd::prelude::*;
use crate::text::{push_str, same_str, to_chars, to_string};

verus! {

#[derive(Debug)]
pub enum BookStatus {
    Available,
    CheckedOut { borrower: String, due_date: String },
    Reserved { reserver: String },
}

/// What a status says.
pub ghost enum StatusText {
    Available,
    CheckedOut { borrower: Seq<char>, due_date: Seq<char> },
    Reserved { reserver: Seq<char> },
}

impl View for BookStatus {
    type V = StatusText;

    open spec fn view(&self) -> StatusText {
        match self {
            BookStatus::Available => StatusText::Available,
            BookStatus::CheckedOut { borrower, due_date } => StatusText::CheckedOut {
                borrower: borrower@,
                due_date: due_date@,
            },
            BookStatus::Reserved { reserver } => StatusText::Reserved { reserver: reserver@ },
        }
    }
}

#[derive(Debug)]
pub struct Book {
    title: String,
    author: String,
    isbn: String,
    status: BookStatus,
}

/// What a book is, to its callers.
pub ghost struct BookText {
    pub title: Seq<char>,
    pub author: Seq<char>,
    pub isbn: Seq<char>,
    pub status: StatusText,
}

impl View for Book {
    type V = BookText;

    closed spec fn view(&self) -> BookText {
        BookText {
            title: self.title@,
            author: self.author@,
            isbn: self.isbn@,
            status: self.status@,
        }
    }
}

/// Why a book with the status `status` cannot be lent to `borrower`, if it
/// cannot: it is lent already, or reserved by somebody else.
pub open spec fn checkout_refusal(status: StatusText, borrower: Seq<char>) -> Option<Seq<char>> {
    match status {
        StatusText::Available => None,
        StatusText::CheckedOut { borrower: holder, .. } => Some(
            "Book is already checked out by "@ + holder,
        ),
        StatusText::Reserved { reserver } => if reserver == borrower {
            None
        } else {
            Some("Book is reserved by "@ + reserver)
        },
    }
}

fn message(text: &str) -> (s: String)
    ensures
        s@ == text@,
{
    to_string(&to_chars(text))
}

fn message_with(prefix: &str, name: &str) -> (s: String)
    ensures
        s@ == prefix@ + name@,
{
    let mut out: Vec<char> = Vec::new();
    push_str(&mut out, prefix);
    push_str(&mut out, name);
    assert(out@ =~= prefix@ + name@);
    to_string(&out)
}

impl Book {
    /// A book that is available.
    pub fn new(title: String, author: String, isbn: String) -> (book: Self)
        ensures
            book@ == (BookText {
                title: title@,
                author: author@,
                isbn: isbn@,
                status: StatusText::Available,
            }),
    {
        Book { title, author, isbn, status: BookStatus::Available }
    }

    /// Lends the book to `borrower` until `due_date`. Only an available book,
    /// or one that `borrower` has reserved, can be lent; otherwise nothing
    /// changes.
    pub fn checkout(&mut self, borrower: String, due_date: String) -> (r: Result<(), String>)
        ensures
            match checkout_refusal(old(self)@.status, borrower@) {
                Some(reason) => r matches Err(e) && e@ == reason && final(self)@ == old(self)@,
                None => r is Ok && final(self)@ == (BookText {
                    status: StatusText::CheckedOut { borrower: borrower@, due_date: due_date@ },
                    ..old(self)@
                }),
            },
    {
        match &self.status {
            BookStatus::Available => {
                self.status = BookStatus::CheckedOut { borrower, due_date };
                Ok(())
            },
            BookStatus::CheckedOut { borrower: holder, .. } => Err(
                message_with("Book is already checked out by ", holder.as_str()),
            ),
            BookStatus::Reserved { reserver } => {
                if same_str(reserver.as_str(), borrower.as_str()) {
                    self.status = BookStatus::CheckedOut { borrower, due_date };
                    Ok(())
                } else {
                    Err(message_with("Book is reserved by ", reserver.as_str()))
                }
            },
        }
    }

    /// Takes back a book that is lent; otherwise nothing changes.
    pub fn return_book(&mut self) -> (r: Result<(), String>)
        ensures
            if old(self)@.status is CheckedOut {
                r is Ok && final(self)@ == (BookText {
                    status: StatusText::Available,
                    ..old(self)@
                })
            } else {
                r matches Err(e) && e@ == "Book is not checked out"@ && final(self)@ == old(self)@
            },
    {
        match &self.status {
            BookStatus::CheckedOut { .. } => {
                self.status = BookStatus::Available;
                Ok(())
            },
            _ => Err(message("Book is not checked out")),
        }
    }

    pub fn is_available(&self) -> (b: bool)
        ensures
            b == (self@.status is Available),
    {
        match &self.status {
            BookStatus::Available => true,
            _ => false,
        }
    }

    /// Reserves an available book for `reserver`; otherwise nothing changes.
    pub fn reserve(&mut self, reserver: String) -> (r: Result<(), String>)
        ensures
            if old(self)@.status is Available {
                r is Ok && final(self)@ == (BookText {
                    status: StatusText::Reserved { reserver: reserver@ },
                    ..old(self)@
                })
            } else {
                r matches Err(e) && e@ == "Book is not available for reservation"@ && final(self)@ == old(self)@
            },
    {
        match &self.status {
            BookStatus::Available => {
                self.status = BookStatus::Reserved { reserver };
                Ok(())
            },
            _ => Err(message("Book is not available for reservation")),
        }
    }
}

#[derive(Debug, Clone, Copy, PartialEq, Eq, Structural)]
pub enum LightState {
    Red { duration: u32 },
    Yellow { duration: u32 },
    Green { duration: u32 },
}

/// The seconds for which the light stays red.
pub const RED_SECONDS: u32 = 30;

/// The seconds for which the light stays green.
pub const GREEN_SECONDS: u32 = 25;

/// The seconds for which the light stays yellow.
pub const YELLOW_SECONDS: u32 = 5;

pub struct TrafficLight {
    current_state: LightState,
    timer: u32,
}

/// What a traffic light shows and for how long it still does.
pub ghost struct LightView {
    pub state: LightState,
    pub timer: u32,
}

/// The state that follows `state`: green after red, yellow after green, red
/// after yellow, each for its own time.
pub open spec fn next_state(state: LightState) -> LightState {
    match state {
        LightState::Red { .. } => LightState::Green { duration: GREEN_SECONDS },
        LightState::Green { .. } => LightState::Yellow { duration: YELLOW_SECONDS },
        LightState::Yellow { .. } => LightState::Red { duration: RED_SECONDS },
    }
}

/// The time for which `state` lasts.
pub open spec fn duration_of(state: LightState) -> u32 {
    match state {
        LightState::Red { duration } => duration,
        LightState::Yellow { duration } => duration,
        LightState::Green { duration } => duration,
    }
}

/// The light one second later: the timer runs down, and at zero the next
/// state begins with its full time.
pub open spec fn after_tick(light: LightView) -> LightView {
    if light.timer <= 1 {
        LightView {
            state: next_state(light.state),
            timer: duration_of(next_state(light.state)),
        }
    } else {
        LightView { state: light.state, timer: (light.timer - 1) as u32 }
    }
}

/// The light after `ticks` seconds.
pub open spec fn after_ticks(light: LightView, ticks: nat) -> LightView
    decreases ticks,
{
    if ticks == 0 {
        light
    } else {
        after_tick(after_ticks(light, (ticks - 1) as nat))
    }
}

/// Countdown law: a light that still has `light.timer` seconds to go keeps
/// its state for all but the last of them, and changes with the last.
pub proof fn law_light_changes_when_its_time_is_up(light: LightView, ticks: nat)
    requires
        0 < light.timer,
        ticks <= light.timer,
    ensures
        ticks < light.timer ==> after_ticks(light, ticks) == (LightView {
            state: light.state,
            timer: (light.timer - ticks) as u32,
        }),
        ticks == light.timer ==> after_ticks(light, ticks) == (LightView {
            state: next_state(light.state),
            timer: duration_of(next_state(light.state)),
        }),
    decreases ticks,
{
    if ticks > 0 {
        law_light_changes_when_its_time_is_up(light, (ticks - 1) as nat);
    }
}

impl View for TrafficLight {
    type V = LightView;

    closed spec fn view(&self) -> LightView {
        LightView { state: self.current_state, timer: self.timer }
    }
}

impl TrafficLight {
    /// A light that has just turned red.
    pub fn new() -> (light: Self)
        ensures
            light@ == (LightView {
                state: LightState::Red { duration: RED_SECONDS },
                timer: RED_SECONDS,
            }),
    {
        TrafficLight { current_state: LightState::Red { duration: 30 }, timer: 30 }
    }

    /// Lets one second pass.
    pub fn tick(&mut self)
        ensures
            final(self)@ == after_tick(old(self)@),
    {
        self.timer = self.timer.saturating_sub(1);
        if self.timer == 0 {
            match self.current_state {
                LightState::Red { .. } => {
                    self.timer = 25;
                    self.current_state = LightState::Green { duration: 25 };
                },
                LightState::Green { .. } => {
                    self.timer = 5;
                    self.current_state = LightState::Yellow { duration: 5 };
                },
                LightState::Yellow { .. } => {
                    self.timer = 30;
                    self.current_state = LightState::Red { duration: 30 };
                },
            }
        }
    }

    /// The name of the colour that the light shows.
    pub fn current_color(&self) -> (color: &'static str)
        ensures
            color@ == match self@.state {
                LightState::Red { .. } => "Red"@,
                LightState::Yellow { .. } => "Yellow"@,
                LightState::Green { .. } => "Green"@,
            },
    {
        match self.current_state {
            LightState::Red { .. } => "Red",
            LightState::Yellow { .. } => "Yellow",
            LightState::Green { .. } => "Green",
        }
    }

    /// The seconds for which the light still shows its colour.
    pub fn time_remaining(&self) -> (seconds: u32)
        ensures
            seconds == self@.timer,
    {
        self.timer
    }
}

} // verus!
