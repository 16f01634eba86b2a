//! Printing the open conversation: what is printed, the one print at a time, the print
//! window's life, and what the toast says of how a print ended.

use vstd::prelude::*;
use crate::ids::ThreadId;
use crate::text::cat;

verus! {

/// Whether each message of a printout starts a page.
#[derive(Debug, Clone, Copy, PartialEq, Eq, Structural)]
pub enum Pages {
    /// The conversation as one flow.
    Flow,
    /// Each message on a page of its own.
    PerMessage,
}

/// What to print: a conversation, and whether each message starts a page.
#[derive(Debug, Clone, Copy, PartialEq, Eq, Structural)]
pub struct Job {
    pub thread: ThreadId,
    pub pages: Pages,
}

/// What Ctrl P, or the menu's Print, prints: the open conversation as one flow. With nothing
/// open there is nothing to print.
pub fn job_for(open: Option<ThreadId>) -> (r: Option<Job>)
    ensures
        r == match open {
            Some(thread) => Some(Job { thread, pages: Pages::Flow }),
            None => None,
        },
{
    match open {
        Some(thread) => Some(Job { thread, pages: Pages::Flow }),
        None => None,
    }
}

/// Where a print window is in its life.
#[derive(Debug, Clone, Copy, PartialEq, Eq, Structural)]
pub enum Phase {
    /// The document is loading into the new webview.
    Loading,
    /// The dialog has been answered with Print; the pages are being made.
    Printing,
}

/// What has been heard from the webview and the print operation.
#[derive(Debug, Clone)]
pub struct Heard {
    pub loaded: bool,
    pub finished: bool,
    pub failed: Option<String>,
}

/// What to do next.
#[derive(Debug, PartialEq, Eq)]
pub enum Move {
    Wait,
    /// The document is in: show the dialog.
    Print,
    /// Close the window, and say why when it went wrong.
    Close(Result<(), String>),
}

/// How long the document may take to load, in milliseconds, before the window gives up on it.
pub const LOAD_LIMIT_MS: u64 = 30000;

/// The next move for a window, as values: a failure closes it saying so; a loaded document is
/// printed; a document that has not loaded in time closes it; a print that has finished, or
/// run past `limit`, closes it; anything else waits.
pub open spec fn decide_spec(phase: Phase, loaded: bool, finished: bool, failed: Option<Seq<char>>, elapsed: u64, limit: u64)
    -> (Option<Result<(), Seq<char>>>, bool)
{
    match failed {
        Some(why) => (Some(Err("Printing failed: "@ + why)), false),
        None => match phase {
            Phase::Loading => if loaded {
                (None, true)
            } else if elapsed >= LOAD_LIMIT_MS {
                (Some(Err("The printout did not load, so nothing was printed."@)), false)
            } else {
                (None, false)
            },
            Phase::Printing => if finished || elapsed >= limit {
                (Some(Ok(())), false)
            } else {
                (None, false)
            },
        },
    }
}

/// A move as values: `(Some(how it closes), _)` for a close, `(None, true)` for Print,
/// `(None, false)` for Wait.
pub open spec fn move_view(m: Move) -> (Option<Result<(), Seq<char>>>, bool) {
    match m {
        Move::Wait => (None, false),
        Move::Print => (None, true),
        Move::Close(Ok(())) => (Some(Ok(())), false),
        Move::Close(Err(why)) => (Some(Err(why@)), false),
    }
}

/// The next move for a window in `phase` for `elapsed` milliseconds, given what was `heard`.
pub fn decide(phase: Phase, heard: &Heard, elapsed: u64, limit: u64) -> (r: Move)
    ensures
        move_view(r) == decide_spec(phase, heard.loaded, heard.finished, match heard.failed {
            Some(why) => Some(why@),
            None => None,
        }, elapsed, limit),
{
    if let Some(why) = &heard.failed {
        return Move::Close(Err(cat("Printing failed: ", why.as_str())));
    }
    match phase {
        Phase::Loading => {
            if heard.loaded {
                Move::Print
            } else if elapsed >= LOAD_LIMIT_MS {
                Move::Close(Err(String::from_str("The printout did not load, so nothing was printed.")))
            } else {
                Move::Wait
            }
        },
        Phase::Printing => {
            if heard.finished || elapsed >= limit {
                Move::Close(Ok(()))
            } else {
                Move::Wait
            }
        },
    }
}

/// Whether a print window is open: one at a time, since a second would be waiting on the
/// first one's dialog.
pub struct PrintWindows {
    open: bool,
}

impl PrintWindows {
    /// No print window open.
    pub fn new() -> (r: PrintWindows)
        ensures
            !r.is_busy(),
    {
        PrintWindows { open: false }
    }

    /// Whether a print window is open now.
    pub closed spec fn is_busy(&self) -> bool {
        self.open
    }

    /// Whether a print window is open now.
    pub fn busy(&self) -> (r: bool)
        ensures
            r == self.is_busy(),
    {
        self.open
    }

    /// Open one, or say why not: refused while another is open.
    pub fn open(&mut self) -> (r: Result<(), String>)
        ensures
            old(self).is_busy() ==> (r matches Err(why) && why@ == "A printout is already open."@
                && final(self).is_busy()),
            !old(self).is_busy() ==> (r is Ok && final(self).is_busy()),
    {
        if self.open {
            return Err(String::from_str("A printout is already open."));
        }
        self.open = true;
        Ok(())
    }

    /// The window is gone.
    pub fn close(&mut self)
        ensures
            !final(self).is_busy(),
    {
        self.open = false;
    }
}

/// How the dialog ended a print, as the toast reads it.
#[derive(Debug, Clone)]
pub enum PrintOutcome {
    Printed,
    Cancelled,
    /// No dialog: the printout opened in the PDF viewer, from this file.
    Opened(String),
}

/// What the toast says of how a print ended.
pub open spec fn said_spec(outcome: Result<PrintOutcome, String>) -> Seq<char> {
    match outcome {
        Ok(PrintOutcome::Printed) => "Sent to the printer."@,
        Ok(PrintOutcome::Cancelled) => "Printing cancelled; nothing was printed."@,
        Ok(PrintOutcome::Opened(path)) => "There is no print dialog here, so the printout opened in your PDF viewer to print from there: "@ + path@,
        Err(why) => "Could not print: "@ + why@,
    }
}

/// What the toast says of how a print ended.
pub fn said(outcome: Result<PrintOutcome, String>) -> (r: String)
    ensures
        r@ == said_spec(outcome),
{
    match outcome {
        Ok(PrintOutcome::Printed) => String::from_str("Sent to the printer."),
        Ok(PrintOutcome::Cancelled) => String::from_str("Printing cancelled; nothing was printed."),
        Ok(PrintOutcome::Opened(path)) => cat(
            "There is no print dialog here, so the printout opened in your PDF viewer to print from there: ",
            path.as_str(),
        ),
        Err(why) => cat("Could not print: ", why.as_str()),
    }
}

/// What a second Print says while the first is under way.
pub open spec fn busy_words() -> Seq<char> {
    "A printout is already being made; finish with its print dialog first."@
}

/// Whether a print is under way, so a second Print while the first one's dialog is up says so
/// and starts nothing.
pub struct Printer {
    busy: bool,
}

impl Printer {
    /// A printer no print holds.
    pub fn new() -> (r: Printer)
        ensures
            !r.held(),
    {
        Printer { busy: false }
    }

    /// Whether a print holds it.
    pub closed spec fn held(&self) -> bool {
        self.busy
    }

    /// Claim this printer for one print: `true`, and held, when it was free; `false`, and
    /// unchanged, while another print holds it.
    pub fn claim(&mut self) -> (r: bool)
        ensures
            r == !old(self).held(),
            final(self).held(),
    {
        if self.busy {
            false
        } else {
            self.busy = true;
            true
        }
    }

    /// The print is over, however it ended: the printer is free.
    pub fn release(&mut self)
        ensures
            !final(self).held(),
    {
        self.busy = false;
    }
}

/// What a Print press says when the printer is held, or `None` when it starts a print.
pub fn refuse_when_held(printer: &mut Printer) -> (r: Option<String>)
    ensures
        old(printer).held() ==> (r matches Some(w) && w@ == busy_words()),
        !old(printer).held() ==> r is None,
        final(printer).held(),
{
    if printer.claim() {
        None
    } else {
        Some(String::from_str("A printout is already being made; finish with its print dialog first."))
    }
}

} // verus!
