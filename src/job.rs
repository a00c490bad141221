//! The job protocol: a worker reports progress and ends with exactly one
//! outcome; the observer folds the messages into its own state and stops
//! listening at the first outcome.
use vstd::prelude::*;

use crate::ingest::Dataset;
use crate::numeric::{decimal_text, integer_text};
use crate::record::Record;

verus! {

/// Rows read between two progress reports while ingesting a sheet.
pub const SHEET_ROW_BATCH: usize = 5000;

/// Rows written between two progress reports while exporting a well.
pub const WELL_ROW_BATCH: usize = 500;

/// A share of a job, `done / total`.
#[derive(Clone, Copy, Debug, PartialEq, Eq)]
pub struct Fraction {
    pub done: usize,
    pub total: usize,
}

impl Fraction {
    /// Lies in `[0, 1]`.
    pub open spec fn wf(self) -> bool {
        self.total > 0 && self.done <= self.total
    }

    pub fn none() -> (r: Fraction)
        ensures
            r == (Fraction { done: 0, total: 1 }),
    {
        Fraction { done: 0, total: 1 }
    }

    pub fn all() -> (r: Fraction)
        ensures
            r == (Fraction { done: 1, total: 1 }),
    {
        Fraction { done: 1, total: 1 }
    }
}

/// A progress report: how far through the outer units (sheets or wells),
/// how far through the current one (rows), and a line for the user.
#[derive(Clone, Debug, PartialEq)]
pub struct Progress {
    pub global: Fraction,
    pub local: Fraction,
    pub text: String,
}

/// How a job ends.
#[derive(Debug)]
pub enum Outcome {
    Loaded(Dataset),
    Saved(String),
    Failed(String),
}

/// What a worker sends to its observer.
#[derive(Debug)]
pub enum Message {
    Progress(Progress),
    Loaded(Dataset),
    Saved(String),
    Error(String),
}

pub open spec fn is_terminal(m: Message) -> bool {
    !(m is Progress)
}

/// The terminal message that carries an outcome.
pub open spec fn message_of(o: Outcome) -> Message {
    match o {
        Outcome::Loaded(d) => Message::Loaded(d),
        Outcome::Saved(p) => Message::Saved(p),
        Outcome::Failed(e) => Message::Error(e),
    }
}

fn concat2(a: &str, b: &str) -> (r: String)
    ensures
        r@ == a@ + b@,
{
    let mut s = a.to_string();
    s.append(b);
    s
}

fn concat3(a: &str, b: &str, c: &str) -> (r: String)
    ensures
        r@ == a@ + b@ + c@,
{
    let mut s = a.to_string();
    s.append(b);
    s.append(c);
    s
}

/// The report made before a sheet is looked at.
pub fn sheet_progress(index: usize, total: usize, name: &str) -> (r: Progress)
    requires
        index < total,
    ensures
        r.global == (Fraction { done: index, total }),
        r.local.done == 0,
        r.local.wf(),
        r.text@ == "sheet '"@ + name@ + "': reading"@,
{
    Progress {
        global: Fraction { done: index, total },
        local: Fraction::none(),
        text: concat3("sheet '", name, "': reading"),
    }
}

/// The report, if one is due, before data row `row` of a sheet with
/// `total_rows` rows: one every `SHEET_ROW_BATCH` rows, from the first on.
pub fn sheet_row_progress(global: Fraction, row: usize, total_rows: usize, name: &str) -> (r:
    Option<Progress>)
    requires
        row < total_rows,
    ensures
        r is Some <==> row % SHEET_ROW_BATCH == 0,
        r matches Some(p) ==> p.global == global && p.local == (Fraction {
            done: row,
            total: total_rows,
        }) && p.text@ == "sheet '"@ + name@ + "': rows"@,
{
    if row % SHEET_ROW_BATCH == 0 {
        Some(
            Progress {
                global,
                local: Fraction { done: row, total: total_rows },
                text: concat3("sheet '", name, "': rows"),
            },
        )
    } else {
        None
    }
}

/// The report made before a well is written.
pub fn well_progress(index: usize, total: usize, name: &str) -> (r: Progress)
    requires
        index < total,
    ensures
        r.global == (Fraction { done: index, total }),
        r.local.done == 0,
        r.local.wf(),
        r.text@ == "writing well "@ + name@,
{
    Progress {
        global: Fraction { done: index, total },
        local: Fraction::none(),
        text: concat2("writing well ", name),
    }
}

/// The report, if one is due, before row `row` of a well with `total_rows`
/// rows: one every `WELL_ROW_BATCH` rows, from the first on.
pub fn well_row_progress(global: Fraction, row: usize, total_rows: usize, name: &str) -> (r:
    Option<Progress>)
    requires
        row < total_rows,
    ensures
        r is Some <==> row % WELL_ROW_BATCH == 0,
        r matches Some(p) ==> p.global == global && p.local == (Fraction {
            done: row,
            total: total_rows,
        }) && p.text@ == "well "@ + name@ + ": rows"@,
{
    if row % WELL_ROW_BATCH == 0 {
        Some(
            Progress {
                global,
                local: Fraction { done: row, total: total_rows },
                text: concat3("well ", name, ": rows"),
            },
        )
    } else {
        None
    }
}

/// The report made when all units are done.
pub fn final_progress(text: &str) -> (r: Progress)
    ensures
        r.global == (Fraction { done: 1, total: 1 }),
        r.local == (Fraction { done: 1, total: 1 }),
        r.text@ == text@,
{
    Progress { global: Fraction::all(), local: Fraction::all(), text: text.to_string() }
}

/// Number of terminal messages in a stream, given as one flag per message.
pub open spec fn terminal_count(s: Seq<bool>) -> nat
    decreases s.len(),
{
    if s.len() == 0 {
        0
    } else {
        terminal_count(s.drop_last()) + if s.last() {
            1nat
        } else {
            0nat
        }
    }
}

/// The stream is still open, or it holds exactly one terminal message and
/// that message is the last.
pub open spec fn well_ended(s: Seq<bool>, open: bool) -> bool {
    if open {
        terminal_count(s) == 0
    } else {
        terminal_count(s) == 1 && s.len() > 0 && s.last()
    }
}

/// The sending side of one job.
pub struct Job {
    running: bool,
    /// For each message sent, whether it was terminal.
    sent: Ghost<Seq<bool>>,
}

impl Job {
    pub closed spec fn sent(&self) -> Seq<bool> {
        self.sent@
    }

    pub closed spec fn is_running(&self) -> bool {
        self.running
    }

    pub open spec fn wf(&self) -> bool {
        well_ended(self.sent(), self.is_running())
    }

    pub fn start() -> (r: Job)
        ensures
            r.wf(),
            r.is_running(),
            r.sent() == Seq::<bool>::empty(),
    {
        Job { running: true, sent: Ghost(Seq::empty()) }
    }

    pub fn running(&self) -> (r: bool)
        ensures
            r == self.is_running(),
    {
        self.running
    }

    /// The message to send for a report; nothing once the job has ended.
    pub fn report(&mut self, p: Progress) -> (r: Option<Message>)
        requires
            old(self).wf(),
        ensures
            final(self).wf(),
            final(self).is_running() == old(self).is_running(),
            old(self).is_running() ==> r == Some(Message::Progress(p)) && final(self).sent()
                == old(self).sent().push(false),
            !old(self).is_running() ==> r is None && final(self).sent() == old(self).sent(),
    {
        if self.running {
            proof {
                assert(self.sent@.push(false).drop_last() =~= self.sent@);
            }
            self.sent = Ghost(self.sent@.push(false));
            Some(Message::Progress(p))
        } else {
            None
        }
    }

    /// The terminal message for the job's outcome; nothing if the job has
    /// already ended.
    pub fn finish(&mut self, o: Outcome) -> (r: Option<Message>)
        requires
            old(self).wf(),
        ensures
            final(self).wf(),
            !final(self).is_running(),
            old(self).is_running() ==> r == Some(message_of(o)) && final(self).sent() == old(
                self,
            ).sent().push(true),
            !old(self).is_running() ==> r is None && final(self).sent() == old(self).sent(),
    {
        if self.running {
            proof {
                assert(self.sent@.push(true).drop_last() =~= self.sent@);
            }
            self.sent = Ghost(self.sent@.push(true));
            self.running = false;
            Some(
                match o {
                    Outcome::Loaded(d) => Message::Loaded(d),
                    Outcome::Saved(p) => Message::Saved(p),
                    Outcome::Failed(e) => Message::Error(e),
                },
            )
        } else {
            None
        }
    }
}

/// The receiving side: what the user sees, updated only from the messages
/// of the job it listens to.
pub struct Observer {
    pub records: Vec<Record>,
    pub years: Vec<i32>,
    pub wells: Vec<String>,
    pub start_year: Option<i32>,
    pub status: String,
    pub busy: bool,
    pub global: Fraction,
    pub local: Fraction,
    pub listening: bool,
    /// For each message taken in from the current job, whether it was terminal.
    pub seen: Ghost<Seq<bool>>,
}

impl Observer {
    pub open spec fn seen(&self) -> Seq<bool> {
        self.seen@
    }

    pub open spec fn is_listening(&self) -> bool {
        self.listening
    }

    /// Outside a job nothing has been taken in yet, or the job's stream has
    /// ended well.
    pub open spec fn wf(&self) -> bool {
        well_ended(self.seen(), self.is_listening()) || (!self.is_listening() && self.seen().len()
            == 0)
    }

    pub fn new() -> (r: Observer)
        ensures
            r.wf(),
            !r.is_listening(),
            !r.busy,
            r.records@.len() == 0,
            r.years@.len() == 0,
            r.wells@.len() == 0,
            r.start_year is None,
            r.status@ == "no file chosen"@,
            r.global == (Fraction { done: 0, total: 1 }),
            r.local == (Fraction { done: 0, total: 1 }),
    {
        Observer {
            records: Vec::new(),
            years: Vec::new(),
            wells: Vec::new(),
            start_year: None,
            status: "no file chosen".to_string(),
            busy: false,
            global: Fraction::none(),
            local: Fraction::none(),
            listening: false,
            seen: Ghost(Seq::empty()),
        }
    }

    pub fn listening(&self) -> (r: bool)
        ensures
            r == self.is_listening(),
    {
        self.listening
    }

    /// Starts listening to a new job; whatever an earlier job still sends is
    /// no longer heard.
    pub fn begin(&mut self)
        ensures
            final(self).wf(),
            final(self).is_listening(),
            final(self).seen() == Seq::<bool>::empty(),
            final(self).busy,
            final(self).global == (Fraction { done: 0, total: 1 }),
            final(self).local == (Fraction { done: 0, total: 1 }),
            final(self).status@ == "starting..."@,
            final(self).records == old(self).records,
            final(self).years == old(self).years,
            final(self).wells == old(self).wells,
            final(self).start_year == old(self).start_year,
    {
        self.busy = true;
        self.global = Fraction::none();
        self.local = Fraction::none();
        self.status = "starting...".to_string();
        self.listening = true;
        self.seen = Ghost(Seq::empty());
    }

    /// Takes in one message. A report updates the progress and the status
    /// line; a terminal message ends the job and stops the listening; once
    /// stopped, messages change nothing.
    pub fn receive(&mut self, m: Message)
        requires
            old(self).wf(),
        ensures
            final(self).wf(),
            !old(self).is_listening() ==> *final(self) == *old(self),
            old(self).is_listening() ==> {
                &&& final(self).seen() == old(self).seen().push(is_terminal(m))
                &&& final(self).is_listening() == !is_terminal(m)
                &&& is_terminal(m) ==> !final(self).busy
                &&& match m {
                    Message::Progress(p) => {
                        &&& final(self).global == p.global
                        &&& final(self).local == p.local
                        &&& final(self).busy == old(self).busy
                        &&& final(self).status == p.text
                        &&& final(self).records == old(self).records
                        &&& final(self).years == old(self).years
                        &&& final(self).wells == old(self).wells
                        &&& final(self).start_year == old(self).start_year
                    },
                    Message::Loaded(d) => {
                        &&& final(self).records == d.records
                        &&& final(self).years == d.years
                        &&& final(self).wells == d.wells
                        &&& final(self).start_year == if d.years@.len() > 0 {
                            Some(d.years@[0])
                        } else {
                            old(self).start_year
                        }
                        &&& final(self).global == old(self).global
                        &&& final(self).local == old(self).local
                        &&& final(self).status@ == "loaded "@ + decimal_text(
                            d.records@.len() as i64 as int,
                        ) + " records"@
                    },
                    Message::Saved(p) => {
                        &&& final(self).status@ == "saved to "@ + p@
                        &&& final(self).years == old(self).years
                        &&& final(self).wells == old(self).wells
                        &&& final(self).global == old(self).global
                        &&& final(self).local == old(self).local
                        &&& final(self).records == old(self).records
                        &&& final(self).start_year == old(self).start_year
                    },
                    Message::Error(e) => {
                        &&& final(self).status@ == "ERROR: "@ + e@
                        &&& final(self).years == old(self).years
                        &&& final(self).wells == old(self).wells
                        &&& final(self).global == old(self).global
                        &&& final(self).local == old(self).local
                        &&& final(self).records == old(self).records
                        &&& final(self).start_year == old(self).start_year
                    },
                }
            },
    {
        if !self.listening {
            return;
        }
        let ghost flag = is_terminal(m);
        proof {
            assert(self.seen@.push(flag).drop_last() =~= self.seen@);
        }
        self.seen = Ghost(self.seen@.push(flag));
        match m {
            Message::Progress(p) => {
                self.global = p.global;
                self.local = p.local;
                self.status = p.text;
            },
            Message::Loaded(d) => {
                let n = integer_text(d.records.len() as i64);
                self.records = d.records;
                self.years = d.years;
                self.wells = d.wells;
                if self.years.len() > 0 {
                    self.start_year = Some(self.years[0]);
                }
                self.status = concat3("loaded ", n.as_str(), " records");
                self.busy = false;
                self.listening = false;
            },
            Message::Saved(p) => {
                self.status = concat2("saved to ", p.as_str());
                self.busy = false;
                self.listening = false;
            },
            Message::Error(e) => {
                self.status = concat2("ERROR: ", e.as_str());
                self.busy = false;
                self.listening = false;
            },
        }
    }

    /// Decides whether an export may start: it needs loaded records, a
    /// start year and at least one selected well. Returns the start year,
    /// or sets the status line to what is missing.
    pub fn check_export(&mut self, selected_count: usize) -> (r: Option<i32>)
        ensures
            r is Some <==> (old(self).records@.len() > 0 && old(self).start_year is Some
                && selected_count > 0),
            r is Some ==> r == old(self).start_year,
            old(self).records@.len() == 0 ==> final(self).status == old(self).status,
            old(self).records@.len() > 0 && old(self).start_year is None ==> final(self).status@
                == "choose a start year"@,
            old(self).records@.len() > 0 && old(self).start_year is Some && selected_count == 0
                ==> final(self).status@ == "choose wells"@,
            r is Some ==> final(self).status == old(self).status,
            old(self).records@.len() == 0 ==> *final(self) == *old(self),
            final(self).records == old(self).records,
            final(self).years == old(self).years,
            final(self).wells == old(self).wells,
            final(self).start_year == old(self).start_year,
            final(self).global == old(self).global,
            final(self).local == old(self).local,
            final(self).busy == old(self).busy,
            final(self).listening == old(self).listening,
            final(self).seen == old(self).seen,
    {
        if self.records.len() == 0 {
            return None;
        }
        let start: i32 = match self.start_year {
            Some(y) => y,
            None => {
                self.status = "choose a start year".to_string();
                return None;
            },
        };
        if selected_count == 0 {
            self.status = "choose wells".to_string();
            return None;
        }
        Some(start)
    }
}

pub proof fn lemma_no_terminal(s: Seq<bool>)
    requires
        terminal_count(s) == 0,
    ensures
        forall|i: int| 0 <= i < s.len() ==> !s[i],
    decreases s.len(),
{
    if s.len() > 0 {
        lemma_no_terminal(s.drop_last());
        assert forall|i: int| 0 <= i < s.len() implies !s[i] by {
            if i < s.len() - 1 {
                assert(s[i] == s.drop_last()[i]);
            }
        }
    }
}

/// A message stream that has ended holds exactly one terminal message, and
/// it is the last one: no message before it is terminal.
pub proof fn lemma_terminal_is_last(s: Seq<bool>)
    requires
        well_ended(s, false),
    ensures
        s.len() > 0,
        s.last(),
        forall|i: int| 0 <= i < s.len() - 1 ==> !s[i],
{
    lemma_no_terminal(s.drop_last());
    assert forall|i: int| 0 <= i < s.len() - 1 implies !s[i] by {
        assert(s[i] == s.drop_last()[i]);
    }
}

/// A job that has ended sent exactly one terminal message, as its last.
pub proof fn lemma_job_ends_once(j: &Job)
    requires
        j.wf(),
        !j.is_running(),
    ensures
        j.sent().len() > 0,
        j.sent().last(),
        forall|i: int| 0 <= i < j.sent().len() - 1 ==> !j.sent()[i],
{
    lemma_terminal_is_last(j.sent());
}

/// An observer takes in at most one terminal message per job: while it
/// listens it has seen none, and once it has stopped, the one it saw was
/// the last message it took in.
pub proof fn lemma_observer_sees_one_terminal(o: &Observer)
    requires
        o.wf(),
    ensures
        terminal_count(o.seen()) <= 1,
        o.is_listening() ==> forall|i: int| 0 <= i < o.seen().len() ==> !o.seen()[i],
        !o.is_listening() && o.seen().len() > 0 ==> {
            &&& o.seen().last()
            &&& forall|i: int| 0 <= i < o.seen().len() - 1 ==> !o.seen()[i]
        },
{
    if o.is_listening() {
        lemma_no_terminal(o.seen());
    } else if o.seen().len() > 0 {
        lemma_terminal_is_last(o.seen());
    }
}

} // verus!
