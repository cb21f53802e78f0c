//! Tasks: a title, a due date, the autostrike flag, a stored id and the day
//! a task was struck off.

use vstd::prelude::*;
use std::hash::{DefaultHasher, Hash, Hasher};
use chrono::NaiveDate;
use crate::date::{Date, in_calendar, today};
use crate::display::{DisplayOpts, Row, RowKind, Tone, shown_tag, status_column, status_text, tag_for, tone, tone_for};
use crate::numerals::short_id_of;
use crate::lookup::{Lookup, find_by_id, labels_apart, lookup_from, lookup_of, matching_positions};
use crate::numerals::id_text;
use crate::text::upper_ascii_text;
use vstd::utf8::is_ascii_chars;

verus! {

/// A task.
pub struct Task {
    pub title: String,
    /// The deadline.
    pub end: Date,
    /// Strike the task off once its deadline has passed.
    pub autostrike: bool,
    /// The id fixed when the task was first saved.
    pub hash: Option<u32>,
    /// The day the task was struck off, if it was.
    pub completed: Option<Date>,
}

pub open spec fn day_numbers(d: Option<Date>) -> Option<int> {
    match d {
        Some(x) => Some(x@),
        None => None,
    }
}

/// The 64-bit `DefaultHasher` digest of a task that has no stored id yet:
/// the derived `Hash` of its fields in order (title, end, autostrike, the
/// empty stored id, completed), the dates as `chrono::NaiveDate`.
pub uninterp spec fn task_digest(title: Seq<char>, end: int, autostrike: bool, completed: Option<int>) -> u64;

/// Feeds a task without a stored id through `std::hash::DefaultHasher::new()`
/// the way the derived `Hash` of the task record does (title, end,
/// autostrike, the empty stored id, completed; the dates as
/// `chrono::NaiveDate`, built from their day numbers), and returns
/// `Hasher::finish`. The digest is only named: `DefaultHasher::new()` is
/// unseeded and fixed for a given standard library, and `chrono::NaiveDate`
/// hashes its own fixed encoding of the date.
#[verifier::external_body]
fn digest_unhashed_task(title: &str, end: i32, autostrike: bool, completed: Option<i32>) -> (r: u64)
    requires
        in_calendar(end as int),
        completed matches Some(c) ==> in_calendar(c as int),
    ensures
        r == task_digest(title@, end as int, autostrike, match completed { Some(c) => Some(c as int), None => None }),
{
    let end = NaiveDate::from_num_days_from_ce_opt(end).unwrap();
    let completed = match completed {
        Some(c) => Some(NaiveDate::from_num_days_from_ce_opt(c).unwrap()),
        None => None,
    };
    let mut hasher = DefaultHasher::new();
    title.hash(&mut hasher);
    end.hash(&mut hasher);
    autostrike.hash(&mut hasher);
    None::<u32>.hash(&mut hasher);
    completed.hash(&mut hasher);
    hasher.finish()
}

impl Task {
    /// The id computed from the task's contents.
    pub open spec fn computed_id(self) -> u32 {
        crate::numerals::short_id(task_digest(self.title@, self.end@, self.autostrike, day_numbers(self.completed)))
    }

    /// The task's id: the stored one, or else the computed one.
    pub open spec fn id(self) -> u32 {
        match self.hash {
            Some(h) => h,
            None => self.computed_id(),
        }
    }

    /// The task once its id is stored.
    pub open spec fn hashed(self) -> Task {
        match self.hash {
            Some(_) => self,
            None => Task { hash: Some(self.computed_id()), ..self },
        }
    }

    /// The task struck off on `day`; a task already struck keeps its day.
    pub open spec fn struck_on(self, day: Date) -> Task {
        match self.completed {
            Some(_) => self,
            None => Task { completed: Some(day), ..self },
        }
    }

    /// The task no longer struck off.
    pub open spec fn unstruck(self) -> Task {
        Task { completed: None, ..self }
    }

    /// Whether the autostrike rule strikes the task off on `today`.
    pub open spec fn autostrike_due(self, today: Date) -> bool {
        self.autostrike && self.completed is None && self.end@ < today@
    }

    /// The task after the autostrike rule ran on `today`.
    pub open spec fn autostruck_on(self, today: Date) -> Task {
        if self.autostrike_due(today) {
            Task { completed: Some(today), ..self }
        } else {
            self
        }
    }

    /// A new task, not struck off, whose id is computed and stored at once.
    pub fn new(title: String, end: Date, autostrike: bool) -> (t: Task)
        ensures
            t.title == title,
            t.end == end,
            t.autostrike == autostrike,
            t.completed is None,
            t.hash == Some(t.computed_id()),
    {
        let mut s = Task { title, end, autostrike, hash: None, completed: None };
        let id = s.get_id();
        s.hash = Some(id);
        s
    }

    /// The task's id (`id`).
    pub fn get_id(&self) -> (r: u32)
        ensures
            r == self.id(),
    {
        match self.hash {
            Some(id) => id,
            None => {
                let completed = match self.completed {
                    Some(d) => Some(d.day_number()),
                    None => None,
                };
                let digest = digest_unhashed_task(self.title.as_str(), self.end.day_number(), self.autostrike, completed);
                short_id_of(digest)
            },
        }
    }

    /// Stores the computed id when none is stored; the id does not change.
    pub fn ensure_hash(&mut self)
        ensures
            *final(self) == old(self).hashed(),
            final(self).id() == old(self).id(),
            final(self).hash is Some,
    {
        if self.hash.is_none() {
            let id = self.get_id();
            self.hash = Some(id);
        }
    }

    /// Strikes the task off on `day`, unless it is struck already.
    pub fn strike_on(&mut self, day: Date)
        ensures
            *final(self) == old(self).struck_on(day),
    {
        if self.completed.is_none() {
            self.completed = Some(day);
        }
    }

    /// Strikes the task off today, unless it is struck already.
    pub fn strike(&mut self)
        ensures
            exists|day: Date| *final(self) == old(self).struck_on(day),
            old(self).completed is Some ==> *final(self) == *old(self),
            final(self).completed is Some,
    {
        let day = today();
        self.strike_on(day);
    }

    /// Makes the task current again.
    pub fn unstrike(&mut self)
        ensures
            *final(self) == old(self).unstruck(),
    {
        if self.completed.is_some() {
            self.completed = None;
        }
    }

    /// Flips the autostrike flag.
    pub fn toggle_autostrike(&mut self)
        ensures
            *final(self) == (Task { autostrike: !old(self).autostrike, ..*old(self) }),
    {
        self.autostrike = !self.autostrike;
    }

    /// Moves the deadline.
    pub fn push_to(&mut self, end: Date)
        ensures
            *final(self) == (Task { end, ..*old(self) }),
    {
        self.end = end;
    }

    /// The autostrike rule on `today`: a task with the flag set, not struck
    /// off, whose deadline lies before `today`, is struck off on `today`.
    pub fn apply_autostrike_on(&mut self, today: Date)
        ensures
            *final(self) == old(self).autostruck_on(today),
    {
        if self.autostrike && self.completed.is_none() {
            if self.end.is_before(today) {
                self.completed = Some(today);
            }
        }
    }

    /// The autostrike rule on the current day.
    pub fn apply_autostrike(&mut self)
        ensures
            exists|day: Date| *final(self) == old(self).autostruck_on(day),
    {
        let day = today();
        self.apply_autostrike_on(day);
    }

    /// The day count in the status column: days left until the deadline,
    /// or, once struck, the days the deadline still was away on that day.
    pub open spec fn status_days(self, today: Date) -> int {
        match self.completed {
            Some(done) => self.end@ - done@,
            None => self.end@ - today@,
        }
    }

    /// `r` is the listing line of the task on `today`: the id tag, the
    /// status column and its tone, the title (struck through once struck
    /// off) and the ` [-s]` flag of autostrike tasks.
    pub open spec fn row_on(self, r: Row, today: Date, opts: DisplayOpts) -> bool {
        &&& r.kind == RowKind::Task
        &&& r.tag@ == shown_tag(self.id(), opts)
        &&& r.status@ == status_text(self.status_days(today), self.completed is Some)
        &&& r.tone == tone_for(self.status_days(today), self.completed is Some)
        &&& r.title == self.title
        &&& r.struck == self.completed is Some
        &&& r.note@ == (if self.autostrike && opts.show_flags { " [-s]"@ } else { Seq::empty() })
    }

    /// The listing line of the task on `today`.
    pub fn render(&self, today: Date, opts: DisplayOpts) -> (r: Row)
        ensures
            self.row_on(r, today, opts),
    {
        let delta = match self.completed {
            Some(done) => self.end.days_since(done),
            None => self.end.days_since(today),
        };
        let done = self.completed.is_some();
        let note = if self.autostrike && opts.show_flags { " [-s]".to_owned() } else { String::new() };
        Row {
            kind: RowKind::Task,
            tag: tag_for(self.get_id(), opts),
            status: status_column(delta, done),
            tone: tone(delta, done),
            title: self.title.clone(),
            struck: done,
            note,
        }
    }

    /// The id tag of a listing line: with ids hidden (`--no-hash`) it is
    /// empty, whatever is asked of the flags; with ids shown it is the id in
    /// six upper-case hexadecimal digits between brackets, then a space.
    pub proof fn law_row_tag(self, r: Row, today: Date, opts: DisplayOpts)
        requires
            self.row_on(r, today, opts),
        ensures
            !opts.show_hash ==> r.tag@ == Seq::<char>::empty(),
            opts.show_hash ==> r.tag@ == seq!['['] + id_text(self.id()) + seq![']', ' '],
    {
    }

    /// How a task's line looks: struck through and in the struck-off tone
    /// exactly when the task is struck off; otherwise urgent once its
    /// deadline has passed, soon within the five days from today on, and
    /// later beyond. The ` [-s]` flag follows the title only for autostrike
    /// tasks, and only when flags are shown.
    pub proof fn law_row_look(self, r: Row, today: Date, opts: DisplayOpts)
        requires
            self.row_on(r, today, opts),
        ensures
            r.struck <==> self.completed is Some,
            (r.tone == Tone::Done) <==> self.completed is Some,
            self.completed is None ==> ((r.tone == Tone::Urgent) <==> self.end@ < today@),
            self.completed is None ==> ((r.tone == Tone::Soon) <==> (today@ <= self.end@ && self.end@ < today@ + 5)),
            self.completed is None ==> ((r.tone == Tone::Later) <==> today@ + 5 <= self.end@),
            !opts.show_flags || !self.autostrike ==> r.note@ == Seq::<char>::empty(),
            opts.show_flags && self.autostrike ==> r.note@ == " [-s]"@,
    {
    }

    /// The listing line of the task on the current day.
    pub fn display(&self, opts: DisplayOpts) -> (r: Row)
        ensures
            exists|day: Date| self.row_on(r, day, opts),
    {
        let day = today();
        let r = self.render(day, opts);
        assert(self.row_on(r, day, opts));
        r
    }
}

/// Stores the computed id of every task that has none (done before saving).
pub fn ensure_hashes(tasks: &mut Vec<Task>)
    ensures
        final(tasks)@.len() == old(tasks)@.len(),
        forall|i: int| 0 <= i < old(tasks)@.len() ==> #[trigger] final(tasks)@[i] == old(tasks)@[i].hashed(),
{
    let n = tasks.len();
    let mut i: usize = 0;
    while i < n
        invariant
            i <= n,
            n == tasks.len(),
            n == old(tasks)@.len(),
            forall|k: int| 0 <= k < i ==> #[trigger] tasks@[k] == old(tasks)@[k].hashed(),
            forall|k: int| i <= k < n ==> #[trigger] tasks@[k] == old(tasks)@[k],
        decreases n - i,
    {
        let mut t = tasks.remove(i);
        t.ensure_hash();
        tasks.insert(i, t);
        i = i + 1;
    }
}

/// Runs the autostrike rule on `today` over every task (done after loading).
pub fn apply_autostrike_all(tasks: &mut Vec<Task>, today: Date)
    ensures
        final(tasks)@.len() == old(tasks)@.len(),
        forall|i: int| 0 <= i < old(tasks)@.len() ==> #[trigger] final(tasks)@[i] == old(tasks)@[i].autostruck_on(today),
{
    let n = tasks.len();
    let mut i: usize = 0;
    while i < n
        invariant
            i <= n,
            n == tasks.len(),
            n == old(tasks)@.len(),
            forall|k: int| 0 <= k < i ==> #[trigger] tasks@[k] == old(tasks)@[k].autostruck_on(today),
            forall|k: int| i <= k < n ==> #[trigger] tasks@[k] == old(tasks)@[k],
        decreases n - i,
    {
        let mut t = tasks.remove(i);
        t.apply_autostrike_on(today);
        tasks.insert(i, t);
        i = i + 1;
    }
}

/// Whether `after` is `before` with the autostrike rule run on `day` over
/// every task.
pub open spec fn autostruck_all(before: Seq<Task>, after: Seq<Task>, day: Date) -> bool {
    &&& after.len() == before.len()
    &&& forall|i: int| 0 <= i < before.len() ==> #[trigger] after[i] == before[i].autostruck_on(day)
}

/// Runs the autostrike rule on the current day over every task (done after
/// loading them).
pub fn apply_autostrike_today(tasks: &mut Vec<Task>)
    ensures
        exists|day: Date| autostruck_all(old(tasks)@, final(tasks)@, day),
{
    let day = today();
    apply_autostrike_all(tasks, day);
    assert(autostruck_all(old(tasks)@, tasks@, day));
}

/// The `completed` field as older task files hold it: a flag, or the day.
#[derive(Clone, Copy, Debug, PartialEq, Eq, Structural)]
pub enum CompletedField {
    Bool(bool),
    Date(Date),
}

/// The day a task was struck off, read from its stored field on `today`: a
/// `true` flag stands for today, a `false` flag and a missing field for
/// not struck off, a day for itself.
pub open spec fn completed_on(field: Option<CompletedField>, today: Date) -> Option<Date> {
    match field {
        Some(CompletedField::Bool(true)) => Some(today),
        Some(CompletedField::Bool(false)) => None,
        Some(CompletedField::Date(d)) => Some(d),
        None => None,
    }
}

pub fn completed_from(field: Option<CompletedField>, today: Date) -> (r: Option<Date>)
    ensures
        r == completed_on(field, today),
{
    match field {
        Some(CompletedField::Bool(true)) => Some(today),
        Some(CompletedField::Bool(false)) => None,
        Some(CompletedField::Date(d)) => Some(d),
        None => None,
    }
}

/// `completed_from` on the current day (the clock is read only for a
/// `true` flag).
pub fn read_completed(field: Option<CompletedField>) -> (r: Option<Date>)
    ensures
        exists|day: Date| r == completed_on(field, day),
        field != Some(CompletedField::Bool(true)) ==> forall|day: Date| r == completed_on(field, day),
{
    match field {
        Some(CompletedField::Bool(true)) => {
            let day = today();
            assert(Some(day) == completed_on(field, day));
            Some(day)
        },
        Some(CompletedField::Bool(false)) => None,
        Some(CompletedField::Date(d)) => Some(d),
        None => None,
    }
}

/// The ids of a list of tasks.
pub open spec fn task_ids(tasks: Seq<Task>) -> Seq<u32> {
    tasks.map_values(|t: Task| t.id())
}

/// Looks a task up by (a prefix of) its id.
pub fn find_task(hash: &str, tasks: &Vec<Task>) -> (r: Lookup)
    ensures
        r == lookup_of(task_ids(tasks@), hash@),
        is_ascii_chars(hash@) ==> r == lookup_from(matching_positions(task_ids(tasks@), upper_ascii_text(hash@))),
        forall|k: int| 0 <= k < tasks@.len() && labels_apart(task_ids(tasks@)) && is_ascii_chars(hash@)
            && upper_ascii_text(hash@) == id_text((#[trigger] tasks@[k]).id()) ==> r == Lookup::Found(k as usize),
{
    let mut ids: Vec<u32> = Vec::new();
    let mut i: usize = 0;
    while i < tasks.len()
        invariant
            i <= tasks.len(),
            ids@ == task_ids(tasks@.take(i as int)),
        decreases tasks.len() - i,
    {
        ids.push(tasks[i].get_id());
        i = i + 1;
        assert(ids@ =~= task_ids(tasks@.take(i as int)));
    }
    assert(tasks@.take(i as int) =~= tasks@);
    let r = find_by_id(hash, &ids);
    assert forall|k: int| 0 <= k < tasks@.len() && labels_apart(task_ids(tasks@)) && is_ascii_chars(hash@)
        && upper_ascii_text(hash@) == id_text((#[trigger] tasks@[k]).id()) implies r == Lookup::Found(k as usize) by {
        assert(ids@[k] == tasks@[k].id());
    }
    r
}

/// Striking a current task off and then making it current again gives the
/// task back unchanged.
pub proof fn law_unstrike_undoes_strike(t: Task, day: Date)
    requires
        t.completed is None,
    ensures
        t.struck_on(day).unstruck() == t,
{
}

/// Striking off is idempotent: a struck task keeps the day it was first
/// struck off.
pub proof fn law_strike_keeps_first_day(t: Task, first: Date, later: Date)
    ensures
        t.struck_on(first).struck_on(later) == t.struck_on(first),
{
}

/// The autostrike rule settles a task: running it again on the same day or
/// an earlier one changes nothing, and it never touches a task that is
/// struck off or has no autostrike flag.
pub proof fn law_autostrike_settles(t: Task, first: Date, again: Date)
    requires
        again@ <= first@,
    ensures
        t.autostruck_on(first).autostruck_on(again) == t.autostruck_on(first),
        (t.completed is Some || !t.autostrike) ==> t.autostruck_on(first) == t,
{
}

/// Storing the id never changes it, and storing it twice is storing it once.
pub proof fn law_storing_id_keeps_it(t: Task)
    ensures
        t.hashed().id() == t.id(),
        t.hashed().hashed() == t.hashed(),
{
}

/// Once its id is stored, a task keeps its id through striking off,
/// unstriking, the autostrike rule, toggling the flag and moving the deadline.
pub proof fn law_stored_id_is_stable(t: Task, day: Date, end: Date)
    ensures
        t.hashed().struck_on(day).id() == t.id(),
        t.hashed().unstruck().id() == t.id(),
        t.hashed().autostruck_on(day).id() == t.id(),
        (Task { autostrike: !t.hashed().autostrike, ..t.hashed() }).id() == t.id(),
        (Task { end, ..t.hashed() }).id() == t.id(),
{
}

} // verus!
