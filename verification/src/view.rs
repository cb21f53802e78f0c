//! What the `view` and `calendar` listings show, and in which order.

use vstd::prelude::*;
use crate::calendar::{CalendarEvent, calendar_named, calendar_selected, has_date_prefix};
use crate::date::{Date, today};
use crate::display::{DisplayOpts, Row};
use crate::order::{is_stable_order, law_stable_order_is_permutation, sorts_before, stable_order};
use crate::task::Task;

verus! {

/// A line of a listing: a task or a calendar event.
pub enum DisplayItem<'a> {
    Task(&'a Task),
    Calendar(&'a CalendarEvent),
}

/// Where a listed item comes from: its position among the tasks or among
/// the calendar events.
#[derive(Clone, Copy, Debug, PartialEq, Eq, Structural)]
pub enum Source {
    Task(usize),
    Calendar(usize),
}

/// How a task is ranked in a listing: overdue (0), upcoming (1), struck off (2).
pub open spec fn task_rank(t: Task, today: Date) -> u8 {
    if t.completed is Some {
        2
    } else if t.end@ < today@ {
        0
    } else {
        1
    }
}

/// How an event is ranked: before today (0), from today on (1), struck off (2).
pub open spec fn event_rank(e: CalendarEvent, today: Date) -> u8 {
    if e.struck {
        2
    } else if e.listed_day(today) < today@ {
        0
    } else {
        1
    }
}

pub open spec fn task_key(t: Task, today: Date) -> (u8, i32) {
    (task_rank(t, today), t.end@ as i32)
}

pub open spec fn event_key(e: CalendarEvent, today: Date) -> (u8, i32) {
    (event_rank(e, today), e.listed_day(today) as i32)
}

pub open spec fn item_key(item: DisplayItem, today: Date) -> (u8, i32) {
    match item {
        DisplayItem::Task(t) => task_key(*t, today),
        DisplayItem::Calendar(e) => event_key(*e, today),
    }
}

pub open spec fn item_ready(item: DisplayItem) -> bool {
    match item {
        DisplayItem::Task(_) => true,
        DisplayItem::Calendar(e) => has_date_prefix(e.start@),
    }
}

impl<'a> DisplayItem<'a> {
    /// The key a listing is sorted by: the rank, then the day.
    pub fn sort_key(&self, today: Date) -> (r: (u8, i32))
        requires
            item_ready(*self),
        ensures
            r == item_key(*self, today),
    {
        match self {
            DisplayItem::Task(task) => {
                let rank: u8 = if task.completed.is_some() {
                    2
                } else if task.end.is_before(today) {
                    0
                } else {
                    1
                };
                (rank, task.end.day_number())
            },
            DisplayItem::Calendar(event) => {
                let day = event.listed_date(today);
                let rank: u8 = if event.struck {
                    2
                } else if day.is_before(today) {
                    0
                } else {
                    1
                };
                (rank, day.day_number())
            },
        }
    }

    /// The listing line on the current day.
    pub fn display(&self, opts: DisplayOpts) -> (r: Row)
        requires
            item_ready(*self),
        ensures
            match *self {
                DisplayItem::Task(t) => exists|day: Date| t.row_on(r, day, opts),
                DisplayItem::Calendar(e) => exists|day: Date| e.row_on(r, day, opts),
            },
    {
        match self {
            DisplayItem::Task(task) => task.display(opts),
            DisplayItem::Calendar(event) => event.display(opts),
        }
    }

    /// Whether the item is struck off.
    pub fn is_struck(&self) -> (r: bool)
        ensures
            r == item_struck(*self),
    {
        match self {
            DisplayItem::Task(task) => task.completed.is_some(),
            DisplayItem::Calendar(event) => event.struck,
        }
    }
}

pub open spec fn item_struck(item: DisplayItem) -> bool {
    match item {
        DisplayItem::Task(t) => t.completed is Some,
        DisplayItem::Calendar(e) => e.struck,
    }
}

/// The item a source points to.
pub fn item<'a>(source: Source, tasks: &'a Vec<Task>, events: &'a Vec<CalendarEvent>) -> (r: DisplayItem<'a>)
    requires
        source_in(source, tasks@, events@),
    ensures
        source_item(r, source, tasks@, events@),
{
    match source {
        Source::Task(i) => DisplayItem::Task(&tasks[i]),
        Source::Calendar(i) => DisplayItem::Calendar(&events[i]),
    }
}

pub open spec fn source_in(s: Source, tasks: Seq<Task>, events: Seq<CalendarEvent>) -> bool {
    match s {
        Source::Task(i) => i < tasks.len(),
        Source::Calendar(i) => i < events.len(),
    }
}

/// `item` is the item that `s` points to.
pub open spec fn source_item(item: DisplayItem, s: Source, tasks: Seq<Task>, events: Seq<CalendarEvent>) -> bool {
    match (item, s) {
        (DisplayItem::Task(t), Source::Task(i)) => i < tasks.len() && *t == tasks[i as int],
        (DisplayItem::Calendar(e), Source::Calendar(i)) => i < events.len() && *e == events[i as int],
        _ => false,
    }
}

/// Which tasks and events the `view` listing keeps.
#[derive(Clone, Copy, Debug, PartialEq, Eq, Structural)]
pub struct ViewFlags {
    /// Everything.
    pub all: bool,
    /// Only what is struck off.
    pub completed: bool,
    /// Only overdue tasks.
    pub overdue: bool,
}

/// Whether the `view` listing keeps a task: everything with `all`, else
/// the struck-off tasks with `completed`, else the overdue current tasks
/// with `overdue`, else the current tasks.
pub open spec fn task_kept(t: Task, today: Date, f: ViewFlags) -> bool {
    if f.all {
        true
    } else if f.completed {
        t.completed is Some
    } else if f.overdue {
        t.end@ < today@ && t.completed is None
    } else {
        t.completed is None
    }
}

pub open spec fn name_filter(names: Option<&str>) -> Option<Seq<char>> {
    match names {
        Some(n) => Some(n@),
        None => None,
    }
}

/// Whether an event belongs to one of the calendars named by the filter
/// (any calendar when there is no filter).
pub open spec fn in_named_calendar(e: CalendarEvent, names: Option<Seq<char>>) -> bool {
    match names {
        Some(n) => calendar_named(e.calendar@, n),
        None => true,
    }
}

/// Whether an event passes the filters of a listing: it must be in a named
/// calendar, struck off when only struck events are wanted, and not struck
/// off when only current events are wanted.
pub open spec fn event_passes(e: CalendarEvent, names: Option<Seq<char>>, struck_only: bool, current_only: bool) -> bool {
    in_named_calendar(e, names) && (struck_only ==> e.struck) && (current_only ==> !e.struck)
}

/// `view` keeps only struck-off events with `completed` and without `all`.
pub open spec fn struck_only(f: ViewFlags) -> bool {
    f.completed && !f.all
}

/// `view` keeps only events not struck off without `all` and `completed`.
pub open spec fn current_only(f: ViewFlags) -> bool {
    !f.all && !f.completed
}

/// The tasks kept, in their order.
pub open spec fn kept_tasks(tasks: Seq<Task>, today: Date, f: ViewFlags) -> Seq<Source>
    decreases tasks.len(),
{
    if tasks.len() == 0 {
        Seq::empty()
    } else {
        let rest = kept_tasks(tasks.drop_last(), today, f);
        if task_kept(tasks.last(), today, f) {
            rest.push(Source::Task((tasks.len() - 1) as usize))
        } else {
            rest
        }
    }
}

/// The events that pass the filters, in their order.
pub open spec fn kept_events(events: Seq<CalendarEvent>, names: Option<Seq<char>>, struck_only: bool, current_only: bool) -> Seq<Source>
    decreases events.len(),
{
    if events.len() == 0 {
        Seq::empty()
    } else {
        let rest = kept_events(events.drop_last(), names, struck_only, current_only);
        if event_passes(events.last(), names, struck_only, current_only) {
            rest.push(Source::Calendar((events.len() - 1) as usize))
        } else {
            rest
        }
    }
}

/// The sort key of the item a source points to.
pub open spec fn source_key(s: Source, tasks: Seq<Task>, events: Seq<CalendarEvent>, today: Date) -> (u8, i32) {
    match s {
        Source::Task(i) => task_key(tasks[i as int], today),
        Source::Calendar(i) => event_key(events[i as int], today),
    }
}

/// The sort keys of a list of sources.
pub open spec fn source_keys(sources: Seq<Source>, tasks: Seq<Task>, events: Seq<CalendarEvent>, today: Date) -> Seq<(u8, i32)> {
    sources.map_values(|s: Source| source_key(s, tasks, events, today))
}

/// `sorted` is `candidates` put in the order of a stable sort by `keys`.
pub open spec fn sorted_as(candidates: Seq<Source>, keys: Seq<(u8, i32)>, sorted: Seq<Source>) -> bool {
    exists|order: Seq<usize>|
        #![trigger is_stable_order(keys, order)]
        is_stable_order(keys, order) && sorted.len() == order.len() && forall|k: int|
            0 <= k < sorted.len() ==> sorted[k] == candidates[order[k] as int]
}

/// Whether every event that passes the filters has a start that can be
/// cut after ten bytes (listing an event reads the date there).
pub open spec fn kept_ready(events: Seq<CalendarEvent>, names: Option<Seq<char>>, struck_only: bool, current_only: bool) -> bool {
    forall|i: int| 0 <= i < events.len() && event_passes(#[trigger] events[i], names, struck_only, current_only)
        ==> has_date_prefix(events[i].start@)
}

pub open spec fn all_sources_in(sources: Seq<Source>, tasks: Seq<Task>, events: Seq<CalendarEvent>) -> bool {
    forall|i: int| 0 <= i < sources.len() ==> source_in(#[trigger] sources[i], tasks, events)
}

/// Every event a source points to has a start that can be cut after ten bytes.
pub open spec fn sources_ready(sources: Seq<Source>, events: Seq<CalendarEvent>) -> bool {
    forall|i: int| 0 <= i < sources.len() ==> match #[trigger] sources[i] {
        Source::Calendar(k) => has_date_prefix(events[k as int].start@),
        Source::Task(_) => true,
    }
}

proof fn lemma_kept_tasks_in(tasks: Seq<Task>, today: Date, f: ViewFlags)
    requires
        tasks.len() <= usize::MAX,
    ensures
        forall|i: int| 0 <= i < kept_tasks(tasks, today, f).len() ==> ((#[trigger] kept_tasks(tasks, today, f)[i]) matches Source::Task(k) && k < tasks.len()),
    decreases tasks.len(),
{
    if tasks.len() > 0 {
        lemma_kept_tasks_in(tasks.drop_last(), today, f);
    }
}

proof fn lemma_kept_events_in(events: Seq<CalendarEvent>, names: Option<Seq<char>>, s: bool, c: bool)
    requires
        events.len() <= usize::MAX,
    ensures
        forall|i: int| 0 <= i < kept_events(events, names, s, c).len() ==> ((#[trigger] kept_events(events, names, s, c)[i]) matches Source::Calendar(k)
            && k < events.len() && event_passes(events[k as int], names, s, c)),
    decreases events.len(),
{
    if events.len() > 0 {
        lemma_kept_events_in(events.drop_last(), names, s, c);
        let rest = kept_events(events.drop_last(), names, s, c);
        assert forall|i: int| 0 <= i < rest.len() implies ((#[trigger] rest[i]) matches Source::Calendar(k)
            && k < events.len() && event_passes(events[k as int], names, s, c)) by {
            if let Source::Calendar(k) = rest[i] {
                assert(events.drop_last()[k as int] == events[k as int]);
            }
        }
        let full = kept_events(events, names, s, c);
        assert forall|i: int| 0 <= i < full.len() implies ((#[trigger] full[i]) matches Source::Calendar(k)
            && k < events.len() && event_passes(events[k as int], names, s, c)) by {
            if i < rest.len() {
                assert(full[i] == rest[i]);
            } else {
                assert(event_passes(events.last(), names, s, c));
                assert(full[i] == Source::Calendar((events.len() - 1) as usize));
                assert(events.last() == events[events.len() - 1]);
            }
        }
    }
}

fn keep_tasks(tasks: &Vec<Task>, today: Date, f: ViewFlags) -> (r: Vec<Source>)
    ensures
        r@ == kept_tasks(tasks@, today, f),
{
    let mut r: Vec<Source> = Vec::new();
    let mut i: usize = 0;
    while i < tasks.len()
        invariant
            i <= tasks.len(),
            r@ == kept_tasks(tasks@.take(i as int), today, f),
        decreases tasks.len() - i,
    {
        assert(tasks@.take(i as int + 1).drop_last() =~= tasks@.take(i as int));
        let t = &tasks[i];
        let keep = if f.all {
            true
        } else if f.completed {
            t.completed.is_some()
        } else if f.overdue {
            t.end.is_before(today) && t.completed.is_none()
        } else {
            t.completed.is_none()
        };
        if keep {
            r.push(Source::Task(i));
        }
        i = i + 1;
    }
    assert(tasks@.take(i as int) =~= tasks@);
    r
}

/// The events that pass the filters, or the position of the first of them
/// whose start cannot be cut after ten bytes.
fn keep_events(
    events: &Vec<CalendarEvent>,
    names: Option<&str>,
    struck_only: bool,
    current_only: bool,
) -> (r: Result<Vec<Source>, usize>)
    ensures
        r is Ok <==> kept_ready(events@, name_filter(names), struck_only, current_only),
        r matches Ok(v) ==> v@ == kept_events(events@, name_filter(names), struck_only, current_only),
        r matches Err(i) ==> i < events@.len() && event_passes(events@[i as int], name_filter(names), struck_only, current_only)
            && !has_date_prefix(events@[i as int].start@)
            && kept_ready(events@.take(i as int), name_filter(names), struck_only, current_only),
{
    let mut r: Vec<Source> = Vec::new();
    let mut i: usize = 0;
    while i < events.len()
        invariant
            i <= events.len(),
            r@ == kept_events(events@.take(i as int), name_filter(names), struck_only, current_only),
            kept_ready(events@.take(i as int), name_filter(names), struck_only, current_only),
        decreases events.len() - i,
    {
        assert(events@.take(i as int + 1).drop_last() =~= events@.take(i as int));
        let e = &events[i];
        let named = match names {
            Some(n) => calendar_selected(e.calendar.as_str(), n),
            None => true,
        };
        let keep_it = named && (!struck_only || e.struck) && (!current_only || !e.struck);
        assert(keep_it == event_passes(events@[i as int], name_filter(names), struck_only, current_only));
        if keep_it {
            if !e.start.as_str().is_char_boundary(10) {
                assert(!kept_ready(events@, name_filter(names), struck_only, current_only));
                return Err(i);
            }
            r.push(Source::Calendar(i));
        }
        i = i + 1;
        assert forall|k: int| 0 <= k < i && event_passes(#[trigger] events@.take(i as int)[k], name_filter(names), struck_only, current_only)
            implies has_date_prefix(events@.take(i as int)[k].start@) by {
            if k < i - 1 {
                assert(events@.take(i as int)[k] == events@.take(i as int - 1)[k]);
            }
        }
    }
    assert(events@.take(i as int) =~= events@);
    Ok(r)
}

/// Puts `candidates` in the order of a stable sort by the keys of their items.
fn sort_sources(candidates: &Vec<Source>, tasks: &Vec<Task>, events: &Vec<CalendarEvent>, today: Date) -> (r: Vec<Source>)
    requires
        all_sources_in(candidates@, tasks@, events@),
        sources_ready(candidates@, events@),
    ensures
        sorted_as(candidates@, source_keys(candidates@, tasks@, events@, today), r@),
        all_sources_in(r@, tasks@, events@),
{
    let ghost keys_spec = source_keys(candidates@, tasks@, events@, today);
    let mut keys: Vec<(u8, i32)> = Vec::new();
    let mut i: usize = 0;
    while i < candidates.len()
        invariant
            i <= candidates.len(),
            all_sources_in(candidates@, tasks@, events@),
            sources_ready(candidates@, events@),
            keys_spec == source_keys(candidates@, tasks@, events@, today),
            keys@ == keys_spec.take(i as int),
        decreases candidates.len() - i,
    {
        let s = candidates[i];
        assert(source_in(candidates@[i as int], tasks@, events@));
        assert(match candidates@[i as int] {
            Source::Calendar(k) => has_date_prefix(events@[k as int].start@),
            Source::Task(_) => true,
        });
        let it = item(s, tasks, events);
        let key = it.sort_key(today);
        keys.push(key);
        i = i + 1;
        assert(keys@ =~= keys_spec.take(i as int));
    }
    assert(keys_spec.take(i as int) =~= keys_spec);
    let order = stable_order(&keys);
    let mut r: Vec<Source> = Vec::new();
    let mut k: usize = 0;
    while k < order.len()
        invariant
            k <= order.len(),
            is_stable_order(keys_spec, order@),
            keys_spec.len() == candidates@.len(),
            all_sources_in(candidates@, tasks@, events@),
            r@.len() == k,
            forall|j: int| 0 <= j < k ==> r@[j] == candidates@[order@[j] as int],
        decreases order.len() - k,
    {
        r.push(candidates[order[k]]);
        k = k + 1;
    }
    assert(is_stable_order(keys_spec, order@));
    assert(all_sources_in(r@, tasks@, events@)) by {
        assert forall|j: int| 0 <= j < r@.len() implies source_in(#[trigger] r@[j], tasks@, events@) by {
            assert(source_in(candidates@[order@[j] as int], tasks@, events@));
        }
    }
    r
}

/// A listing: the items in display order, how many of them are shown,
/// and how many are left over for the closing `+N more` line.
pub struct Listing {
    pub sources: Vec<Source>,
    pub shown: usize,
    pub remaining: usize,
}

/// How many items a listing of `total` shows under a line limit: all of
/// them when they fit, else one fewer than the limit (the last line tells
/// how many more there are).
pub open spec fn shown_count(total: int, lines: Option<usize>) -> int {
    match lines {
        Some(l) => if total <= l { total } else if l >= 1 { l - 1 } else { 0 },
        None => total,
    }
}

/// The number of items shown and the number left over.
pub fn window(total: usize, lines: Option<usize>) -> (r: (usize, usize))
    ensures
        r.0 == shown_count(total as int, lines),
        r.0 + r.1 == total,
{
    let limit = match lines {
        Some(l) => l,
        None => total,
    };
    if total <= limit {
        (total, 0)
    } else {
        let shown = if limit >= 1 { limit - 1 } else { 0 };
        (shown, total - shown)
    }
}

/// A line limit of `n` (at least one) is kept: the shown items plus the
/// closing line, when there is one, take at most `n` lines, and nothing is
/// left over when everything fits.
pub proof fn law_listing_fits(total: int, n: usize)
    requires
        0 <= total,
        n >= 1,
    ensures
        shown_count(total, Some(n)) + (if total - shown_count(total, Some(n)) > 0 { 1int } else { 0 }) <= n,
        total <= n ==> shown_count(total, Some(n)) == total,
        total > n ==> shown_count(total, Some(n)) == n - 1,
{
}

/// In a listing, overdue items come first, then upcoming ones, then the
/// struck-off ones (ranks 0, 1, 2), and within a rank the earlier day first.
pub proof fn law_listing_ranked(
    candidates: Seq<Source>,
    tasks: Seq<Task>,
    events: Seq<CalendarEvent>,
    today: Date,
    sorted: Seq<Source>,
    i: int,
    j: int,
)
    requires
        sorted_as(candidates, source_keys(candidates, tasks, events, today), sorted),
        0 <= i < j < sorted.len(),
    ensures
        source_key(sorted[i], tasks, events, today).0 <= source_key(sorted[j], tasks, events, today).0,
        source_key(sorted[i], tasks, events, today).0 == source_key(sorted[j], tasks, events, today).0
            ==> source_key(sorted[i], tasks, events, today).1 <= source_key(sorted[j], tasks, events, today).1,
{
    let keys = source_keys(candidates, tasks, events, today);
    let order = choose|order: Seq<usize>|
        #![trigger is_stable_order(keys, order)]
        is_stable_order(keys, order) && sorted.len() == order.len() && forall|k: int|
            0 <= k < sorted.len() ==> sorted[k] == candidates[order[k] as int];
    assert(sorts_before(keys, order[i] as int, order[j] as int));
    assert(sorted[i] == candidates[order[i] as int]);
    assert(sorted[j] == candidates[order[j] as int]);
}

/// With `all`, the `view` listing keeps every task, in order.
pub proof fn law_all_keeps_every_task(tasks: Seq<Task>, today: Date, f: ViewFlags)
    requires
        f.all,
        tasks.len() <= usize::MAX,
    ensures
        kept_tasks(tasks, today, f).len() == tasks.len(),
        forall|i: int| 0 <= i < tasks.len() ==> #[trigger] kept_tasks(tasks, today, f)[i] == Source::Task(i as usize),
    decreases tasks.len(),
{
    if tasks.len() > 0 {
        law_all_keeps_every_task(tasks.drop_last(), today, f);
    }
}

/// With `all` and no calendar filter, the `view` listing keeps every event,
/// in order.
pub proof fn law_all_keeps_every_event(events: Seq<CalendarEvent>, f: ViewFlags)
    requires
        f.all,
        events.len() <= usize::MAX,
    ensures
        kept_events(events, None, struck_only(f), current_only(f)).len() == events.len(),
        forall|i: int| 0 <= i < events.len()
            ==> #[trigger] kept_events(events, None, struck_only(f), current_only(f))[i] == Source::Calendar(i as usize),
    decreases events.len(),
{
    if events.len() > 0 {
        law_all_keeps_every_event(events.drop_last(), f);
    }
}

/// A listing holds as many items as were kept, and every kept item is in it.
pub proof fn law_listing_complete(
    candidates: Seq<Source>,
    tasks: Seq<Task>,
    events: Seq<CalendarEvent>,
    today: Date,
    sorted: Seq<Source>,
)
    requires
        sorted_as(candidates, source_keys(candidates, tasks, events, today), sorted),
        candidates.len() <= usize::MAX,
    ensures
        sorted.len() == candidates.len(),
        forall|k: int| 0 <= k < candidates.len() ==> #[trigger] sorted.contains(candidates[k]),
{
    let keys = source_keys(candidates, tasks, events, today);
    let order = choose|order: Seq<usize>|
        #![trigger is_stable_order(keys, order)]
        is_stable_order(keys, order) && sorted.len() == order.len() && forall|k: int|
            0 <= k < sorted.len() ==> sorted[k] == candidates[order[k] as int];
    law_stable_order_is_permutation(keys, order);
    assert forall|k: int| 0 <= k < candidates.len() implies #[trigger] sorted.contains(candidates[k]) by {
        assert(order.contains(k as usize));
        let i = choose|i: int| 0 <= i < order.len() && order[i] == k as usize;
        assert(sorted[i] == candidates[k]);
    }
}

pub open spec fn maybe_reversed(s: Seq<Source>, reverse: bool) -> Seq<Source> {
    if reverse { s.reverse() } else { s }
}

/// The candidates of the `view` listing: the kept tasks, then the kept events.
pub open spec fn view_candidates(
    tasks: Seq<Task>,
    events: Seq<CalendarEvent>,
    today: Date,
    flags: ViewFlags,
    names: Option<Seq<char>>,
) -> Seq<Source> {
    kept_tasks(tasks, today, flags) + kept_events(events, names, struck_only(flags), current_only(flags))
}

/// `r` is the `view` listing on `today`.
pub open spec fn is_view_listing(
    r: Listing,
    tasks: Seq<Task>,
    events: Seq<CalendarEvent>,
    today: Date,
    flags: ViewFlags,
    names: Option<Seq<char>>,
    reverse: bool,
    lines: Option<usize>,
) -> bool {
    let candidates = view_candidates(tasks, events, today, flags, names);
    &&& sorted_as(
        candidates,
        source_keys(candidates, tasks, events, today),
        maybe_reversed(r.sources@, reverse),
    )
    &&& all_sources_in(r.sources@, tasks, events)
    &&& sources_ready(r.sources@, events)
    &&& r.shown == shown_count(r.sources@.len() as int, lines)
    &&& r.shown + r.remaining == r.sources@.len()
}

/// What `view` lists on `today`: the kept tasks and the kept events, in a
/// stable sort by rank (overdue, upcoming, struck off) and then day,
/// reversed when asked, and cut to the line limit. Fails with the position
/// of a kept event whose start cannot be cut after ten bytes.
pub fn plan_view(
    tasks: &Vec<Task>,
    events: &Vec<CalendarEvent>,
    today: Date,
    flags: ViewFlags,
    names: Option<&str>,
    reverse: bool,
    lines: Option<usize>,
) -> (r: Result<Listing, usize>)
    ensures
        r is Ok <==> kept_ready(events@, name_filter(names), struck_only(flags), current_only(flags)),
        r matches Ok(l) ==> is_view_listing(l, tasks@, events@, today, flags, name_filter(names), reverse, lines),
        r matches Ok(l) ==> (!flags.all && !flags.completed ==> forall|i: int| 0 <= i < l.sources@.len() ==> match #[trigger] l.sources@[i] {
            Source::Calendar(k) => !events@[k as int].struck,
            Source::Task(_) => true,
        }),
        r matches Ok(l) ==> forall|k: int| 0 <= k < tasks@.len() ==> (#[trigger] l.sources@.contains(Source::Task(k as usize)) <==> (flags.all
            || (flags.completed && tasks@[k].completed is Some)
            || (!flags.completed && tasks@[k].completed is None && (flags.overdue ==> tasks@[k].end@ < today@)))),
        r matches Ok(l) ==> forall|k: int| 0 <= k < events@.len() ==> (#[trigger] l.sources@.contains(Source::Calendar(k as usize)) <==> (
            in_named_calendar(events@[k], name_filter(names)) && (flags.all || flags.completed == events@[k].struck))),
        r matches Err(i) ==> i < events@.len()
            && event_passes(events@[i as int], name_filter(names), struck_only(flags), current_only(flags))
            && !has_date_prefix(events@[i as int].start@)
            && kept_ready(events@.take(i as int), name_filter(names), struck_only(flags), current_only(flags)),
{
    let _task_count = tasks.len();
    let _event_count = events.len();
    let mut candidates = keep_tasks(tasks, today, flags);
    let only_struck = flags.completed && !flags.all;
    let only_current = !flags.all && !flags.completed;
    let mut from_events = match keep_events(events, names, only_struck, only_current) {
        Ok(v) => v,
        Err(i) => return Err(i),
    };
    let ghost task_part = candidates@;
    let ghost event_part = from_events@;
    candidates.append(&mut from_events);
    proof {
        lemma_kept_tasks_in(tasks@, today, flags);
        lemma_kept_events_in(events@, name_filter(names), only_struck, only_current);
        assert forall|i: int| 0 <= i < candidates@.len() implies source_in(#[trigger] candidates@[i], tasks@, events@) by {
            if i < task_part.len() {
                assert(candidates@[i] == task_part[i]);
            } else {
                assert(candidates@[i] == event_part[i - task_part.len()]);
            }
        }
        assert forall|i: int| 0 <= i < candidates@.len() implies match #[trigger] candidates@[i] {
            Source::Calendar(k) => has_date_prefix(events@[k as int].start@),
            Source::Task(_) => true,
        } by {
            if i < task_part.len() {
                assert(candidates@[i] == task_part[i]);
            } else {
                assert(candidates@[i] == event_part[i - task_part.len()]);
            }
        }
    }
    let sorted = sort_sources(&candidates, tasks, events, today);
    let mut out = sorted;
    if reverse {
        let ghost before = out@;
        out = reversed(out);
        assert(out@.reverse() =~= before);
    }
    let (shown, remaining) = window(out.len(), lines);
    proof {
        assert forall|i: int| 0 <= i < out@.len() implies source_in(#[trigger] out@[i], tasks@, events@) by {
            if reverse {
                assert(out@[i] == sorted@[sorted@.len() - 1 - i]);
            }
        }
        assert forall|i: int| 0 <= i < out@.len() implies match #[trigger] out@[i] {
            Source::Calendar(k) => has_date_prefix(events@[k as int].start@),
            Source::Task(_) => true,
        } by {
            let j = if reverse { sorted@.len() - 1 - i } else { i };
            assert(out@[i] == sorted@[j]);
            let order = choose|order: Seq<usize>|
                #![trigger is_stable_order(source_keys(candidates@, tasks@, events@, today), order)]
                is_stable_order(source_keys(candidates@, tasks@, events@, today), order)
                && sorted@.len() == order.len() && forall|k: int|
                    0 <= k < sorted@.len() ==> sorted@[k] == candidates@[order[k] as int];
            assert(sorted@[j] == candidates@[order[j] as int]);
            assert(order[j] < candidates@.len());
        }
    }
    let l = Listing { sources: out, shown, remaining };
    proof {
        law_view_struck_events(l, tasks@, events@, today, flags, name_filter(names), reverse, lines);
        law_view_membership(l, tasks@, events@, today, flags, name_filter(names), reverse, lines);
    }
    Ok(l)
}

/// Every source of a `view` listing is a kept task or a kept event.
proof fn lemma_view_sources_kept(
    l: Listing,
    tasks: Seq<Task>,
    events: Seq<CalendarEvent>,
    today: Date,
    flags: ViewFlags,
    names: Option<Seq<char>>,
    reverse: bool,
    lines: Option<usize>,
    i: int,
)
    requires
        is_view_listing(l, tasks, events, today, flags, names, reverse, lines),
        tasks.len() <= usize::MAX,
        events.len() <= usize::MAX,
        0 <= i < l.sources@.len(),
    ensures
        match l.sources@[i] {
            Source::Calendar(k) => k < events.len() && event_passes(events[k as int], names, struck_only(flags), current_only(flags)),
            Source::Task(k) => k < tasks.len() && task_kept(tasks[k as int], today, flags),
        },
{
    let candidates = view_candidates(tasks, events, today, flags, names);
    let keys = source_keys(candidates, tasks, events, today);
    let sorted = maybe_reversed(l.sources@, reverse);
    let order = choose|order: Seq<usize>|
        #![trigger is_stable_order(keys, order)]
        is_stable_order(keys, order) && sorted.len() == order.len() && forall|k: int|
            0 <= k < sorted.len() ==> sorted[k] == candidates[order[k] as int];
    let j = if reverse { l.sources@.len() - 1 - i } else { i };
    assert(l.sources@[i] == sorted[j]);
    let m = order[j] as int;
    assert(sorted[j] == candidates[m]);
    lemma_kept_tasks_in(tasks, today, flags);
    lemma_kept_events_in(events, names, struck_only(flags), current_only(flags));
    lemma_kept_tasks_satisfy(tasks, today, flags);
    let tp = kept_tasks(tasks, today, flags);
    let ep = kept_events(events, names, struck_only(flags), current_only(flags));
    if m < tp.len() {
        assert(candidates[m] == tp[m]);
    } else {
        assert(candidates[m] == ep[m - tp.len()]);
    }
}

proof fn lemma_kept_tasks_satisfy(tasks: Seq<Task>, today: Date, f: ViewFlags)
    requires
        tasks.len() <= usize::MAX,
    ensures
        forall|i: int| 0 <= i < kept_tasks(tasks, today, f).len() ==> ((#[trigger] kept_tasks(tasks, today, f)[i]) matches Source::Task(k)
            && k < tasks.len() && task_kept(tasks[k as int], today, f)),
    decreases tasks.len(),
{
    if tasks.len() > 0 {
        lemma_kept_tasks_satisfy(tasks.drop_last(), today, f);
        let rest = kept_tasks(tasks.drop_last(), today, f);
        let full = kept_tasks(tasks, today, f);
        assert forall|i: int| 0 <= i < full.len() implies ((#[trigger] full[i]) matches Source::Task(k)
            && k < tasks.len() && task_kept(tasks[k as int], today, f)) by {
            if i < rest.len() {
                assert(full[i] == rest[i]);
                if let Source::Task(k) = rest[i] {
                    assert(tasks.drop_last()[k as int] == tasks[k as int]);
                }
            } else {
                assert(full[i] == Source::Task((tasks.len() - 1) as usize));
                assert(tasks.last() == tasks[tasks.len() - 1]);
            }
        }
    }
}

/// Unless `all` or `completed` is asked for, a `view` listing holds no
/// struck-off calendar event, whatever the `overdue` flag says; with
/// `completed` and without `all`, every event it holds is struck off.
pub proof fn law_view_struck_events(
    l: Listing,
    tasks: Seq<Task>,
    events: Seq<CalendarEvent>,
    today: Date,
    flags: ViewFlags,
    names: Option<Seq<char>>,
    reverse: bool,
    lines: Option<usize>,
)
    requires
        is_view_listing(l, tasks, events, today, flags, names, reverse, lines),
        tasks.len() <= usize::MAX,
        events.len() <= usize::MAX,
    ensures
        !flags.all && !flags.completed ==> forall|i: int| 0 <= i < l.sources@.len() ==> match #[trigger] l.sources@[i] {
            Source::Calendar(k) => !events[k as int].struck,
            Source::Task(_) => true,
        },
        flags.completed && !flags.all ==> forall|i: int| 0 <= i < l.sources@.len() ==> match #[trigger] l.sources@[i] {
            Source::Calendar(k) => events[k as int].struck,
            Source::Task(_) => true,
        },
{
    assert forall|i: int| 0 <= i < l.sources@.len() implies match #[trigger] l.sources@[i] {
        Source::Calendar(k) => (!flags.all && !flags.completed ==> !events[k as int].struck)
            && (flags.completed && !flags.all ==> events[k as int].struck),
        Source::Task(_) => true,
    } by {
        lemma_view_sources_kept(l, tasks, events, today, flags, names, reverse, lines, i);
    }
}

proof fn lemma_kept_tasks_has(tasks: Seq<Task>, today: Date, f: ViewFlags, k: int)
    requires
        tasks.len() <= usize::MAX,
        0 <= k < tasks.len(),
        task_kept(tasks[k], today, f),
    ensures
        kept_tasks(tasks, today, f).contains(Source::Task(k as usize)),
    decreases tasks.len(),
{
    let rest = kept_tasks(tasks.drop_last(), today, f);
    let full = kept_tasks(tasks, today, f);
    if k == tasks.len() - 1 {
        assert(tasks.last() == tasks[k]);
        assert(full[rest.len() as int] == Source::Task(k as usize));
    } else {
        assert(tasks.drop_last()[k] == tasks[k]);
        lemma_kept_tasks_has(tasks.drop_last(), today, f, k);
        let j = choose|j: int| 0 <= j < rest.len() && rest[j] == Source::Task(k as usize);
        assert(full[j] == rest[j]);
    }
}

proof fn lemma_kept_events_has(events: Seq<CalendarEvent>, names: Option<Seq<char>>, s: bool, c: bool, k: int)
    requires
        events.len() <= usize::MAX,
        0 <= k < events.len(),
        event_passes(events[k], names, s, c),
    ensures
        kept_events(events, names, s, c).contains(Source::Calendar(k as usize)),
    decreases events.len(),
{
    let rest = kept_events(events.drop_last(), names, s, c);
    let full = kept_events(events, names, s, c);
    if k == events.len() - 1 {
        assert(events.last() == events[k]);
        assert(full[rest.len() as int] == Source::Calendar(k as usize));
    } else {
        assert(events.drop_last()[k] == events[k]);
        lemma_kept_events_has(events.drop_last(), names, s, c, k);
        let j = choose|j: int| 0 <= j < rest.len() && rest[j] == Source::Calendar(k as usize);
        assert(full[j] == rest[j]);
    }
}

/// Every candidate of a `view` listing is listed.
proof fn lemma_view_lists_candidate(
    l: Listing,
    tasks: Seq<Task>,
    events: Seq<CalendarEvent>,
    today: Date,
    flags: ViewFlags,
    names: Option<Seq<char>>,
    reverse: bool,
    lines: Option<usize>,
    s: Source,
)
    requires
        is_view_listing(l, tasks, events, today, flags, names, reverse, lines),
        view_candidates(tasks, events, today, flags, names).contains(s),
        l.sources@.len() <= usize::MAX,
    ensures
        l.sources@.contains(s),
{
    let candidates = view_candidates(tasks, events, today, flags, names);
    let sorted = maybe_reversed(l.sources@, reverse);
    let keys = source_keys(candidates, tasks, events, today);
    let order = choose|order: Seq<usize>|
        #![trigger is_stable_order(keys, order)]
        is_stable_order(keys, order) && sorted.len() == order.len() && forall|k: int|
            0 <= k < sorted.len() ==> sorted[k] == candidates[order[k] as int];
    assert(candidates.len() == l.sources@.len());
    let m = choose|m: int| 0 <= m < candidates.len() && candidates[m] == s;
    law_listing_complete(candidates, tasks, events, today, sorted);
    assert(sorted.contains(candidates[m]));
    let j = choose|j: int| 0 <= j < sorted.len() && sorted[j] == s;
    if reverse {
        assert(l.sources@[l.sources@.len() - 1 - j] == s);
    } else {
        assert(l.sources@[j] == s);
    }
}

/// Which items the `view` listing holds. A task is listed with `all`;
/// else, with `completed`, exactly when it is struck off; else exactly when
/// it is not struck off and, with `overdue`, its deadline has passed. An
/// event is listed exactly when it is in a named calendar (any, without a
/// filter) and, unless `all` is set, is struck off just when `completed`
/// is set.
pub proof fn law_view_membership(
    l: Listing,
    tasks: Seq<Task>,
    events: Seq<CalendarEvent>,
    today: Date,
    flags: ViewFlags,
    names: Option<Seq<char>>,
    reverse: bool,
    lines: Option<usize>,
)
    requires
        is_view_listing(l, tasks, events, today, flags, names, reverse, lines),
        tasks.len() <= usize::MAX,
        events.len() <= usize::MAX,
        l.sources@.len() <= usize::MAX,
    ensures
        forall|k: int| 0 <= k < tasks.len() ==> (#[trigger] l.sources@.contains(Source::Task(k as usize)) <==> (flags.all
            || (flags.completed && tasks[k].completed is Some)
            || (!flags.completed && tasks[k].completed is None && (flags.overdue ==> tasks[k].end@ < today@)))),
        forall|k: int| 0 <= k < events.len() ==> (#[trigger] l.sources@.contains(Source::Calendar(k as usize)) <==> (
            in_named_calendar(events[k], names) && (flags.all || flags.completed == events[k].struck))),
{
    let candidates = view_candidates(tasks, events, today, flags, names);
    let tp = kept_tasks(tasks, today, flags);
    let ep = kept_events(events, names, struck_only(flags), current_only(flags));
    assert forall|k: int| 0 <= k < tasks.len() implies (#[trigger] l.sources@.contains(Source::Task(k as usize)) <==> (flags.all
        || (flags.completed && tasks[k].completed is Some)
        || (!flags.completed && tasks[k].completed is None && (flags.overdue ==> tasks[k].end@ < today@)))) by {
        if l.sources@.contains(Source::Task(k as usize)) {
            let i = choose|i: int| 0 <= i < l.sources@.len() && l.sources@[i] == Source::Task(k as usize);
            lemma_view_sources_kept(l, tasks, events, today, flags, names, reverse, lines, i);
        }
        if task_kept(tasks[k], today, flags) {
            lemma_kept_tasks_has(tasks, today, flags, k);
            let j = choose|j: int| 0 <= j < tp.len() && tp[j] == Source::Task(k as usize);
            assert(candidates[j] == tp[j]);
            lemma_view_lists_candidate(l, tasks, events, today, flags, names, reverse, lines, Source::Task(k as usize));
        }
    }
    assert forall|k: int| 0 <= k < events.len() implies (#[trigger] l.sources@.contains(Source::Calendar(k as usize)) <==> (
        in_named_calendar(events[k], names) && (flags.all || flags.completed == events[k].struck))) by {
        if l.sources@.contains(Source::Calendar(k as usize)) {
            let i = choose|i: int| 0 <= i < l.sources@.len() && l.sources@[i] == Source::Calendar(k as usize);
            lemma_view_sources_kept(l, tasks, events, today, flags, names, reverse, lines, i);
        }
        if event_passes(events[k], names, struck_only(flags), current_only(flags)) {
            lemma_kept_events_has(events, names, struck_only(flags), current_only(flags), k);
            let j = choose|j: int| 0 <= j < ep.len() && ep[j] == Source::Calendar(k as usize);
            assert(candidates[tp.len() + j] == ep[j]);
            lemma_view_lists_candidate(l, tasks, events, today, flags, names, reverse, lines, Source::Calendar(k as usize));
        }
    }
}

/// `plan_view` on the current day.
pub fn plan_view_now(
    tasks: &Vec<Task>,
    events: &Vec<CalendarEvent>,
    flags: ViewFlags,
    names: Option<&str>,
    reverse: bool,
    lines: Option<usize>,
) -> (r: Result<Listing, usize>)
    ensures
        r is Ok <==> kept_ready(events@, name_filter(names), struck_only(flags), current_only(flags)),
        r matches Ok(l) ==> exists|day: Date| is_view_listing(l, tasks@, events@, day, flags, name_filter(names), reverse, lines),
{
    let day = today();
    let r = plan_view(tasks, events, day, flags, names, reverse, lines);
    if let Ok(l) = &r {
        assert(is_view_listing(*l, tasks@, events@, day, flags, name_filter(names), reverse, lines));
    }
    r
}

fn reversed(v: Vec<Source>) -> (r: Vec<Source>)
    ensures
        r@ == v@.reverse(),
{
    let mut r: Vec<Source> = Vec::new();
    let mut i: usize = v.len();
    while i > 0
        invariant
            i <= v.len(),
            r@.len() == v.len() - i,
            forall|k: int| 0 <= k < r@.len() ==> r@[k] == v@[v.len() - 1 - k],
        decreases i,
    {
        i = i - 1;
        r.push(v[i]);
    }
    assert(r@ =~= v@.reverse());
    r
}

/// The key of the `calendar` listing: the day an event is listed under.
pub open spec fn day_key(s: Source, events: Seq<CalendarEvent>, today: Date) -> (u8, i32) {
    match s {
        Source::Calendar(i) => (0, events[i as int].listed_day(today) as i32),
        Source::Task(_) => (0, 0),
    }
}

/// The keys of the `calendar` listing of a list of sources.
pub open spec fn day_keys(sources: Seq<Source>, events: Seq<CalendarEvent>, today: Date) -> Seq<(u8, i32)> {
    sources.map_values(|s: Source| day_key(s, events, today))
}

/// `r` is the `calendar` listing on `today`.
pub open spec fn is_calendar_listing(
    r: Listing,
    events: Seq<CalendarEvent>,
    today: Date,
    names: Option<Seq<char>>,
    completed: bool,
    lines: Option<usize>,
) -> bool {
    let candidates = kept_events(events, names, false, !completed);
    &&& sorted_as(candidates, day_keys(candidates, events, today), r.sources@)
    &&& all_sources_in(r.sources@, Seq::empty(), events)
    &&& sources_ready(r.sources@, events)
    &&& r.shown == shown_count(r.sources@.len() as int, lines)
    &&& r.shown + r.remaining == r.sources@.len()
}

/// What the `calendar` listing shows on `today`: the kept events, in a
/// stable sort by the day they are listed under, cut to the line limit.
/// Fails with the position of a kept event whose start cannot be cut after
/// ten bytes.
pub fn plan_calendar(
    events: &Vec<CalendarEvent>,
    today: Date,
    names: Option<&str>,
    completed: bool,
    lines: Option<usize>,
) -> (r: Result<Listing, usize>)
    ensures
        r is Ok <==> kept_ready(events@, name_filter(names), false, !completed),
        r matches Ok(l) ==> is_calendar_listing(l, events@, today, name_filter(names), completed, lines),
        r matches Ok(l) ==> forall|k: int| 0 <= k < events@.len() ==> (#[trigger] l.sources@.contains(Source::Calendar(k as usize)) <==> (
            in_named_calendar(events@[k], name_filter(names)) && (completed || !events@[k].struck))),
        r matches Err(i) ==> i < events@.len() && event_passes(events@[i as int], name_filter(names), false, !completed)
            && !has_date_prefix(events@[i as int].start@)
            && kept_ready(events@.take(i as int), name_filter(names), false, !completed),
{
    let _event_count = events.len();
    let candidates = match keep_events(events, names, false, !completed) {
        Ok(v) => v,
        Err(i) => return Err(i),
    };
    proof {
        lemma_kept_events_in(events@, name_filter(names), false, !completed);
    }
    let ghost keys_spec = day_keys(candidates@, events@, today);
    let mut keys: Vec<(u8, i32)> = Vec::new();
    let mut i: usize = 0;
    while i < candidates.len()
        invariant
            i <= candidates.len(),
            candidates@ == kept_events(events@, name_filter(names), false, !completed),
            forall|j: int| 0 <= j < candidates@.len() ==> ((#[trigger] candidates@[j]) matches Source::Calendar(k)
                && k < events@.len() && event_passes(events@[k as int], name_filter(names), false, !completed)),
            kept_ready(events@, name_filter(names), false, !completed),
            keys_spec == day_keys(candidates@, events@, today),
            keys@ == keys_spec.take(i as int),
        decreases candidates.len() - i,
    {
        let s = candidates[i];
        assert(candidates@[i as int] matches Source::Calendar(k) && k < events@.len());
        let key: (u8, i32) = match s {
            Source::Calendar(k) => (0, events[k].listed_date(today).day_number()),
            Source::Task(_) => (0, 0),
        };
        keys.push(key);
        i = i + 1;
        assert(keys@ =~= keys_spec.take(i as int));
    }
    assert(keys_spec.take(i as int) =~= keys_spec);
    let order = stable_order(&keys);
    let mut out: Vec<Source> = Vec::new();
    let mut k: usize = 0;
    while k < order.len()
        invariant
            k <= order.len(),
            is_stable_order(keys_spec, order@),
            keys_spec.len() == candidates@.len(),
            forall|j: int| 0 <= j < candidates@.len() ==> ((#[trigger] candidates@[j]) matches Source::Calendar(x)
                && x < events@.len() && event_passes(events@[x as int], name_filter(names), false, !completed)),
            out@.len() == k,
            forall|j: int| 0 <= j < k ==> out@[j] == candidates@[order@[j] as int],
        decreases order.len() - k,
    {
        out.push(candidates[order[k]]);
        k = k + 1;
    }
    assert(is_stable_order(keys_spec, order@));
    assert forall|j: int| 0 <= j < out@.len() implies source_in(#[trigger] out@[j], Seq::empty(), events@)
        && match out@[j] {
            Source::Calendar(x) => has_date_prefix(events@[x as int].start@),
            Source::Task(_) => true,
        } by {
        assert(candidates@[order@[j] as int] matches Source::Calendar(x) && x < events@.len());
    }
    let (shown, remaining) = window(out.len(), lines);
    let l = Listing { sources: out, shown, remaining };
    proof {
        law_calendar_membership(l, events@, today, name_filter(names), completed, lines);
    }
    Ok(l)
}

/// A stable sort by any keys keeps every item: each candidate is in the
/// sorted list, and each item of the sorted list is a candidate.
proof fn lemma_sorted_same_items(candidates: Seq<Source>, keys: Seq<(u8, i32)>, sorted: Seq<Source>, s: Source)
    requires
        sorted_as(candidates, keys, sorted),
        keys.len() == candidates.len(),
        sorted.len() <= usize::MAX,
    ensures
        sorted.contains(s) <==> candidates.contains(s),
{
    let order = choose|order: Seq<usize>|
        #![trigger is_stable_order(keys, order)]
        is_stable_order(keys, order) && sorted.len() == order.len() && forall|k: int|
            0 <= k < sorted.len() ==> sorted[k] == candidates[order[k] as int];
    law_stable_order_is_permutation(keys, order);
    if candidates.contains(s) {
        let m = choose|m: int| 0 <= m < candidates.len() && candidates[m] == s;
        assert(order.contains(m as usize));
        let i = choose|i: int| 0 <= i < order.len() && order[i] == m as usize;
        assert(sorted[i] == s);
    }
    if sorted.contains(s) {
        let i = choose|i: int| 0 <= i < sorted.len() && sorted[i] == s;
        assert(candidates[order[i] as int] == s);
    }
}

/// Which events the `calendar` listing holds: exactly those in a named
/// calendar (any, without a filter) that are not struck off, or, with
/// `completed`, struck off or not.
pub proof fn law_calendar_membership(
    l: Listing,
    events: Seq<CalendarEvent>,
    today: Date,
    names: Option<Seq<char>>,
    completed: bool,
    lines: Option<usize>,
)
    requires
        is_calendar_listing(l, events, today, names, completed, lines),
        events.len() <= usize::MAX,
        l.sources@.len() <= usize::MAX,
    ensures
        forall|k: int| 0 <= k < events.len() ==> (#[trigger] l.sources@.contains(Source::Calendar(k as usize)) <==> (
            in_named_calendar(events[k], names) && (completed || !events[k].struck))),
        forall|i: int| 0 <= i < l.sources@.len() ==> (#[trigger] l.sources@[i]) is Calendar,
{
    let candidates = kept_events(events, names, false, !completed);
    let keys = day_keys(candidates, events, today);
    lemma_kept_events_in(events, names, false, !completed);
    assert forall|k: int| 0 <= k < events.len() implies (#[trigger] l.sources@.contains(Source::Calendar(k as usize)) <==> (
        in_named_calendar(events[k], names) && (completed || !events[k].struck))) by {
        lemma_sorted_same_items(candidates, keys, l.sources@, Source::Calendar(k as usize));
        if candidates.contains(Source::Calendar(k as usize)) {
            let j = choose|j: int| 0 <= j < candidates.len() && candidates[j] == Source::Calendar(k as usize);
            assert(candidates[j] matches Source::Calendar(x) && x < events.len() && event_passes(events[x as int], names, false, !completed));
        }
        if event_passes(events[k], names, false, !completed) {
            lemma_kept_events_has(events, names, false, !completed, k);
        }
    }
    assert forall|i: int| 0 <= i < l.sources@.len() implies (#[trigger] l.sources@[i]) is Calendar by {
        lemma_sorted_same_items(candidates, keys, l.sources@, l.sources@[i]);
        assert(l.sources@.contains(l.sources@[i]));
        let j = choose|j: int| 0 <= j < candidates.len() && candidates[j] == l.sources@[i];
        assert(candidates[j] matches Source::Calendar(x));
    }
}

/// `plan_calendar` on the current day.
pub fn plan_calendar_now(
    events: &Vec<CalendarEvent>,
    names: Option<&str>,
    completed: bool,
    lines: Option<usize>,
) -> (r: Result<Listing, usize>)
    ensures
        r is Ok <==> kept_ready(events@, name_filter(names), false, !completed),
        r matches Ok(l) ==> exists|day: Date| is_calendar_listing(l, events@, day, name_filter(names), completed, lines),
{
    let day = today();
    let r = plan_calendar(events, day, names, completed, lines);
    if let Ok(l) = &r {
        assert(is_calendar_listing(*l, events@, day, name_filter(names), completed, lines));
    }
    r
}

} // verus!
