//! Calendar events read from the system calendar: their ids, their dates,
//! whether they are struck off, and how they are listed.

use vstd::prelude::*;
use std::hash::{DefaultHasher, Hash, Hasher};
use vstd::utf8::{decode_utf8, encode_utf8, is_char_boundary};
use crate::date::{Date, parse_ymd, today, ymd_day_number};
use crate::display::{DisplayOpts, Row, RowKind, Tone, shown_tag, status_column, status_text, tag_for, tone, tone_for};
use crate::numerals::short_id_of;
use crate::text::{chars_of, lowercase, string_from_chars, to_lowercase};
use crate::lookup::{Lookup, find_by_id, labels_apart, lookup_from, lookup_of, matching_positions};
use crate::numerals::id_text;
use crate::text::upper_ascii_text;
use vstd::utf8::is_ascii_chars;
use vstd::string::{StringExecFns, StringSliceAdditionalSpecFns};

verus! {

/// An event of the system calendar.
pub struct CalendarEvent {
    pub title: String,
    /// Start, as an ISO 8601 text that begins `YYYY-MM-DD`.
    pub start: String,
    /// End, in the same form.
    pub end: String,
    pub all_day: bool,
    /// Name of the calendar the event belongs to.
    pub calendar: String,
    /// The id, once computed from the title and the start.
    pub hash: u32,
    /// Whether the event is struck off.
    pub struck: bool,
}

/// The 64-bit `DefaultHasher` digest of an event's title and start.
pub uninterp spec fn event_digest(title: Seq<char>, start: Seq<char>) -> u64;

/// Feeds the title and then the start through
/// `std::hash::DefaultHasher::new()` and returns `Hasher::finish`. The digest
/// is only named; `DefaultHasher::new()` is unseeded and fixed for a given
/// standard library.
#[verifier::external_body]
fn digest_event(title: &str, start: &str) -> (r: u64)
    ensures
        r == event_digest(title@, start@),
{
    let mut hasher = DefaultHasher::new();
    title.hash(&mut hasher);
    start.hash(&mut hasher);
    hasher.finish()
}

/// Whether the first ten bytes of a text's UTF-8 form end on a character
/// boundary (so that the text can be cut there).
pub open spec fn has_date_prefix(s: Seq<char>) -> bool {
    is_char_boundary(encode_utf8(s), 10)
}

/// The characters held in the first ten bytes of a text.
pub open spec fn date_prefix(s: Seq<char>) -> Seq<char> {
    decode_utf8(encode_utf8(s).subrange(0, 10))
}

/// The date that the first ten bytes of a text give as `YYYY-MM-DD`.
pub open spec fn prefix_day(s: Seq<char>) -> Option<int> {
    ymd_day_number(date_prefix(s))
}

/// Reads the `YYYY-MM-DD` date at the head of a text.
fn leading_date(text: &str) -> (r: Option<Date>)
    requires
        has_date_prefix(text@),
    ensures
        match r {
            Some(d) => prefix_day(text@) == Some(d@),
            None => prefix_day(text@) is None,
        },
{
    let (head, _rest) = text.split_at(10);
    proof {
        vstd::utf8::encode_utf8_decode_utf8(head@);
        assert(head.spec_bytes() == encode_utf8(head@));
    }
    parse_ymd(head)
}

impl CalendarEvent {
    /// The id computed from the title and the start.
    pub open spec fn computed_id(self) -> u32 {
        crate::numerals::short_id(event_digest(self.title@, self.start@))
    }

    /// The event's id: the stored `hash` field.
    pub open spec fn id(self) -> u32 {
        self.hash
    }

    /// Stores the id computed from the title and the start.
    pub fn compute_hash(&mut self)
        ensures
            *final(self) == (CalendarEvent { hash: old(self).computed_id(), ..*old(self) }),
    {
        let digest = digest_event(self.title.as_str(), self.start.as_str());
        self.hash = short_id_of(digest);
    }

    /// The stored id.
    pub fn get_id(&self) -> (r: u32)
        ensures
            r == self.id(),
    {
        self.hash
    }

    /// The date the start begins with, if it is a `YYYY-MM-DD` date.
    pub fn start_date(&self) -> (r: Option<Date>)
        requires
            has_date_prefix(self.start@),
        ensures
            match r {
                Some(d) => prefix_day(self.start@) == Some(d@),
                None => prefix_day(self.start@) is None,
            },
    {
        leading_date(self.start.as_str())
    }

    /// The date the end begins with, if it is a `YYYY-MM-DD` date.
    pub fn end_date(&self) -> (r: Option<Date>)
        requires
            has_date_prefix(self.end@),
        ensures
            match r {
                Some(d) => prefix_day(self.end@) == Some(d@),
                None => prefix_day(self.end@) is None,
            },
    {
        leading_date(self.end.as_str())
    }

    /// The day the event is listed under: its start date, or `today` when
    /// the start does not begin with a date.
    pub open spec fn listed_day(self, today: Date) -> int {
        match prefix_day(self.start@) {
            Some(n) => n,
            None => today@,
        }
    }

    /// `listed_day` as a date.
    pub fn listed_date(&self, today: Date) -> (r: Date)
        requires
            has_date_prefix(self.start@),
        ensures
            r@ == self.listed_day(today),
    {
        match self.start_date() {
            Some(d) => d,
            None => today,
        }
    }

    /// `r` is the listing line of the event on `today`: the id tag, the
    /// status column (days until the listed day) and its tone, the title
    /// marked ` (calendar)` and the calendar name in brackets.
    pub open spec fn row_on(self, r: Row, today: Date, opts: DisplayOpts) -> bool {
        &&& r.kind == RowKind::Calendar
        &&& r.tag@ == shown_tag(self.id(), opts)
        &&& r.status@ == status_text(self.listed_day(today) - today@, self.struck)
        &&& r.tone == tone_for(self.listed_day(today) - today@, self.struck)
        &&& r.title@ == self.title@ + " (calendar)"@
        &&& r.struck == self.struck
        &&& r.note@ == (if opts.show_flags { " ["@ + self.calendar@ + "]"@ } else { Seq::empty() })
    }

    /// The listing line of the event on `today`.
    pub fn render(&self, today: Date, opts: DisplayOpts) -> (r: Row)
        requires
            has_date_prefix(self.start@),
        ensures
            self.row_on(r, today, opts),
    {
        let start = self.listed_date(today);
        let delta = start.days_since(today);
        let mut title = self.title.clone();
        title.append(" (calendar)");
        let mut note = String::new();
        if opts.show_flags {
            note.append(" [");
            note.append(self.calendar.as_str());
            note.append("]");
        }
        Row {
            kind: RowKind::Calendar,
            tag: tag_for(self.get_id(), opts),
            status: status_column(delta, self.struck),
            tone: tone(delta, self.struck),
            title,
            struck: self.struck,
            note,
        }
    }

    /// The id tag of a listing line: with ids hidden (`--no-hash`) it is
    /// empty, whatever is asked of the flags; with ids shown it is the id in
    /// six upper-case hexadecimal digits between brackets, then a space.
    pub proof fn law_row_tag(self, r: Row, today: Date, opts: DisplayOpts)
        requires
            self.row_on(r, today, opts),
        ensures
            !opts.show_hash ==> r.tag@ == Seq::<char>::empty(),
            opts.show_hash ==> r.tag@ == seq!['['] + id_text(self.id()) + seq![']', ' '],
    {
    }

    /// How an event's line looks: struck through and in the struck-off tone
    /// exactly when the event is struck off; otherwise urgent once the day
    /// it is listed under has passed, soon within the five days from today
    /// on, and later beyond. Its calendar's name follows in brackets only
    /// when flags are shown.
    pub proof fn law_row_look(self, r: Row, today: Date, opts: DisplayOpts)
        requires
            self.row_on(r, today, opts),
        ensures
            r.struck == self.struck,
            (r.tone == Tone::Done) <==> self.struck,
            !self.struck ==> ((r.tone == Tone::Urgent) <==> self.listed_day(today) < today@),
            !self.struck ==> ((r.tone == Tone::Soon) <==> (today@ <= self.listed_day(today) && self.listed_day(today) < today@ + 5)),
            !self.struck ==> ((r.tone == Tone::Later) <==> today@ + 5 <= self.listed_day(today)),
            !opts.show_flags ==> r.note@ == Seq::<char>::empty(),
            opts.show_flags ==> r.note@ == " ["@ + self.calendar@ + "]"@,
    {
    }

    /// The listing line of the event on the current day.
    pub fn display(&self, opts: DisplayOpts) -> (r: Row)
        requires
            has_date_prefix(self.start@),
        ensures
            exists|day: Date| self.row_on(r, day, opts),
    {
        let day = today();
        let r = self.render(day, opts);
        assert(self.row_on(r, day, opts));
        r
    }
}

/// The event after loading: its id computed and stored, and struck off
/// exactly when that id is among the saved ones.
pub open spec fn loaded_event(e: CalendarEvent, saved: Seq<u32>) -> CalendarEvent {
    CalendarEvent { hash: e.computed_id(), struck: saved.contains(e.computed_id()), ..e }
}

/// Computes the id of every event and marks struck the events whose id is
/// among the saved ones.
pub fn prepare_events(events: &mut Vec<CalendarEvent>, saved: &Vec<u32>)
    ensures
        final(events)@.len() == old(events)@.len(),
        forall|i: int| 0 <= i < old(events)@.len() ==> #[trigger] final(events)@[i] == loaded_event(old(events)@[i], saved@),
{
    let n = events.len();
    let mut i: usize = 0;
    while i < n
        invariant
            i <= n,
            n == events.len(),
            n == old(events)@.len(),
            forall|k: int| 0 <= k < i ==> #[trigger] events@[k] == loaded_event(old(events)@[k], saved@),
            forall|k: int| i <= k < n ==> #[trigger] events@[k] == old(events)@[k],
        decreases n - i,
    {
        let mut e = events.remove(i);
        e.compute_hash();
        e.struck = contains_id(saved, e.hash);
        events.insert(i, e);
        i = i + 1;
    }
}

fn contains_id(ids: &Vec<u32>, id: u32) -> (r: bool)
    ensures
        r == ids@.contains(id),
{
    let mut i: usize = 0;
    while i < ids.len()
        invariant
            i <= ids.len(),
            forall|k: int| 0 <= k < i ==> ids@[k] != id,
        decreases ids.len() - i,
    {
        if ids[i] == id {
            assert(ids@[i as int] == id);
            return true;
        }
        i = i + 1;
    }
    false
}

/// The ids of the struck events, in order.
pub open spec fn struck_ids(events: Seq<CalendarEvent>) -> Seq<u32>
    decreases events.len(),
{
    if events.len() == 0 {
        Seq::empty()
    } else {
        let rest = struck_ids(events.drop_last());
        if events.last().struck { rest.push(events.last().hash) } else { rest }
    }
}

proof fn lemma_struck_ids(events: Seq<CalendarEvent>, h: u32)
    ensures
        struck_ids(events).contains(h) <==> exists|i: int|
            0 <= i < events.len() && (#[trigger] events[i]).struck && events[i].hash == h,
    decreases events.len(),
{
    if events.len() > 0 {
        let init = events.drop_last();
        lemma_struck_ids(init, h);
        let rest = struck_ids(init);
        if struck_ids(events).contains(h) {
            let w = choose|w: int| 0 <= w < struck_ids(events).len() && struck_ids(events)[w] == h;
            if w < rest.len() {
                assert(rest.contains(h));
                let i = choose|i: int| 0 <= i < init.len() && (#[trigger] init[i]).struck && init[i].hash == h;
                assert(events[i] == init[i]);
            } else {
                assert(events[events.len() - 1].struck);
            }
        }
        if exists|i: int| 0 <= i < events.len() && (#[trigger] events[i]).struck && events[i].hash == h {
            let i = choose|i: int| 0 <= i < events.len() && (#[trigger] events[i]).struck && events[i].hash == h;
            if i < events.len() - 1 {
                assert(init[i] == events[i]);
                assert(rest.contains(h));
                let w = choose|w: int| 0 <= w < rest.len() && rest[w] == h;
                assert(struck_ids(events)[w] == h);
            } else {
                assert(struck_ids(events)[rest.len() as int] == h);
            }
        }
    }
}

/// Saving the ids of the struck events and loading the same events again
/// (their ids computed afresh) gives back exactly which events are struck,
/// as long as no two events share an id.
pub proof fn law_struck_events_round_trip(events: Seq<CalendarEvent>)
    requires
        forall|i: int| 0 <= i < events.len() ==> (#[trigger] events[i]).hash == events[i].computed_id(),
        forall|i: int, j: int| 0 <= i < j < events.len() ==> (#[trigger] events[i]).hash != (#[trigger] events[j]).hash,
    ensures
        forall|i: int| 0 <= i < events.len() ==> loaded_event(#[trigger] events[i], struck_ids(events)) == events[i],
{
    assert forall|i: int| 0 <= i < events.len() implies loaded_event(#[trigger] events[i], struck_ids(events)) == events[i] by {
        lemma_struck_ids(events, events[i].hash);
        if struck_ids(events).contains(events[i].hash) {
            let k = choose|k: int| 0 <= k < events.len() && (#[trigger] events[k]).struck && events[k].hash == events[i].hash;
            if k < i {
                assert(events[k].hash != events[i].hash);
            } else if k > i {
                assert(events[i].hash != events[k].hash);
            }
        }
    }
}

/// The ids of the struck events, as they are saved.
pub fn struck_hashes(events: &Vec<CalendarEvent>) -> (r: Vec<u32>)
    ensures
        r@ == struck_ids(events@),
{
    let mut r: Vec<u32> = Vec::new();
    let mut i: usize = 0;
    while i < events.len()
        invariant
            i <= events.len(),
            r@ == struck_ids(events@.take(i as int)),
        decreases events.len() - i,
    {
        assert(events@.take(i as int + 1).drop_last() =~= events@.take(i as int));
        if events[i].struck {
            r.push(events[i].hash);
        }
        i = i + 1;
    }
    assert(events@.take(i as int) =~= events@);
    r
}

/// The comma-separated pieces of a text, in order (an empty text is one
/// empty piece).
pub open spec fn split_commas(s: Seq<char>) -> Seq<Seq<char>>
    decreases s.len(),
{
    if s.len() == 0 {
        seq![Seq::empty()]
    } else {
        let pieces = split_commas(s.drop_last());
        if s.last() == ',' {
            pieces.push(Seq::empty())
        } else {
            pieces.update(pieces.len() - 1, pieces.last().push(s.last()))
        }
    }
}

proof fn lemma_split_nonempty(s: Seq<char>)
    ensures
        split_commas(s).len() >= 1,
    decreases s.len(),
{
    if s.len() > 0 {
        lemma_split_nonempty(s.drop_last());
    }
}

/// The pieces joined back together with a comma between each two.
pub open spec fn join_commas(pieces: Seq<Seq<char>>) -> Seq<char>
    decreases pieces.len(),
{
    if pieces.len() == 0 {
        Seq::empty()
    } else if pieces.len() == 1 {
        pieces[0]
    } else {
        join_commas(pieces.drop_last()) + seq![','] + pieces.last()
    }
}

/// The pieces of a filter are exactly the text between its commas: no
/// piece holds a comma, and joining the pieces with commas gives the
/// filter back.
pub proof fn law_split_commas_pieces(s: Seq<char>)
    ensures
        forall|k: int| 0 <= k < split_commas(s).len() ==> !(#[trigger] split_commas(s)[k]).contains(','),
        join_commas(split_commas(s)) == s,
    decreases s.len(),
{
    if s.len() == 0 {
        assert(split_commas(s)[0] =~= Seq::<char>::empty());
    } else {
        let prev = s.drop_last();
        law_split_commas_pieces(prev);
        lemma_split_nonempty(prev);
        let p = split_commas(prev);
        let q = split_commas(s);
        let n = p.len();
        if s.last() == ',' {
            assert(q == p.push(Seq::<char>::empty()));
            assert forall|k: int| 0 <= k < q.len() implies !(#[trigger] q[k]).contains(',') by {
                if k < n {
                    assert(q[k] == p[k]);
                } else {
                    assert(q[k] =~= Seq::<char>::empty());
                }
            }
            assert(q.drop_last() =~= p);
            assert(join_commas(q) =~= s);
        } else {
            let c = s.last();
            assert(q == p.update(n - 1, p.last().push(c)));
            assert forall|k: int| 0 <= k < q.len() implies !(#[trigger] q[k]).contains(',') by {
                if k < n - 1 {
                    assert(q[k] == p[k]);
                } else {
                    assert(q[k] == p[n - 1].push(c));
                    assert(!p[n - 1].contains(','));
                    if q[k].contains(',') {
                        let j = choose|j: int| 0 <= j < q[k].len() && q[k][j] == ',';
                        if j < p[n - 1].len() {
                            assert(p[n - 1][j] == ',');
                        }
                    }
                }
            }
            if n == 1 {
                assert(join_commas(q) == q[0]);
                assert(join_commas(p) == p[0]);
                assert(q[0] =~= s);
            } else {
                assert(q.drop_last() =~= p.drop_last());
                assert(join_commas(q) == join_commas(p.drop_last()) + seq![','] + p.last().push(c));
                assert(join_commas(p) == join_commas(p.drop_last()) + seq![','] + p.last());
                assert(join_commas(q) =~= prev.push(c));
                assert(prev.push(c) =~= s);
            }
        }
    }
}

/// A filter without a comma is one piece: the filter itself.
pub proof fn law_split_without_comma(s: Seq<char>)
    requires
        !s.contains(','),
    ensures
        split_commas(s) == seq![s],
    decreases s.len(),
{
    if s.len() > 0 {
        let prev = s.drop_last();
        assert(!prev.contains(',')) by {
            if prev.contains(',') {
                let j = choose|j: int| 0 <= j < prev.len() && prev[j] == ',';
                assert(s[j] == ',');
            }
        }
        law_split_without_comma(prev);
        assert(s.last() != ',') by {
            assert(s[s.len() - 1] == s.last());
        }
        assert(prev.push(s.last()) =~= s);
        assert(split_commas(s) == seq![prev].update(0, prev.push(s.last())));
        assert(split_commas(s) =~= seq![s]);
    } else {
        assert(s =~= Seq::<char>::empty());
        assert(split_commas(s) =~= seq![s]);
    }
}

/// A filter without a comma selects exactly the calendars whose name
/// equals it, ignoring case, spaces and all.
pub proof fn law_single_name_filter(calendar: Seq<char>, filter: Seq<char>)
    requires
        !filter.contains(','),
    ensures
        calendar_named(calendar, filter) == (lowercase(filter) == lowercase(calendar)),
{
    law_split_without_comma(filter);
    assert(split_commas(filter)[0] == filter);
    if lowercase(filter) == lowercase(calendar) {
        assert(lowercase(split_commas(filter)[0]) == lowercase(calendar));
    }
}

/// Whether a calendar name is one of the comma-separated names of a filter,
/// compared after `to_lowercase`.
pub open spec fn calendar_named(calendar: Seq<char>, filter: Seq<char>) -> bool {
    exists|k: int| 0 <= k < split_commas(filter).len()
        && lowercase(#[trigger] split_commas(filter)[k]) == lowercase(calendar)
}

fn split_on_commas(filter: &str) -> (r: Vec<Vec<char>>)
    ensures
        r@.len() == split_commas(filter@).len(),
        forall|k: int| 0 <= k < r@.len() ==> (#[trigger] r@[k])@ == split_commas(filter@)[k],
{
    let chars = chars_of(filter);
    let mut done: Vec<Vec<char>> = Vec::new();
    let mut current: Vec<char> = Vec::new();
    let mut i: usize = 0;
    while i < chars.len()
        invariant
            i <= chars.len(),
            chars@ == filter@,
            done@.len() + 1 == split_commas(chars@.take(i as int)).len(),
            forall|k: int| 0 <= k < done@.len() ==> (#[trigger] done@[k])@ == split_commas(chars@.take(i as int))[k],
            current@ == split_commas(chars@.take(i as int)).last(),
        decreases chars.len() - i,
    {
        proof {
            lemma_split_nonempty(chars@.take(i as int));
        }
        assert(chars@.take(i as int + 1).drop_last() =~= chars@.take(i as int));
        let c = chars[i];
        if c == ',' {
            let finished = current;
            done.push(finished);
            current = Vec::new();
        } else {
            current.push(c);
        }
        i = i + 1;
    }
    assert(chars@.take(i as int) =~= filter@);
    done.push(current);
    done
}

/// Whether an event's calendar is among the comma-separated names of a
/// filter, ignoring case.
pub fn calendar_selected(calendar: &str, filter: &str) -> (r: bool)
    ensures
        r == calendar_named(calendar@, filter@),
        !filter@.contains(',') ==> r == (lowercase(filter@) == lowercase(calendar@)),
{
    let pieces = split_on_commas(filter);
    let wanted = to_lowercase(calendar);
    let mut k: usize = 0;
    while k < pieces.len()
        invariant
            k <= pieces.len(),
            pieces@.len() == split_commas(filter@).len(),
            forall|j: int| 0 <= j < pieces@.len() ==> (#[trigger] pieces@[j])@ == split_commas(filter@)[j],
            wanted@ == lowercase(calendar@),
            forall|j: int| 0 <= j < k ==> lowercase(#[trigger] split_commas(filter@)[j]) != lowercase(calendar@),
        decreases pieces.len() - k,
    {
        let piece = string_from_chars(&pieces[k]);
        let lowered = to_lowercase(piece.as_str());
        if lowered == wanted {
            assert(lowercase(split_commas(filter@)[k as int]) == lowercase(calendar@));
            proof {
                if !filter@.contains(',') {
                    law_single_name_filter(calendar@, filter@);
                }
            }
            return true;
        }
        k = k + 1;
    }
    proof {
        if !filter@.contains(',') {
            law_single_name_filter(calendar@, filter@);
        }
    }
    false
}

/// The ids that `serde_json::from_str::<Vec<u32>>` reads from a text;
/// `None` where it reports an error.
pub uninterp spec fn saved_ids(text: Seq<char>) -> Option<Seq<u32>>;

/// Reads a JSON array of ids with `serde_json::from_str::<Vec<u32>>`; the
/// accepted JSON is `serde_json`'s and is only named.
#[verifier::external_body]
fn parse_saved_ids(text: &str) -> (r: Option<Vec<u32>>)
    ensures
        match r {
            Some(v) => saved_ids(text@) == Some(v@),
            None => saved_ids(text@) is None,
        },
{
    match serde_json::from_str::<Vec<u32>>(text) {
        Ok(v) => Some(v),
        Err(_) => None,
    }
}

/// The struck ids saved in a text: what it holds as a JSON array of ids,
/// and none when it holds no such array (an empty or damaged file).
pub fn struck_ids_from_text(text: &str) -> (r: Vec<u32>)
    ensures
        r@ == match saved_ids(text@) {
            Some(v) => v,
            None => Seq::empty(),
        },
{
    match parse_saved_ids(text) {
        Some(v) => v,
        None => Vec::new(),
    }
}

/// The text `serde_json::to_string_pretty` writes for a list of ids.
pub uninterp spec fn ids_json(ids: Seq<u32>) -> Seq<char>;

/// Writes the ids as a pretty-printed JSON array with
/// `serde_json::to_string_pretty`. Serialising a `Vec<u32>` cannot fail
/// (no map keys, no failing `Serialize`), and `serde_json::from_str` reads
/// the array it writes back as the same ids.
#[verifier::external_body]
fn ids_to_json(ids: &Vec<u32>) -> (r: String)
    ensures
        r@ == ids_json(ids@),
        saved_ids(r@) == Some(ids@),
{
    match serde_json::to_string_pretty(ids) {
        Ok(s) => s,
        Err(_) => String::new(),
    }
}

/// The text saved for the struck events: the JSON array of their ids.
pub fn struck_events_text(events: &Vec<CalendarEvent>) -> (r: String)
    ensures
        r@ == ids_json(struck_ids(events@)),
        saved_ids(r@) == Some(struck_ids(events@)),
{
    let ids = struck_hashes(events);
    ids_to_json(&ids)
}

/// Saving the struck events as text and loading the same events from that
/// text gives back exactly which events are struck, as long as no two
/// events share an id.
pub proof fn law_struck_file_round_trip(events: Seq<CalendarEvent>, text: Seq<char>)
    requires
        saved_ids(text) == Some(struck_ids(events)),
        forall|i: int| 0 <= i < events.len() ==> (#[trigger] events[i]).hash == events[i].computed_id(),
        forall|i: int, j: int| 0 <= i < j < events.len() ==> (#[trigger] events[i]).hash != (#[trigger] events[j]).hash,
    ensures
        forall|i: int| 0 <= i < events.len() ==> loaded_event(#[trigger] events[i], saved_ids(text)->0) == events[i],
{
    law_struck_events_round_trip(events);
}

/// The ids of a list of events.
pub open spec fn event_ids(events: Seq<CalendarEvent>) -> Seq<u32> {
    events.map_values(|e: CalendarEvent| e.hash)
}

/// Looks an event up by (a prefix of) its id.
pub fn find_calendar_event(hash: &str, events: &Vec<CalendarEvent>) -> (r: Lookup)
    ensures
        r == lookup_of(event_ids(events@), hash@),
        is_ascii_chars(hash@) ==> r == lookup_from(matching_positions(event_ids(events@), upper_ascii_text(hash@))),
        forall|k: int| 0 <= k < events@.len() && labels_apart(event_ids(events@)) && is_ascii_chars(hash@)
            && upper_ascii_text(hash@) == id_text((#[trigger] events@[k]).hash) ==> r == Lookup::Found(k as usize),
{
    let mut ids: Vec<u32> = Vec::new();
    let mut i: usize = 0;
    while i < events.len()
        invariant
            i <= events.len(),
            ids@ == event_ids(events@.take(i as int)),
        decreases events.len() - i,
    {
        ids.push(events[i].get_id());
        i = i + 1;
        assert(ids@ =~= event_ids(events@.take(i as int)));
    }
    assert(events@.take(i as int) =~= events@);
    let r = find_by_id(hash, &ids);
    assert forall|k: int| 0 <= k < events@.len() && labels_apart(event_ids(events@)) && is_ascii_chars(hash@)
        && upper_ascii_text(hash@) == id_text((#[trigger] events@[k]).hash) implies r == Lookup::Found(k as usize) by {
        assert(ids@[k] == events@[k].hash);
    }
    r
}

} // verus!
