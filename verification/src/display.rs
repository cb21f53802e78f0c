//! What a listing line shows: the id tag, the status column, its tone, the
//! title and a trailing note. Colours and printing are left to the caller.

use vstd::prelude::*;
use crate::numerals::{dec_chars, dec_text, id_tag, id_text, int_chars, int_text, pad_left, pad_left_chars, tag_text};
use vstd::string::StringExecFns;
use crate::text::string_from_chars;

verus! {

/// Which parts of a line are shown.
#[derive(Clone, Copy, Debug, PartialEq, Eq, Structural)]
pub struct DisplayOpts {
    pub show_hash: bool,
    pub show_flags: bool,
}

impl DisplayOpts {
    pub fn new(show_hash: bool, show_flags: bool) -> (r: Self)
        ensures
            r == (DisplayOpts { show_hash, show_flags }),
    {
        Self { show_hash, show_flags }
    }

    /// Both the id tag and the flags shown.
    pub fn default() -> (r: Self)
        ensures
            r == (DisplayOpts { show_hash: true, show_flags: true }),
    {
        Self { show_hash: true, show_flags: true }
    }
}

/// How urgent the status column looks.
#[derive(Clone, Copy, Debug, PartialEq, Eq, Structural)]
pub enum Tone {
    /// Overdue: the day has passed (red by default).
    Urgent,
    /// Due within five days, today included (yellow by default).
    Soon,
    /// Due later (green).
    Later,
    /// Struck off (blue).
    Done,
}

/// Whether a line shows a task or a calendar event.
#[derive(Clone, Copy, Debug, PartialEq, Eq, Structural)]
pub enum RowKind {
    Task,
    Calendar,
}

/// One line of a listing, before colouring.
pub struct Row {
    pub kind: RowKind,
    /// `[XXXXXX] `, or empty when ids are hidden.
    pub tag: String,
    /// The status column, five characters wide at least.
    pub status: String,
    pub tone: Tone,
    pub title: String,
    /// Whether the title is struck through.
    pub struck: bool,
    /// What follows the title: the autostrike flag or the calendar name, or nothing.
    pub note: String,
}

/// The status column for a day count: `{:>3}d`, or `✓{:>3}d` once struck,
/// right-aligned in five places.
pub open spec fn status_text(delta: int, done: bool) -> Seq<char> {
    let count = pad_left(int_text(delta), 3, ' ');
    let raw = if done { seq!['✓'] + count + seq!['d'] } else { count + seq!['d'] };
    pad_left(raw, 5, ' ')
}

pub open spec fn tone_for(delta: int, done: bool) -> Tone {
    if done {
        Tone::Done
    } else if delta < 0 {
        Tone::Urgent
    } else if delta < 5 {
        Tone::Soon
    } else {
        Tone::Later
    }
}

/// The id tag when ids are shown, else nothing.
pub open spec fn shown_tag(id: u32, opts: DisplayOpts) -> Seq<char> {
    if opts.show_hash { tag_text(id) } else { Seq::empty() }
}

pub fn status_column(delta: i64, done: bool) -> (r: String)
    ensures
        r@ == status_text(delta as int, done),
{
    let count = pad_left_chars(int_chars(delta), 3, ' ');
    let mut raw: Vec<char> = Vec::new();
    if done {
        raw.push('✓');
    }
    let mut c = count;
    let ghost count_seq = c@;
    raw.append(&mut c);
    raw.push('d');
    if done {
        assert(raw@ =~= seq!['✓'] + count_seq + seq!['d']);
    } else {
        assert(raw@ =~= count_seq + seq!['d']);
    }
    string_from_chars(&pad_left_chars(raw, 5, ' '))
}

pub fn tone(delta: i64, done: bool) -> (r: Tone)
    ensures
        r == tone_for(delta as int, done),
{
    if done {
        Tone::Done
    } else if delta < 0 {
        Tone::Urgent
    } else if delta < 5 {
        Tone::Soon
    } else {
        Tone::Later
    }
}

/// The id tag of a line: `[XXXXXX] ` when ids are shown, and nothing when
/// they are hidden, whether or not the flags are shown.
pub fn tag_for(id: u32, opts: DisplayOpts) -> (r: String)
    ensures
        r@ == shown_tag(id, opts),
        !opts.show_hash ==> r@.len() == 0,
        opts.show_hash ==> r@ == seq!['['] + id_text(id) + seq![']', ' '],
{
    if opts.show_hash {
        id_tag(id)
    } else {
        String::new()
    }
}

/// The closing line of a cut listing: `+N more item` (or whatever noun),
/// with an `s` when more than one is left.
pub open spec fn more_text(remaining: nat, noun: Seq<char>) -> Seq<char> {
    seq!['+'] + dec_text(remaining) + " more "@ + noun + (if remaining > 1 { "s"@ } else { Seq::empty() })
}

pub fn more_note(remaining: usize, noun: &str) -> (r: String)
    ensures
        r@ == more_text(remaining as nat, noun@),
{
    let mut chars: Vec<char> = Vec::new();
    chars.push('+');
    let mut digits = dec_chars(remaining as u64);
    chars.append(&mut digits);
    let mut r = string_from_chars(&chars);
    r.append(" more ");
    r.append(noun);
    if remaining > 1 {
        r.append("s");
    }
    assert(r@ =~= more_text(remaining as nat, noun@));
    r
}

} // verus!
