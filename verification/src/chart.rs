//! Chart event lists: a chart is plain text with one event per line,
//! `"<integer time in ms> <label>"`. A label that contains the note
//! delimiter `:` marks a note (hit) event; any other label marks a
//! generic event. Parsing is all-or-nothing: the first ill-formed line
//! fails the whole chart and is reported in the error.
//!
//! Event times are assumed non-decreasing within each queue in file
//! order; the parser deliberately does not enforce this. The scheduler
//! drains each queue from the front, so an out-of-order event merely
//! delays the events behind it until its own time arrives.

use std::collections::VecDeque;
use vstd::prelude::*;
use vstd::string::{StrSliceExecFns, StringExecFns};
use crate::text::{
    all_digits, contains_char, digits_val, find_char, idx_of, is_space, lemma_idx_of,
    lemma_trim_start_idx, parse_usize, trim_bounds, trimmed,
};

verus! {

/// The character that marks a label as a note (hit) event.
pub const NOTE_DELIMITER: char = ':';

/// Error for a chart line that does not parse as `"<integer> <label>"`;
/// holds the offending line as it appeared in the input.
#[derive(Debug)]
pub struct NoteDeserializeError(pub String);

impl NoteDeserializeError {
    /// The rendering the hosting application shows: names the line that
    /// failed to parse.
    pub fn message(&self) -> (r: String)
        ensures
            r@ == "error deserializing note from line: "@ + self.0@,
    {
        let mut m = String::from_str("error deserializing note from line: ");
        m.append(self.0.as_str());
        m
    }
}

/// One chart event: `(time in ms, label)`.
#[derive(Debug)]
pub struct MuseEvent(pub usize, pub String);

impl View for MuseEvent {
    type V = (nat, Seq<char>);

    open spec fn view(&self) -> (nat, Seq<char>) {
        (self.0 as nat, self.1@)
    }
}

/// What one chart line denotes: `Some((time, label))` when the trimmed
/// line consists of exactly a digit token and a label token separated by
/// a single space, and the time fits a `usize`; `None` otherwise.
pub open spec fn line_spec(line: Seq<char>) -> Option<(nat, Seq<char>)> {
    let t = trimmed(line);
    let k = idx_of(t, ' ');
    if k < t.len() {
        let time_tok = t.take(k);
        let label = t.skip(k + 1);
        if time_tok.len() > 0 && all_digits(time_tok) && digits_val(time_tok) <= usize::MAX
            && !label.contains(' ') {
            Some((digits_val(time_tok), label))
        } else {
            None
        }
    } else {
        None
    }
}

impl MuseEvent {
    /// Parses one chart line. Returns the event exactly when the line
    /// matches the grammar above; otherwise the error holds the line.
    pub fn from_str(s: &str) -> (r: Result<MuseEvent, NoteDeserializeError>)
        ensures
            match r {
                Ok(ev) => line_spec(s@) == Some((ev.0 as nat, ev.1@)),
                Err(e) => line_spec(s@) is None && e.0@ == s@,
            },
    {
        let (a, b) = trim_bounds(s);
        if a >= b {
            proof {
                assert(trimmed(s@).len() == 0);
            }
            return Err(NoteDeserializeError(s.to_owned()));
        }
        let t = s.substring_char(a, b);
        proof {
            assert(t@ == trimmed(s@));
        }
        let n = t.unicode_len();
        let k = find_char(t, ' ');
        if k == n {
            return Err(NoteDeserializeError(s.to_owned()));
        }
        let time_str = t.substring_char(0, k);
        let label_str = t.substring_char(k + 1, n);
        proof {
            assert(time_str@ =~= trimmed(s@).take(k as int));
            assert(label_str@ =~= trimmed(s@).skip(k + 1));
            lemma_trim_start_idx(s@);
            assert(t@[0] == s@[a as int]);
            assert(!is_space(t@[0]));
            lemma_idx_of(t@, ' ');
            assert(k >= 1);
        }
        if contains_char(label_str, ' ') {
            return Err(NoteDeserializeError(s.to_owned()));
        }
        let time = match parse_usize(time_str) {
            Some(v) => v,
            None => {
                return Err(NoteDeserializeError(s.to_owned()));
            },
        };
        Ok(MuseEvent(time, label_str.to_owned()))
    }
}

/// The lines of `s`: maximal `'\n'`-free pieces, in order. Text without
/// a newline is a single line, so the empty text has one empty line.
pub open spec fn split_lines(s: Seq<char>) -> Seq<Seq<char>>
    decreases s.len(),
{
    let k = idx_of(s, '\n');
    if 0 <= k < s.len() {
        seq![s.take(k)] + split_lines(s.skip(k + 1))
    } else {
        seq![s]
    }
}

/// The lines of a chart: the trimmed text split at newlines.
pub open spec fn chart_lines(text: Seq<char>) -> Seq<Seq<char>> {
    split_lines(trimmed(text))
}

/// Whether every line of an already split chart parses.
pub open spec fn chart_ok(lines: Seq<Seq<char>>) -> bool {
    forall|i: int| 0 <= i < lines.len() ==> line_spec(lines[i]) is Some
}

/// The events denoted by a sequence of well-formed lines, in file order.
pub open spec fn events_of(lines: Seq<Seq<char>>) -> Seq<(nat, Seq<char>)> {
    lines.map_values(|l: Seq<char>| line_spec(l)->0)
}

/// Whether an event is a note (hit) event: its label holds the delimiter.
pub open spec fn is_note(ev: (nat, Seq<char>)) -> bool {
    ev.1.contains(NOTE_DELIMITER)
}

/// The note events among `events`, in file order.
pub open spec fn note_events_of(events: Seq<(nat, Seq<char>)>) -> Seq<(nat, Seq<char>)> {
    events.filter(|e: (nat, Seq<char>)| is_note(e))
}

/// The generic events among `events`, in file order.
pub open spec fn other_events_of(events: Seq<(nat, Seq<char>)>) -> Seq<(nat, Seq<char>)> {
    events.filter(|e: (nat, Seq<char>)| !is_note(e))
}

/// Index of the first line that fails to parse (the line count when all
/// lines parse).
pub open spec fn first_bad_line(lines: Seq<Seq<char>>) -> int
    decreases lines.len(),
{
    if lines.len() == 0 {
        0
    } else if line_spec(lines[0]) is None {
        0
    } else {
        1 + first_bad_line(lines.drop_first())
    }
}

pub proof fn lemma_first_bad_line(lines: Seq<Seq<char>>, i: int)
    requires
        0 <= i < lines.len(),
        chart_ok(lines.take(i)),
        line_spec(lines[i]) is None,
    ensures
        first_bad_line(lines) == i,
        !chart_ok(lines),
    decreases i,
{
    if i > 0 {
        assert(line_spec(lines[0]) is Some) by {
            assert(lines.take(i)[0] == lines[0]);
        }
        assert(chart_ok(lines.drop_first().take(i - 1))) by {
            assert forall|j: int| 0 <= j < i - 1 implies line_spec(
                #[trigger] lines.drop_first().take(i - 1)[j],
            ) is Some by {
                assert(lines.drop_first().take(i - 1)[j] == lines.take(i)[j + 1]);
            }
        }
        assert(lines.drop_first()[i - 1] == lines[i]);
        lemma_first_bad_line(lines.drop_first(), i - 1);
    }
}

/// Appending one event extends exactly one of the two partitions and
/// leaves the other unchanged.
pub proof fn lemma_events_partition_push(events: Seq<(nat, Seq<char>)>, ev: (nat, Seq<char>))
    ensures
        is_note(ev) ==> note_events_of(events.push(ev)) == note_events_of(events).push(ev),
        is_note(ev) ==> other_events_of(events.push(ev)) == other_events_of(events),
        !is_note(ev) ==> note_events_of(events.push(ev)) == note_events_of(events),
        !is_note(ev) ==> other_events_of(events.push(ev)) == other_events_of(events).push(ev),
{
    assert(events.push(ev).drop_last() =~= events);
    assert(events.push(ev).last() == ev);
    reveal(Seq::filter);
}

/// Parse partition: each event of a well-formed chart stands in exactly
/// one of the note and other sequences — as multisets the two add up to
/// the whole — and each sequence keeps file order, being a filter of the
/// parsed lines.
pub proof fn lemma_parse_partition(events: Seq<(nat, Seq<char>)>)
    ensures
        note_events_of(events).to_multiset().add(other_events_of(events).to_multiset())
            =~= events.to_multiset(),
        note_events_of(events).len() + other_events_of(events).len() == events.len(),
    decreases events.len(),
{
    broadcast use vstd::seq_lib::group_to_multiset_ensures;
    broadcast use vstd::multiset::group_multiset_axioms;

    if events.len() == 0 {
        reveal(Seq::filter);
        assert(note_events_of(events) =~= Seq::<(nat, Seq<char>)>::empty());
        assert(other_events_of(events) =~= Seq::<(nat, Seq<char>)>::empty());
    } else {
        let s = events.drop_last();
        let x = events.last();
        lemma_parse_partition(s);
        lemma_events_partition_push(s, x);
        assert(s.push(x) =~= events);
        assert(s.push(x).to_multiset() =~= s.to_multiset().insert(x));
        if is_note(x) {
            assert(note_events_of(s).push(x).to_multiset() =~= note_events_of(
                s,
            ).to_multiset().insert(x));
        } else {
            assert(other_events_of(s).push(x).to_multiset() =~= other_events_of(
                s,
            ).to_multiset().insert(x));
        }
    }
}

/// Parses a whole chart: trims the text, splits it into lines, parses
/// each line, and partitions the events into note events (label holds
/// the delimiter) and other events, each sequence in file order.
/// Parsing is all-or-nothing: the first ill-formed line fails the whole
/// chart and is returned inside the error.
pub fn parse_chart(text: &str) -> (r: Result<
    (VecDeque<MuseEvent>, VecDeque<MuseEvent>),
    NoteDeserializeError,
>)
    ensures
        match r {
            Ok(qs) => {
                &&& chart_ok(chart_lines(text@))
                &&& qs.0@.map_values(|e: MuseEvent| e@) == note_events_of(
                    events_of(chart_lines(text@)),
                )
                &&& qs.1@.map_values(|e: MuseEvent| e@) == other_events_of(
                    events_of(chart_lines(text@)),
                )
            },
            Err(e) => {
                &&& !chart_ok(chart_lines(text@))
                &&& e.0@ == chart_lines(text@)[first_bad_line(chart_lines(text@))]
            },
        },
{
    let (a, b) = trim_bounds(text);
    let mut rest: &str = if a < b {
        text.substring_char(a, b)
    } else {
        text.substring_char(0, 0)
    };
    proof {
        assert(rest@ =~= trimmed(text@));
    }
    let ghost lines = chart_lines(text@);
    let mut notes: VecDeque<MuseEvent> = VecDeque::new();
    let mut others: VecDeque<MuseEvent> = VecDeque::new();
    let ghost mut i: int = 0;
    proof {
        reveal(Seq::filter);
        assert(lines.take(0) =~= Seq::<Seq<char>>::empty());
        assert(events_of(lines.take(0)) =~= Seq::<(nat, Seq<char>)>::empty());
        assert(notes@.map_values(|e: MuseEvent| e@) =~= Seq::<(nat, Seq<char>)>::empty());
        assert(others@.map_values(|e: MuseEvent| e@) =~= Seq::<(nat, Seq<char>)>::empty());
        assert(lines.skip(0) =~= lines);
    }
    loop
        invariant
            0 <= i <= lines.len(),
            lines == chart_lines(text@),
            split_lines(rest@) == lines.skip(i),
            chart_ok(lines.take(i)),
            notes@.map_values(|e: MuseEvent| e@) == note_events_of(events_of(lines.take(i))),
            others@.map_values(|e: MuseEvent| e@) == other_events_of(events_of(lines.take(i))),
        decreases lines.len() - i,
    {
        let rl: usize = rest.unicode_len();
        let k: usize = find_char(rest, '\n');
        let line = rest.substring_char(0, k);
        proof {
            assert(lines.skip(i).len() >= 1);
            assert(i < lines.len());
            assert(lines.skip(i)[0] == lines[i]);
            if k < rl {
                assert(line@ =~= lines[i]);
            } else {
                assert(rest@.take(k as int) =~= rest@);
                assert(line@ =~= lines[i]);
            }
        }
        match MuseEvent::from_str(line) {
            Err(e) => {
                proof {
                    lemma_first_bad_line(lines, i);
                }
                return Err(e);
            },
            Ok(ev) => {
                let ghost evv = ev@;
                proof {
                    assert(events_of(lines.take(i + 1)) =~= events_of(lines.take(i)).push(evv));
                    assert(chart_ok(lines.take(i + 1))) by {
                        assert forall|j: int| 0 <= j < i + 1 implies line_spec(
                            #[trigger] lines.take(i + 1)[j],
                        ) is Some by {
                            if j < i {
                                assert(lines.take(i)[j] == lines.take(i + 1)[j]);
                            }
                        }
                    }
                    lemma_events_partition_push(events_of(lines.take(i)), evv);
                }
                let is_n = contains_char(ev.1.as_str(), NOTE_DELIMITER);
                if is_n {
                    let ghost old_notes = notes@;
                    notes.push_back(ev);
                    proof {
                        assert(notes@.map_values(|e: MuseEvent| e@) =~= old_notes.map_values(
                            |e: MuseEvent| e@,
                        ).push(evv));
                    }
                } else {
                    let ghost old_others = others@;
                    others.push_back(ev);
                    proof {
                        assert(others@.map_values(|e: MuseEvent| e@) =~= old_others.map_values(
                            |e: MuseEvent| e@,
                        ).push(evv));
                    }
                }
                proof {
                    i = i + 1;
                }
            },
        }
        if k == rl {
            proof {
                assert(lines.skip(i - 1).len() == 1);
                assert(i == lines.len());
                assert(lines.take(i) =~= lines);
            }
            return Ok((notes, others));
        }
        let ghost prev_rest = rest@;
        rest = rest.substring_char(k + 1, rl);
        proof {
            assert(rest@ =~= prev_rest.skip(k + 1));
            assert(split_lines(prev_rest) == seq![prev_rest.take(k as int)] + split_lines(
                prev_rest.skip(k + 1),
            ));
            assert((seq![prev_rest.take(k as int)] + split_lines(prev_rest.skip(k + 1))).skip(1)
                =~= split_lines(prev_rest.skip(k + 1)));
            assert(lines.skip(i - 1).skip(1) =~= lines.skip(i));
            assert(split_lines(rest@) == lines.skip(i));
        }
    }
}

} // verus!
