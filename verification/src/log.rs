//! The event log collection: a file's content split into lines, each
//! non-empty line parsed into a `ClefEvent`, in file order.
//!
//! A line break is a line-feed or carriage-return byte, so files with any of
//! the common line endings split the same way; the empty pieces a `\r\n`
//! pair produces are skipped like any other empty line. A line that is not a
//! JSON object makes the whole load fail with `MalformedEvent` — the strict
//! policy of this viewer, which aborts rather than skips a broken line.

use vstd::prelude::*;
use vstd::slice::slice_subrange;
use crate::clef::{ClefEvent, ClefEventModel, parse, spec_parse_event};
use crate::render::{spec_display_line, spec_level_color, map_level_to_color, LogColor};
use crate::AppError;

verus! {

/// True of a byte that ends a line.
pub open spec fn is_line_break(b: u8) -> bool {
    b == '\n' as u8 || b == '\r' as u8
}

/// The first position at or after `i` that holds a line break, or the end of
/// `s`.
pub open spec fn line_break(s: Seq<u8>, i: int) -> int
    decreases s.len() - i,
{
    if i < 0 || i >= s.len() {
        i
    } else if is_line_break(s[i]) {
        i
    } else {
        line_break(s, i + 1)
    }
}

pub proof fn lemma_line_break_bounds(s: Seq<u8>, i: int)
    requires
        0 <= i <= s.len(),
    ensures
        i <= line_break(s, i) <= s.len(),
    decreases s.len() - i,
{
    if i < s.len() && !is_line_break(s[i]) {
        lemma_line_break_bounds(s, i + 1);
    }
}

/// The lines of `s`: the pieces between line breaks, in order, without the
/// break bytes. A trailing break adds no final empty line.
pub open spec fn split_lines(s: Seq<u8>) -> Seq<Seq<u8>>
    decreases s.len(),
{
    if s.len() == 0 {
        Seq::empty()
    } else {
        let j = line_break(s, 0);
        if j == s.len() {
            seq![s]
        } else {
            proof {
                lemma_line_break_bounds(s, 0);
            }
            seq![s.take(j)] + split_lines(s.skip(j + 1))
        }
    }
}

/// The non-empty lines among `ls`, in order.
pub open spec fn nonempty_lines(ls: Seq<Seq<u8>>) -> Seq<Seq<u8>>
    decreases ls.len(),
{
    if ls.len() == 0 {
        Seq::empty()
    } else if ls[0].len() > 0 {
        seq![ls[0]] + nonempty_lines(ls.skip(1))
    } else {
        nonempty_lines(ls.skip(1))
    }
}

/// The events the lines `ls` hold: empty lines are skipped, every other line
/// must parse, and one broken line makes the whole result `None`.
pub open spec fn events_of_lines(ls: Seq<Seq<u8>>) -> Option<Seq<ClefEventModel>>
    decreases ls.len(),
{
    if ls.len() == 0 {
        Some(Seq::empty())
    } else if ls[0].len() == 0 {
        events_of_lines(ls.skip(1))
    } else {
        match spec_parse_event(ls[0]) {
            None => None,
            Some(e) => match events_of_lines(ls.skip(1)) {
                None => None,
                Some(rest) => Some(seq![e] + rest),
            },
        }
    }
}

/// The events a whole file content stands for: `None` when some non-empty
/// line is not a JSON object.
pub open spec fn spec_event_log(s: Seq<u8>) -> Option<Seq<ClefEventModel>> {
    events_of_lines(split_lines(s))
}

/// An ordered collection of parsed log records, one per non-empty input
/// line, in file order; it owns its events exclusively.
#[derive(Debug)]
pub struct EventLog {
    pub events: Vec<ClefEvent>,
}

impl View for EventLog {
    type V = Seq<ClefEventModel>;

    open spec fn view(&self) -> Seq<ClefEventModel> {
        self.events@.map_values(|e: ClefEvent| e@)
    }
}

/// The first position at or after `i` that holds a line break, computed.
fn line_break_x(s: &[u8], i: usize) -> (r: usize)
    requires
        i <= s@.len(),
    ensures
        r == line_break(s@, i as int),
        i <= r <= s@.len(),
{
    let mut j = i;
    while j < s.len() && !(s[j] == '\n' as u8 || s[j] == '\r' as u8)
        invariant
            i <= j <= s@.len(),
            line_break(s@, i as int) == line_break(s@, j as int),
        decreases s@.len() - j,
    {
        j = j + 1;
    }
    j
}

impl EventLog {
    /// Builds the log from a file's content: the content splits into lines,
    /// every non-empty line parses into one event, in file order, and empty
    /// lines are skipped. Fails with `MalformedEvent` — and the whole load is
    /// abandoned — when any non-empty line is not a JSON object.
    pub fn from_text(content: &[u8]) -> (r: Result<EventLog, AppError>)
        ensures
            r is Ok <==> spec_event_log(content@) is Some,
            r matches Ok(log) ==> spec_event_log(content@) == Some(log@),
            r matches Err(e) ==> e == AppError::MalformedEvent,
    {
        let mut events: Vec<ClefEvent> = Vec::new();
        let mut pos: usize = 0;
        let n = content.len();
        proof {
            assert(content@.skip(0) =~= content@);
            assert(events@.map_values(|e: ClefEvent| e@) =~= Seq::<ClefEventModel>::empty());
        }
        while pos < n
            invariant
                pos <= n,
                n == content@.len(),
                spec_event_log(content@) == (match events_of_lines(
                    split_lines(content@.skip(pos as int)),
                ) {
                    None => None::<Seq<ClefEventModel>>,
                    Some(rest) => Some(events@.map_values(|e: ClefEvent| e@) + rest),
                }),
            decreases n - pos,
        {
            let ghost rest = content@.skip(pos as int);
            let j = line_break_x(content, pos);
            proof {
                assert(rest.len() == n - pos);
                assert(line_break(rest, 0) == line_break(content@, pos as int) - pos) by {
                    lemma_line_break_shift(content@, pos as int, pos as int);
                }
                lemma_line_break_bounds(content@, pos as int);
            }
            let line: &[u8] = slice_subrange(content, pos, j);
            proof {
                assert(line@ =~= rest.take(j - pos));
                if j == n {
                    assert(rest.take(j - pos) =~= rest);
                    assert(split_lines(rest) == seq![rest]);
                } else {
                    assert(split_lines(rest) == seq![rest.take(j - pos)] + split_lines(
                        rest.skip(j - pos + 1),
                    ));
                    assert(rest.skip(j - pos + 1) =~= content@.skip(j + 1));
                }
            }
            if line.len() > 0 {
                match parse(line) {
                    Err(e) => {
                        proof {
                            assert(split_lines(rest)[0] == line@);
                            assert(split_lines(rest)[0].len() > 0);
                            assert(events_of_lines(split_lines(rest)) is None) by {
                                if j < n {
                                    assert(split_lines(rest).skip(1) =~= split_lines(
                                        content@.skip(j + 1),
                                    ));
                                } else {
                                    assert(split_lines(rest).skip(1)
                                        =~= Seq::<Seq<u8>>::empty());
                                }
                            }
                        }
                        return Err(e);
                    },
                    Ok(ev) => {
                        let ghost before = events@;
                        events.push(ev);
                        proof {
                            assert(split_lines(rest)[0] == line@);
                            if j < n {
                                assert(split_lines(rest).skip(1) =~= split_lines(
                                    content@.skip(j + 1),
                                ));
                            } else {
                                assert(split_lines(rest).skip(1) =~= Seq::<Seq<u8>>::empty());
                                assert(content@.skip(n as int) =~= Seq::<u8>::empty());
                                assert(split_lines(content@.skip(n as int))
                                    =~= Seq::<Seq<u8>>::empty());
                            }
                            assert(events@.map_values(|e: ClefEvent| e@) =~= before.map_values(
                                |e: ClefEvent| e@,
                            ).push(ev@));
                            if events_of_lines(split_lines(rest)) is Some {
                                let tail = events_of_lines(
                                    split_lines(rest).skip(1),
                                ).unwrap();
                                assert(before.map_values(|e: ClefEvent| e@) + (seq![ev@] + tail)
                                    =~= events@.map_values(|e: ClefEvent| e@) + tail);
                            }
                        }
                    },
                }
            } else {
                proof {
                    assert(split_lines(rest)[0] == line@);
                    assert(split_lines(rest)[0].len() == 0);
                    if j < n {
                        assert(split_lines(rest).skip(1) =~= split_lines(content@.skip(j + 1)));
                    } else {
                        assert(split_lines(rest).skip(1) =~= Seq::<Seq<u8>>::empty());
                        assert(content@.skip(n as int) =~= Seq::<u8>::empty());
                        assert(split_lines(content@.skip(n as int)) =~= Seq::<Seq<u8>>::empty());
                    }
                }
            }
            if j >= n {
                proof {
                    assert(content@.skip(n as int) =~= Seq::<u8>::empty());
                    assert(split_lines(content@.skip(n as int)) =~= Seq::<Seq<u8>>::empty());
                }
                pos = n;
            } else {
                pos = j + 1;
            }
        }
        proof {
            assert(content@.skip(pos as int) =~= Seq::<u8>::empty());
            assert(split_lines(content@.skip(pos as int)) =~= Seq::<Seq<u8>>::empty());
            let ghost models = events@.map_values(|e: ClefEvent| e@);
            assert(models + Seq::<ClefEventModel>::empty() =~= models);
        }
        Ok(EventLog { events })
    }
}

impl EventLog {
    /// The line to print for every event, in order, each with the color of
    /// its level: what a bulk print of the log writes, one colored line per
    /// event.
    pub fn display_lines(&self) -> (r: Vec<(Vec<u8>, LogColor)>)
        ensures
            r@.len() == self@.len(),
            forall|k: int|
                0 <= k < r@.len() ==> (#[trigger] r@[k]).0@ == spec_display_line(self@[k])
                    && r@[k].1 == spec_level_color(self@[k].level),
    {
        let mut out: Vec<(Vec<u8>, LogColor)> = Vec::new();
        let mut i: usize = 0;
        while i < self.events.len()
            invariant
                i <= self.events@.len(),
                out@.len() == i,
                forall|k: int|
                    0 <= k < i ==> (#[trigger] out@[k]).0@ == spec_display_line(self@[k])
                        && out@[k].1 == spec_level_color(self@[k].level),
            decreases self.events@.len() - i,
        {
            let event = &self.events[i];
            let line = event.as_message();
            let color = map_level_to_color(event);
            out.push((line, color));
            i = i + 1;
        }
        out
    }
}

/// Scanning for a line break commutes with dropping a prefix: the break
/// found in a suffix stands at the same distance.
pub proof fn lemma_line_break_shift(s: Seq<u8>, d: int, i: int)
    requires
        0 <= d <= i <= s.len(),
    ensures
        line_break(s.skip(d), i - d) == line_break(s, i) - d,
    decreases s.len() - i,
{
    assert(s.skip(d).len() == s.len() - d);
    if i < s.len() {
        assert(s.skip(d)[i - d] == s[i]);
        if !is_line_break(s[i]) {
            lemma_line_break_shift(s, d, i + 1);
        }
    }
}

/// A loaded log holds exactly one event per non-empty line, in file order:
/// the `k`-th event is the parse of the `k`-th non-empty line.
pub proof fn lemma_log_matches_lines(s: Seq<u8>)
    ensures
        spec_event_log(s) matches Some(es) ==> {
            &&& es.len() == nonempty_lines(split_lines(s)).len()
            &&& forall|k: int|
                0 <= k < es.len() ==> spec_parse_event(#[trigger] nonempty_lines(split_lines(s))[k])
                    == Some(es[k])
        },
{
    lemma_events_match_lines(split_lines(s));
}

proof fn lemma_events_match_lines(ls: Seq<Seq<u8>>)
    ensures
        events_of_lines(ls) matches Some(es) ==> {
            &&& es.len() == nonempty_lines(ls).len()
            &&& forall|k: int|
                0 <= k < es.len() ==> spec_parse_event(#[trigger] nonempty_lines(ls)[k]) == Some(
                    es[k],
                )
        },
    decreases ls.len(),
{
    if ls.len() == 0 {
    } else {
        lemma_events_match_lines(ls.skip(1));
        if ls[0].len() == 0 {
        } else if events_of_lines(ls) is Some {
            let es = events_of_lines(ls).unwrap();
            let rest = events_of_lines(ls.skip(1)).unwrap();
            assert(es == seq![spec_parse_event(ls[0]).unwrap()] + rest);
            assert(nonempty_lines(ls) == seq![ls[0]] + nonempty_lines(ls.skip(1)));
            assert forall|k: int| 0 <= k < es.len() implies spec_parse_event(
                #[trigger] nonempty_lines(ls)[k],
            ) == Some(es[k]) by {
                if k == 0 {
                    assert(nonempty_lines(ls)[0] == ls[0]);
                    assert(es[0] == spec_parse_event(ls[0]).unwrap());
                } else {
                    assert(nonempty_lines(ls)[k] == nonempty_lines(ls.skip(1))[k - 1]);
                    assert(es[k] == rest[k - 1]);
                }
            }
        }
    }
}

} // verus!
