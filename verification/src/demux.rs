//! The demultiplexer: the lines of one frame sorted into interrupt events
//! and response records, in the order the lines arrived.
//!
//! Each nonempty line is tried against the interrupt grammar.  A match emits
//! one interrupt event.  A line that does not match emits one response
//! record — decoded from the whole block as delivered, not from the single
//! line.  A block of several interrupt lines and one response line therefore
//! yields that many interrupt events plus one response whose payload comes
//! from the whole block text; callers are written against exactly this
//! sequencing, so it is kept as it stands.

use vstd::prelude::*;

use crate::text::{scan_line, spec_lines, spec_trim_nul, strip_cr, trim_nul};
use crate::{spec_parse_irq, spec_response, Irq, IrqParse, Response, ResponseModel};

verus! {

/// One demultiplexed item.
#[derive(Debug, Clone, PartialEq, Eq)]
pub enum Event {
    /// An interrupt line, decoded.
    Interrupt(Irq),
    /// A response record for the command layer.
    Reply(Response),
}

/// The shape of an [`Event`] at the specification level.
pub enum EventModel {
    Interrupt(Irq),
    Reply(ResponseModel),
}

impl View for Event {
    type V = EventModel;

    open spec fn view(&self) -> EventModel {
        match self {
            Event::Interrupt(irq) => EventModel::Interrupt(*irq),
            Event::Reply(r) => EventModel::Reply(r@),
        }
    }
}

/// The events of one line within a block: an empty line carries nothing; a
/// line matching the interrupt grammar carries its event; any other line
/// carries one response record, decoded from the whole block.
pub open spec fn spec_line_events(l: Seq<char>, block: Seq<char>) -> Seq<EventModel> {
    if l.len() == 0 {
        seq![]
    } else {
        match spec_parse_irq(l) {
            IrqParse::Parsed(irq) => seq![EventModel::Interrupt(irq)],
            _ => seq![EventModel::Reply(spec_response(block))],
        }
    }
}

/// The events of a sequence of lines, in line order.
pub open spec fn spec_lines_events(ls: Seq<Seq<char>>, block: Seq<char>) -> Seq<EventModel>
    decreases ls.len(),
{
    if ls.len() == 0 {
        seq![]
    } else {
        spec_line_events(ls[0], block) + spec_lines_events(ls.drop_first(), block)
    }
}

/// All events of one raw delivery: NUL padding trimmed away, the text split
/// into lines, each nonempty line classified in order.
pub open spec fn spec_block_events(raw: Seq<char>) -> Seq<EventModel> {
    spec_lines_events(spec_lines(spec_trim_nul(raw)), spec_trim_nul(raw))
}

/// The models of a sequence of events.
pub open spec fn events_view(v: Seq<Event>) -> Seq<EventModel> {
    v.map_values(|e: Event| e@)
}

/// Sorts the lines of one raw delivery into interrupt events and response
/// records, in line order.
pub fn process_block(raw: &str) -> (events: Vec<Event>)
    ensures
        events_view(events@) == spec_block_events(raw@),
{
    let t = trim_nul(raw);
    let ghost blk = t@;
    let n = t.unicode_len();
    let mut events: Vec<Event> = Vec::new();
    let mut i: usize = 0;
    proof {
        assert(t@.skip(0) =~= t@);
        assert(events_view(events@) + spec_lines_events(spec_lines(t@.skip(0)), blk) =~= spec_block_events(raw@));
    }
    loop
        invariant
            n == t@.len(),
            0 <= i <= n,
            blk == t@,
            t@ == spec_trim_nul(raw@),
            events_view(events@) + spec_lines_events(spec_lines(t@.skip(i as int)), blk)
                == spec_block_events(raw@),
        ensures
            events_view(events@) == spec_block_events(raw@),
        decreases n - i,
    {
        if i == n {
            proof {
                assert(t@.skip(n as int) =~= Seq::<char>::empty());
                assert(events_view(events@) + spec_lines_events(
                    spec_lines(t@.skip(n as int)),
                    blk,
                ) =~= events_view(events@));
            }
            break;
        }
        let j = scan_line(t, i, n);
        let ghost rest_lines = spec_lines(t@.skip(i as int));
        let line: &str;
        let next: usize;
        if j < n {
            let e = if j > i && t.get_char(j - 1) == '\r' {
                j - 1
            } else {
                j
            };
            line = t.substring_char(i, e);
            next = j + 1;
            proof {
                let full = t@.subrange(i as int, j as int);
                if j > i && t@[j - 1] == '\r' {
                    assert(full.last() == '\r');
                    assert(full.drop_last() =~= t@.subrange(i as int, j - 1));
                    assert(line@ == strip_cr(full));
                } else {
                    if full.len() > 0 {
                        assert(full.last() == t@[j - 1]);
                    }
                    assert(line@ == strip_cr(full));
                }
                assert(rest_lines == seq![line@] + spec_lines(t@.skip(j + 1)));
                assert(rest_lines[0] == line@);
                assert(rest_lines.drop_first() =~= spec_lines(t@.skip(j + 1)));
            }
        } else {
            line = t.substring_char(i, j);
            next = n;
            proof {
                assert(rest_lines == seq![line@]);
                assert(rest_lines[0] == line@);
                assert(t@.skip(n as int) =~= Seq::<char>::empty());
                assert(rest_lines.drop_first() =~= spec_lines(t@.skip(n as int)));
            }
        }
        proof {
            assert(spec_lines_events(rest_lines, blk) == spec_line_events(line@, blk)
                + spec_lines_events(spec_lines(t@.skip(next as int)), blk));
        }
        if line.unicode_len() > 0 {
            let ghost before = events@;
            match Irq::try_from(line) {
                Ok(irq) => {
                    events.push(Event::Interrupt(irq));
                    proof {
                        assert(events_view(events@) =~= events_view(before) + seq![
                            EventModel::Interrupt(irq),
                        ]);
                    }
                },
                Err(_) => {
                    let reply = Response::from(t);
                    events.push(Event::Reply(reply));
                    proof {
                        assert(events_view(events@) =~= events_view(before) + seq![
                            EventModel::Reply(spec_response(blk)),
                        ]);
                    }
                },
            }
        } else {
            proof {
                assert(spec_line_events(line@, blk) =~= Seq::<EventModel>::empty());
            }
        }
        proof {
            assert(events_view(events@) + spec_lines_events(
                spec_lines(t@.skip(next as int)),
                blk,
            ) =~= spec_block_events(raw@));
        }
        i = next;
    }
    events
}

} // verus!
