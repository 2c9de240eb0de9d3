//! A verified protocol engine for a line-oriented machine-control protocol.
//!
//! The engine drives an emulated device over a byte stream: it reassembles
//! raw chunks into newline-complete frames, sorts the lines of a frame into
//! asynchronous interrupt events and command responses, and encodes typed
//! requests and decodes typed results for the command layer.  Everything here
//! is transport-agnostic; the sockets that carry the bytes live outside.

pub mod demux;
pub mod frame;
pub mod num;
pub mod parser;
pub mod socket;
pub mod text;

use vstd::prelude::*;

use crate::num::{all_dec_digits, dec_value, parse_dec};
use crate::text::{join_space, skip_spaces, scan_token, str_eq, tokens};

verus! {

/// One decoded response record from the device.
#[derive(Debug, Clone, PartialEq, Eq, Hash)]
pub enum Response {
    /// Success without any additional data.
    Okay,
    /// Success with additional data.
    OkVal(String),
    /// The request was rejected; the text is the line as received.
    Error(String),
}

/// The shape of a [`Response`] at the specification level, with its text as a
/// character sequence.
pub enum ResponseModel {
    Okay,
    OkVal(Seq<char>),
    Error(Seq<char>),
}

impl View for Response {
    type V = ResponseModel;

    open spec fn view(&self) -> ResponseModel {
        match self {
            Response::Okay => ResponseModel::Okay,
            Response::OkVal(v) => ResponseModel::OkVal(v@),
            Response::Error(e) => ResponseModel::Error(e@),
        }
    }
}

/// What a response line decodes to: a first token `OK` alone is plain
/// success; `OK` followed by more tokens carries them, rejoined with single
/// spaces; any other line is an error holding the whole text.
pub open spec fn spec_response(s: Seq<char>) -> ResponseModel {
    let ts = tokens(s);
    if ts.len() == 0 || ts[0] != "OK"@ {
        ResponseModel::Error(s)
    } else if ts.len() == 1 {
        ResponseModel::Okay
    } else {
        ResponseModel::OkVal(join_space(ts.drop_first()))
    }
}

impl Response {
    /// Decodes one response line.
    pub fn from(s: &str) -> (r: Response)
        ensures
            r@ == spec_response(s@),
    {
        let ghost ts = tokens(s@);
        proof {
            assert(s@.skip(0) =~= s@);
        }
        let n = s.unicode_len();
        let i0 = skip_spaces(s, 0, n);
        if i0 == n {
            proof {
                assert(s@.skip(n as int) =~= Seq::<char>::empty());
            }
            return Response::Error(s.to_owned());
        }
        let j0 = scan_token(s, i0, n);
        let t0 = s.substring_char(i0, j0);
        proof {
            assert(ts == seq![t0@] + tokens(s@.skip(j0 as int)));
        }
        if !str_eq(t0, "OK") {
            return Response::Error(s.to_owned());
        }
        let i1 = skip_spaces(s, j0, n);
        if i1 == n {
            proof {
                assert(s@.skip(n as int) =~= Seq::<char>::empty());
                assert(ts =~= seq![t0@]);
            }
            return Response::Okay;
        }
        proof {
            assert(s@.skip(i1 as int)[0] == s@[i1 as int]);
            crate::text::lemma_tokens_nonempty(s@.skip(i1 as int));
            assert(ts.drop_first() =~= tokens(s@.skip(i1 as int)));
            assert(Seq::<char>::empty() + join_space(ts.drop_first()) =~= join_space(
                ts.drop_first(),
            ));
        }
        let mut payload = String::new();
        let mut i = i1;
        loop
            invariant_except_break
                join_space(ts.drop_first()) == payload@ + join_space(tokens(s@.skip(i as int))),
            invariant
                n == s@.len(),
                i < n,
                !text::is_space(s@[i as int]),
                ts == tokens(s@),
                tokens(s@.skip(i as int)).len() >= 1,
            ensures
                payload@ == join_space(ts.drop_first()),
            decreases n - i,
        {
            let j = scan_token(s, i, n);
            let t = s.substring_char(i, j);
            payload.append(t);
            let k = skip_spaces(s, j, n);
            if k == n {
                proof {
                    assert(s@.skip(n as int) =~= Seq::<char>::empty());
                    crate::text::lemma_join_space_cons(t@, tokens(s@.skip(k as int)));
                }
                break;
            }
            proof {
                assert(s@.skip(k as int)[0] == s@[k as int]);
                crate::text::lemma_tokens_nonempty(s@.skip(k as int));
                crate::text::lemma_join_space_cons(t@, tokens(s@.skip(k as int)));
                reveal_strlit(" ");
                assert(" "@ =~= seq![' ']);
            }
            payload.append(" ");
            i = k;
        }
        Response::OkVal(payload)
    }
}

/// State of an interrupt line reported by the device.
#[derive(Debug, Clone, Copy, PartialEq, Eq, Structural, Hash)]
pub enum IrqState {
    /// The interrupt line was raised.
    Raise,
    /// The interrupt line was lowered.
    Lower,
}

/// An interrupt event delivered asynchronously on the protocol stream.
#[derive(Debug, Clone, Copy, PartialEq, Eq, Structural, Hash)]
pub struct Irq {
    /// The interrupt line the event concerns.
    pub line: usize,
    /// Whether the line was raised or lowered.
    pub state: IrqState,
}

/// Outcome of reading a line against the interrupt grammar
/// `IRQ (raise|lower) line`, with no trailing tokens allowed.
pub enum IrqParse {
    /// The line matches the grammar.
    Parsed(Irq),
    /// The first token is not `IRQ`, or trailing tokens follow the line number.
    BadString,
    /// The second token is neither `raise` nor `lower`.
    BadType,
    /// The third token is missing or is not a line number that fits.
    BadLine,
}

/// Reads a line against the interrupt grammar.
pub open spec fn spec_parse_irq(s: Seq<char>) -> IrqParse {
    let ts = tokens(s);
    if ts.len() == 0 || ts[0] != "IRQ"@ {
        IrqParse::BadString
    } else if ts.len() < 2 || (ts[1] != "raise"@ && ts[1] != "lower"@) {
        IrqParse::BadType
    } else if ts.len() < 3 || ts[2].len() == 0 || !all_dec_digits(ts[2]) || dec_value(ts[2])
        > usize::MAX {
        IrqParse::BadLine
    } else if ts.len() > 3 {
        IrqParse::BadString
    } else {
        IrqParse::Parsed(
            Irq {
                line: dec_value(ts[2]) as usize,
                state: if ts[1] == "raise"@ {
                    IrqState::Raise
                } else {
                    IrqState::Lower
                },
            },
        )
    }
}

impl Irq {
    /// Builds an interrupt event from its line number and state.
    pub fn new(line: usize, state: IrqState) -> (r: Self)
        ensures
            r.line == line,
            r.state == state,
    {
        Irq { line, state }
    }

    /// Decodes one line against the interrupt grammar, telling apart a wrong
    /// leading token, a wrong state token, and a bad line number.
    pub fn try_from(s: &str) -> (r: Result<Irq, &'static str>)
        ensures
            match spec_parse_irq(s@) {
                IrqParse::Parsed(irq) => r matches Ok(i) && i == irq,
                IrqParse::BadString => r matches Err(m) && m@ == "Invalid IRQ string"@,
                IrqParse::BadType => r matches Err(m) && m@ == "Invalid IRQ type"@,
                IrqParse::BadLine => r matches Err(m) && m@ == "Invalid IRQ line"@,
            },
    {
        let ghost ts = tokens(s@);
        proof {
            assert(s@.skip(0) =~= s@);
        }
        let n = s.unicode_len();
        let i0 = skip_spaces(s, 0, n);
        if i0 == n {
            proof {
                assert(s@.skip(n as int) =~= Seq::<char>::empty());
            }
            return Err("Invalid IRQ string");
        }
        let j0 = scan_token(s, i0, n);
        let t0 = s.substring_char(i0, j0);
        proof {
            assert(ts == seq![t0@] + tokens(s@.skip(j0 as int)));
        }
        if !str_eq(t0, "IRQ") {
            return Err("Invalid IRQ string");
        }
        let i1 = skip_spaces(s, j0, n);
        if i1 == n {
            proof {
                assert(s@.skip(n as int) =~= Seq::<char>::empty());
                assert(ts =~= seq![t0@]);
            }
            return Err("Invalid IRQ type");
        }
        let j1 = scan_token(s, i1, n);
        let t1 = s.substring_char(i1, j1);
        proof {
            assert(ts == seq![t0@, t1@] + tokens(s@.skip(j1 as int)));
            assert(ts[1] == t1@);
        }
        let raise = str_eq(t1, "raise");
        if !raise && !str_eq(t1, "lower") {
            return Err("Invalid IRQ type");
        }
        let i2 = skip_spaces(s, j1, n);
        if i2 == n {
            proof {
                assert(s@.skip(n as int) =~= Seq::<char>::empty());
                assert(ts =~= seq![t0@, t1@]);
            }
            return Err("Invalid IRQ line");
        }
        let j2 = scan_token(s, i2, n);
        let t2 = s.substring_char(i2, j2);
        proof {
            assert(ts == seq![t0@, t1@, t2@] + tokens(s@.skip(j2 as int)));
            assert(ts[2] == t2@);
        }
        let line: usize = match parse_dec(t2) {
            crate::num::ParseOutcome::Parsed(v) => {
                if v > usize::MAX as u64 {
                    return Err("Invalid IRQ line");
                }
                v as usize
            },
            _ => {
                return Err("Invalid IRQ line");
            },
        };
        let i3 = skip_spaces(s, j2, n);
        if i3 < n {
            proof {
                assert(s@.skip(i3 as int)[0] == s@[i3 as int]);
                crate::text::lemma_tokens_nonempty(s@.skip(i3 as int));
            }
            return Err("Invalid IRQ string");
        }
        proof {
            assert(s@.skip(n as int) =~= Seq::<char>::empty());
            assert(ts =~= seq![t0@, t1@, t2@]);
        }
        Ok(Irq { line, state: if raise { IrqState::Raise } else { IrqState::Lower } })
    }
}

} // verus!
