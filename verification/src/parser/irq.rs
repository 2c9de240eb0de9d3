//! A second shape of the interrupt event, with a 32-bit line number.

use vstd::prelude::*;

use crate::num::{all_dec_digits, dec_value, parse_dec, ParseOutcome};
use crate::text::{skip_spaces, scan_token, str_eq, tokens};

verus! {

/// State of an interrupt line reported by the device.
#[derive(Debug, Clone, Copy, PartialEq, Eq, Structural, Hash)]
pub enum IRQState {
    Raise,
    Lower,
}

/// An interrupt event with a 32-bit line number.
#[derive(Debug, Clone, Copy, PartialEq, Eq, Structural, Hash)]
pub struct IRQ {
    pub line: u32,
    pub state: IRQState,
}

/// Outcome of reading a line against the interrupt grammar
/// `IRQ (raise|lower) line`, with no trailing tokens allowed.
pub enum IRQParse {
    /// The line matches the grammar.
    Parsed(IRQ),
    /// The first token is not `IRQ`, or trailing tokens follow the line number.
    BadString,
    /// The second token is neither `raise` nor `lower`.
    BadType,
    /// The third token is missing or is not a line number that fits.
    BadLine,
}

/// Reads a line against the interrupt grammar, at 32-bit width.
pub open spec fn spec_parse_irq32(s: Seq<char>) -> IRQParse {
    let ts = tokens(s);
    if ts.len() == 0 || ts[0] != "IRQ"@ {
        IRQParse::BadString
    } else if ts.len() < 2 || (ts[1] != "raise"@ && ts[1] != "lower"@) {
        IRQParse::BadType
    } else if ts.len() < 3 || ts[2].len() == 0 || !all_dec_digits(ts[2]) || dec_value(ts[2])
        > u32::MAX {
        IRQParse::BadLine
    } else if ts.len() > 3 {
        IRQParse::BadString
    } else {
        IRQParse::Parsed(
            IRQ {
                line: dec_value(ts[2]) as u32,
                state: if ts[1] == "raise"@ {
                    IRQState::Raise
                } else {
                    IRQState::Lower
                },
            },
        )
    }
}

impl IRQ {
    /// Builds an interrupt event from its line number and state.
    pub fn new(line: u32, state: IRQState) -> (r: Self)
        ensures
            r.line == line,
            r.state == state,
    {
        IRQ { line, state }
    }

    /// Decodes one line against the interrupt grammar, telling apart a wrong
    /// leading token, a wrong state token, and a bad line number.
    pub fn try_from(s: &str) -> (r: Result<IRQ, &'static str>)
        ensures
            match spec_parse_irq32(s@) {
                IRQParse::Parsed(irq) => r matches Ok(i) && i == irq,
                IRQParse::BadString => r matches Err(m) && m@ == "Invalid IRQ string"@,
                IRQParse::BadType => r matches Err(m) && m@ == "Invalid IRQ type"@,
                IRQParse::BadLine => r matches Err(m) && m@ == "Invalid IRQ line"@,
            },
    {
        let ghost ts = tokens(s@);
        proof {
            assert(s@.skip(0) =~= s@);
        }
        let n = s.unicode_len();
        let i0 = skip_spaces(s, 0, n);
        if i0 == n {
            proof {
                assert(s@.skip(n as int) =~= Seq::<char>::empty());
            }
            return Err("Invalid IRQ string");
        }
        let j0 = scan_token(s, i0, n);
        let t0 = s.substring_char(i0, j0);
        proof {
            assert(ts == seq![t0@] + tokens(s@.skip(j0 as int)));
        }
        if !str_eq(t0, "IRQ") {
            return Err("Invalid IRQ string");
        }
        let i1 = skip_spaces(s, j0, n);
        if i1 == n {
            proof {
                assert(s@.skip(n as int) =~= Seq::<char>::empty());
                assert(ts =~= seq![t0@]);
            }
            return Err("Invalid IRQ type");
        }
        let j1 = scan_token(s, i1, n);
        let t1 = s.substring_char(i1, j1);
        proof {
            assert(ts == seq![t0@, t1@] + tokens(s@.skip(j1 as int)));
            assert(ts[1] == t1@);
        }
        let raise = str_eq(t1, "raise");
        if !raise && !str_eq(t1, "lower") {
            return Err("Invalid IRQ type");
        }
        let i2 = skip_spaces(s, j1, n);
        if i2 == n {
            proof {
                assert(s@.skip(n as int) =~= Seq::<char>::empty());
                assert(ts =~= seq![t0@, t1@]);
            }
            return Err("Invalid IRQ line");
        }
        let j2 = scan_token(s, i2, n);
        let t2 = s.substring_char(i2, j2);
        proof {
            assert(ts == seq![t0@, t1@, t2@] + tokens(s@.skip(j2 as int)));
            assert(ts[2] == t2@);
        }
        let line: u32 = match parse_dec(t2) {
            ParseOutcome::Parsed(v) => {
                if v > u32::MAX as u64 {
                    return Err("Invalid IRQ line");
                }
                v as u32
            },
            _ => {
                return Err("Invalid IRQ line");
            },
        };
        let i3 = skip_spaces(s, j2, n);
        if i3 < n {
            proof {
                assert(s@.skip(i3 as int)[0] == s@[i3 as int]);
                crate::text::lemma_tokens_nonempty(s@.skip(i3 as int));
            }
            return Err("Invalid IRQ string");
        }
        proof {
            assert(s@.skip(n as int) =~= Seq::<char>::empty());
            assert(ts =~= seq![t0@, t1@, t2@]);
        }
        Ok(IRQ { line, state: if raise { IRQState::Raise } else { IRQState::Lower } })
    }
}

} // verus!
