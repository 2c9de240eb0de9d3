//! The command layer: typed requests encoded to wire lines, and typed
//! results decoded from response records.
//!
//! Every request is one newline-terminated line: a verb, then arguments,
//! space-separated — addresses and values as lowercase hex with a `0x`
//! prefix, counts and line numbers as decimal.  The functions here build
//! those lines exactly and read the matching responses back; the transport
//! that carries them lives outside.

pub mod irq;

use vstd::prelude::*;
use vstd::string::StringSliceAdditionalSpecFns;

use base64::Engine;

use crate::num::{
    all_dec_digits, all_hex_digits, dec_int_string_of, dec_string_of, dec_value, fmt_dec,
    fmt_dec_signed, fmt_hex, hex_string_of, hex_value, lemma_dec_round_trip, lemma_hex_round_trip,
    parse_dec, parse_hex, ParseOutcome,
};
use crate::text::{spec_strip_0x, spec_strip_plus, strip_0x, strip_plus};
use crate::{Response, ResponseModel};

verus! {

/// Why a numeric payload failed to decode.
#[derive(Debug, Clone, Copy, PartialEq, Eq, Structural)]
pub enum PayloadFault {
    /// The payload is not a number of the expected base: empty, or holding a
    /// character that is not a digit.
    NotNumeric,
    /// The payload is a number, but does not fit the width the operation
    /// expects.
    OutOfRange,
}

/// How a command layer operation fails.
#[derive(Debug, Clone, PartialEq, Eq)]
pub enum EngineError {
    /// An `OkVal` payload did not parse as the number the operation expects;
    /// holds the payload as received and the underlying parse fault.
    BadPayload(String, PayloadFault),
    /// The device rejected the request; holds the error line as received.
    Rejected(String),
    /// The response did not have the shape the operation expects.
    UnexpectedResponse,
}

/// A request of the shape `verb 0xaddr`, newline-terminated.
pub open spec fn spec_addr_req(verb: Seq<char>, addr: nat) -> Seq<char> {
    verb + " 0x"@ + hex_string_of(addr) + "\n"@
}

/// A request of the shape `verb 0xaddr 0xval`, newline-terminated.
pub open spec fn spec_addr_val_req(verb: Seq<char>, addr: nat, val: nat) -> Seq<char> {
    verb + " 0x"@ + hex_string_of(addr) + " 0x"@ + hex_string_of(val) + "\n"@
}

fn encode_addr_req(verb: &str, addr: usize) -> (r: String)
    ensures
        r@ == spec_addr_req(verb@, addr as nat),
{
    let mut s = String::from_str(verb);
    s.append(" 0x");
    s.append(fmt_hex(addr as u64).as_str());
    s.append("\n");
    proof {
        assert(s@ =~= spec_addr_req(verb@, addr as nat));
    }
    s
}

fn encode_addr_val_req(verb: &str, addr: usize, val: u64) -> (r: String)
    ensures
        r@ == spec_addr_val_req(verb@, addr as nat, val as nat),
{
    let mut s = String::from_str(verb);
    s.append(" 0x");
    s.append(fmt_hex(addr as u64).as_str());
    s.append(" 0x");
    s.append(fmt_hex(val).as_str());
    s.append("\n");
    proof {
        assert(s@ =~= spec_addr_val_req(verb@, addr as nat, val as nat));
    }
    s
}

/// The `clock_step` request: the step in nanoseconds in decimal, or no
/// argument to step to the next timer deadline.
pub open spec fn spec_clock_step_req(ns: Option<usize>) -> Seq<char> {
    match ns {
        Some(n) => "clock_step "@ + dec_string_of(n as nat) + "\n"@,
        None => "clock_step\n"@,
    }
}

/// Encodes a `clock_step` request.
pub fn encode_clock_step(ns: Option<usize>) -> (r: String)
    ensures
        r@ == spec_clock_step_req(ns),
{
    match ns {
        Some(n) => {
            let mut s = String::from_str("clock_step ");
            s.append(fmt_dec(n as u64).as_str());
            s.append("\n");
            proof {
                assert(s@ =~= spec_clock_step_req(ns));
            }
            s
        },
        None => String::from_str("clock_step\n"),
    }
}

/// The `clock_set` request: the target time in nanoseconds in decimal.
pub open spec fn spec_clock_set_req(ns: nat) -> Seq<char> {
    "clock_set "@ + dec_string_of(ns) + "\n"@
}

/// Encodes a `clock_set` request.
pub fn encode_clock_set(ns: usize) -> (r: String)
    ensures
        r@ == spec_clock_set_req(ns as nat),
{
    let mut s = String::from_str("clock_set ");
    s.append(fmt_dec(ns as u64).as_str());
    s.append("\n");
    proof {
        assert(s@ =~= spec_clock_set_req(ns as nat));
    }
    s
}

/// The `irq_intercept_in` request for a device path.
pub open spec fn spec_irq_intercept_in_req(path: Seq<char>) -> Seq<char> {
    "irq_intercept_in "@ + path + "\n"@
}

/// Encodes an `irq_intercept_in` request.
pub fn encode_irq_intercept_in(qom_path: &str) -> (r: String)
    ensures
        r@ == spec_irq_intercept_in_req(qom_path@),
{
    let mut s = String::from_str("irq_intercept_in ");
    s.append(qom_path);
    s.append("\n");
    proof {
        assert(s@ =~= spec_irq_intercept_in_req(qom_path@));
    }
    s
}

/// The `irq_intercept_out` request for a device path.
pub open spec fn spec_irq_intercept_out_req(path: Seq<char>) -> Seq<char> {
    "irq_intercept_out "@ + path + "\n"@
}

/// Encodes an `irq_intercept_out` request.
pub fn encode_irq_intercept_out(qom_path: &str) -> (r: String)
    ensures
        r@ == spec_irq_intercept_out_req(qom_path@),
{
    let mut s = String::from_str("irq_intercept_out ");
    s.append(qom_path);
    s.append("\n");
    proof {
        assert(s@ =~= spec_irq_intercept_out_req(qom_path@));
    }
    s
}

/// The `set_irq_in` request: device path, interrupt name, line in decimal,
/// and the level as a signed decimal.
pub open spec fn spec_set_irq_in_req(path: Seq<char>, name: Seq<char>, line: nat, level: int) -> Seq<
    char,
> {
    "set_irq_in "@ + path + " "@ + name + " "@ + dec_string_of(line) + " "@ + dec_int_string_of(
        level,
    ) + "\n"@
}

/// Encodes a `set_irq_in` request.
pub fn encode_set_irq_in(qom_path: &str, irq_name: &str, line: usize, level: isize) -> (r: String)
    ensures
        r@ == spec_set_irq_in_req(qom_path@, irq_name@, line as nat, level as int),
{
    let mut s = String::from_str("set_irq_in ");
    s.append(qom_path);
    s.append(" ");
    s.append(irq_name);
    s.append(" ");
    s.append(fmt_dec(line as u64).as_str());
    s.append(" ");
    s.append(fmt_dec_signed(level).as_str());
    s.append("\n");
    proof {
        assert(s@ =~= spec_set_irq_in_req(qom_path@, irq_name@, line as nat, level as int));
    }
    s
}

/// Encodes an `inb` request: read one byte from a port.
pub fn encode_inb(addr: usize) -> (r: String)
    ensures
        r@ == spec_addr_req("inb"@, addr as nat),
{
    encode_addr_req("inb", addr)
}

/// Encodes an `inw` request: read one 16-bit word from a port.
pub fn encode_inw(addr: usize) -> (r: String)
    ensures
        r@ == spec_addr_req("inw"@, addr as nat),
{
    encode_addr_req("inw", addr)
}

/// Encodes an `inl` request: read one 32-bit word from a port.
pub fn encode_inl(addr: usize) -> (r: String)
    ensures
        r@ == spec_addr_req("inl"@, addr as nat),
{
    encode_addr_req("inl", addr)
}

/// Encodes an `outb` request: write one byte to a port.
pub fn encode_outb(addr: usize, val: u8) -> (r: String)
    ensures
        r@ == spec_addr_val_req("outb"@, addr as nat, val as nat),
{
    encode_addr_val_req("outb", addr, val as u64)
}

/// Encodes an `outw` request: write one 16-bit word to a port.
pub fn encode_outw(addr: usize, val: u16) -> (r: String)
    ensures
        r@ == spec_addr_val_req("outw"@, addr as nat, val as nat),
{
    encode_addr_val_req("outw", addr, val as u64)
}

/// Encodes an `outl` request: write one 32-bit word to a port.
pub fn encode_outl(addr: usize, val: u32) -> (r: String)
    ensures
        r@ == spec_addr_val_req("outl"@, addr as nat, val as nat),
{
    encode_addr_val_req("outl", addr, val as u64)
}

/// Encodes a `readb` request: read one byte of memory.
pub fn encode_readb(addr: usize) -> (r: String)
    ensures
        r@ == spec_addr_req("readb"@, addr as nat),
{
    encode_addr_req("readb", addr)
}

/// Encodes a `readw` request: read 16 bits of memory.
pub fn encode_readw(addr: usize) -> (r: String)
    ensures
        r@ == spec_addr_req("readw"@, addr as nat),
{
    encode_addr_req("readw", addr)
}

/// Encodes a `readl` request: read 32 bits of memory.
pub fn encode_readl(addr: usize) -> (r: String)
    ensures
        r@ == spec_addr_req("readl"@, addr as nat),
{
    encode_addr_req("readl", addr)
}

/// Encodes a `readq` request: read 64 bits of memory.
pub fn encode_readq(addr: usize) -> (r: String)
    ensures
        r@ == spec_addr_req("readq"@, addr as nat),
{
    encode_addr_req("readq", addr)
}

/// Encodes a `writeb` request: write one byte of memory.
pub fn encode_writeb(addr: usize, val: u8) -> (r: String)
    ensures
        r@ == spec_addr_val_req("writeb"@, addr as nat, val as nat),
{
    encode_addr_val_req("writeb", addr, val as u64)
}

/// Encodes a `writew` request: write 16 bits of memory.
pub fn encode_writew(addr: usize, val: u16) -> (r: String)
    ensures
        r@ == spec_addr_val_req("writew"@, addr as nat, val as nat),
{
    encode_addr_val_req("writew", addr, val as u64)
}

/// Encodes a `writel` request: write 32 bits of memory.
pub fn encode_writel(addr: usize, val: u32) -> (r: String)
    ensures
        r@ == spec_addr_val_req("writel"@, addr as nat, val as nat),
{
    encode_addr_val_req("writel", addr, val as u64)
}

/// Encodes a `writeq` request: write 64 bits of memory.
pub fn encode_writeq(addr: usize, val: u64) -> (r: String)
    ensures
        r@ == spec_addr_val_req("writeq"@, addr as nat, val as nat),
{
    encode_addr_val_req("writeq", addr, val)
}

/// The bulk `read` request: address in hex, size in decimal.
pub open spec fn spec_read_req(addr: nat, size: nat) -> Seq<char> {
    "read "@ + "0x"@ + hex_string_of(addr) + " "@ + dec_string_of(size) + "\n"@
}

/// Encodes a bulk `read` request.
pub fn encode_read(addr: usize, size: usize) -> (r: String)
    ensures
        r@ == spec_read_req(addr as nat, size as nat),
{
    let mut s = String::from_str("read ");
    s.append("0x");
    s.append(fmt_hex(addr as u64).as_str());
    s.append(" ");
    s.append(fmt_dec(size as u64).as_str());
    s.append("\n");
    proof {
        assert(s@ =~= spec_read_req(addr as nat, size as nat));
    }
    s
}

/// The bulk `write` request: address in hex, length in decimal, then the hex
/// data behind one `0x` mark, any marks already on the data removed.
pub open spec fn spec_write_req(addr: nat, data: Seq<char>, len: nat) -> Seq<char> {
    "write "@ + "0x"@ + hex_string_of(addr) + " "@ + dec_string_of(len) + " 0x"@ + spec_strip_0x(
        data,
    ) + "\n"@
}

/// Encodes a bulk `write` request.  The length defaults to the byte length
/// of `data` as given, before its `0x` marks are removed.
pub fn encode_write(addr: usize, data: &str, data_len: Option<usize>) -> (r: String)
    ensures
        r@ == spec_write_req(
            addr as nat,
            data@,
            match data_len {
                Some(l) => l as nat,
                None => data.spec_bytes().len() as usize as nat,
            },
        ),
{
    let len = match data_len {
        Some(l) => l,
        None => data.len(),
    };
    let mut s = String::from_str("write ");
    s.append("0x");
    s.append(fmt_hex(addr as u64).as_str());
    s.append(" ");
    s.append(fmt_dec(len as u64).as_str());
    s.append(" 0x");
    s.append(strip_0x(data));
    s.append("\n");
    proof {
        assert(s@ =~= spec_write_req(
            addr as nat,
            data@,
            match data_len {
                Some(l) => l as nat,
                None => data.spec_bytes().len() as usize as nat,
            },
        ));
    }
    s
}

/// The base64 text of a byte sequence, in the standard alphabet with padding.
pub uninterp spec fn base64_of(bytes: Seq<u8>) -> Seq<char>;

/// Relies on base64's `STANDARD` engine: standard-alphabet, padded encoding,
/// a pure function of the input bytes, four output characters for every
/// three input bytes begun.
#[verifier::external_body]
fn b64_encode(data: &str) -> (r: String)
    requires
        data.spec_bytes().len() <= (usize::MAX / 4 - 1) * 3,
    ensures
        r@ == base64_of(data.spec_bytes()),
        r@.len() == 4 * ((data.spec_bytes().len() + 2) / 3),
{
    base64::engine::general_purpose::STANDARD.encode(data)
}

/// The `b64write` request: address in hex, the byte length of the data in
/// decimal, then the data in base64.
pub open spec fn spec_b64write_req(addr: nat, data_bytes: Seq<u8>) -> Seq<char> {
    "b64write "@ + "0x"@ + hex_string_of(addr) + " "@ + dec_string_of(data_bytes.len()) + " "@
        + base64_of(data_bytes) + "\n"@
}

/// Encodes a `b64write` request.  The length bound keeps the base64 text
/// within an addressable string.
pub fn encode_b64write(addr: usize, data: &str) -> (r: String)
    requires
        data.spec_bytes().len() <= (usize::MAX / 4 - 1) * 3,
    ensures
        r@ == spec_b64write_req(addr as nat, data.spec_bytes()),
{
    let enc = b64_encode(data);
    let mut s = String::from_str("b64write ");
    s.append("0x");
    s.append(fmt_hex(addr as u64).as_str());
    s.append(" ");
    s.append(fmt_dec(data.len() as u64).as_str());
    s.append(" ");
    s.append(enc.as_str());
    s.append("\n");
    proof {
        assert(s@ =~= spec_b64write_req(addr as nat, data.spec_bytes()));
    }
    s
}

/// The number carried by an `OkVal` hex payload: leading `0x` marks and one
/// optional plus sign removed, the rest read as hex digits.
pub open spec fn spec_hex_payload(p: Seq<char>) -> Option<nat> {
    let h = spec_strip_plus(spec_strip_0x(p));
    if h.len() > 0 && all_hex_digits(h) {
        Some(hex_value(h))
    } else {
        None
    }
}

/// The number carried by an `OkVal` decimal payload: one optional plus sign
/// removed, the rest read as decimal digits.
pub open spec fn spec_dec_payload(p: Seq<char>) -> Option<nat> {
    let d = spec_strip_plus(p);
    if d.len() > 0 && all_dec_digits(d) {
        Some(dec_value(d))
    } else {
        None
    }
}

/// Decodes the response to a `clock_set` request: the new clock value, sent
/// back as a decimal `OkVal` payload.
pub fn decode_clock_set(r: &Response) -> (v: Result<usize, EngineError>)
    ensures
        match r@ {
            ResponseModel::OkVal(p) => match spec_dec_payload(p) {
                Some(x) => if x <= usize::MAX {
                    v matches Ok(n) && n == x
                } else {
                    v matches Err(e) && (e matches EngineError::BadPayload(q, f) && q@ == p && f
                        == PayloadFault::OutOfRange)
                },
                None => v matches Err(e) && (e matches EngineError::BadPayload(q, f) && q@ == p
                    && f == PayloadFault::NotNumeric),
            },
            ResponseModel::Error(t) => v matches Err(e) && (e matches EngineError::Rejected(q)
                && q@ == t),
            ResponseModel::Okay => v matches Err(e) && e is UnexpectedResponse,
        },
{
    match r {
        Response::OkVal(val) => match parse_dec(strip_plus(val.as_str())) {
            ParseOutcome::Parsed(x) => {
                if x <= usize::MAX as u64 {
                    Ok(x as usize)
                } else {
                    Err(EngineError::BadPayload(val.clone(), PayloadFault::OutOfRange))
                }
            },
            ParseOutcome::TooLarge => Err(
                EngineError::BadPayload(val.clone(), PayloadFault::OutOfRange),
            ),
            ParseOutcome::NotNumeric => Err(
                EngineError::BadPayload(val.clone(), PayloadFault::NotNumeric),
            ),
        },
        Response::Error(t) => Err(EngineError::Rejected(t.clone())),
        Response::Okay => Err(EngineError::UnexpectedResponse),
    }
}

/// Decodes a hex `OkVal` payload into a value of at most `max`.  Any response
/// of another shape, or a payload that is not hex digits behind its `0x`
/// marks, or a value over `max`, fails with the fault named.
fn decode_hex_value(r: &Response, max: u64) -> (v: Result<u64, EngineError>)
    ensures
        match r@ {
            ResponseModel::OkVal(p) => match spec_hex_payload(p) {
                Some(x) => if x <= max {
                    v matches Ok(n) && n == x
                } else {
                    v matches Err(e) && (e matches EngineError::BadPayload(q, f) && q@ == p && f
                        == PayloadFault::OutOfRange)
                },
                None => v matches Err(e) && (e matches EngineError::BadPayload(q, f) && q@ == p
                    && f == PayloadFault::NotNumeric),
            },
            _ => v matches Err(e) && e is UnexpectedResponse,
        },
{
    match r {
        Response::OkVal(val) => {
            let h = strip_plus(strip_0x(val.as_str()));
            match parse_hex(h) {
                ParseOutcome::Parsed(x) => {
                    if x <= max {
                        Ok(x)
                    } else {
                        Err(EngineError::BadPayload(val.clone(), PayloadFault::OutOfRange))
                    }
                },
                ParseOutcome::TooLarge => Err(
                    EngineError::BadPayload(val.clone(), PayloadFault::OutOfRange),
                ),
                ParseOutcome::NotNumeric => Err(
                    EngineError::BadPayload(val.clone(), PayloadFault::NotNumeric),
                ),
            }
        },
        Response::Error(_) => Err(EngineError::UnexpectedResponse),
        Response::Okay => Err(EngineError::UnexpectedResponse),
    }
}

/// Decodes the response to a byte-wide read (`inb`, `readb`).
pub fn decode_hex_u8(r: &Response) -> (v: Result<u8, EngineError>)
    ensures
        match r@ {
            ResponseModel::OkVal(p) => match spec_hex_payload(p) {
                Some(x) => if x <= u8::MAX {
                    v matches Ok(n) && n == x
                } else {
                    v matches Err(e) && (e matches EngineError::BadPayload(q, f) && q@ == p && f
                        == PayloadFault::OutOfRange)
                },
                None => v matches Err(e) && (e matches EngineError::BadPayload(q, f) && q@ == p
                    && f == PayloadFault::NotNumeric),
            },
            _ => v matches Err(e) && e is UnexpectedResponse,
        },
{
    match decode_hex_value(r, u8::MAX as u64) {
        Ok(x) => Ok(x as u8),
        Err(e) => Err(e),
    }
}

/// Decodes the response to a 16-bit read (`inw`, `readw`).
pub fn decode_hex_u16(r: &Response) -> (v: Result<u16, EngineError>)
    ensures
        match r@ {
            ResponseModel::OkVal(p) => match spec_hex_payload(p) {
                Some(x) => if x <= u16::MAX {
                    v matches Ok(n) && n == x
                } else {
                    v matches Err(e) && (e matches EngineError::BadPayload(q, f) && q@ == p && f
                        == PayloadFault::OutOfRange)
                },
                None => v matches Err(e) && (e matches EngineError::BadPayload(q, f) && q@ == p
                    && f == PayloadFault::NotNumeric),
            },
            _ => v matches Err(e) && e is UnexpectedResponse,
        },
{
    match decode_hex_value(r, u16::MAX as u64) {
        Ok(x) => Ok(x as u16),
        Err(e) => Err(e),
    }
}

/// Decodes the response to a 32-bit read (`inl`, `readl`).
pub fn decode_hex_u32(r: &Response) -> (v: Result<u32, EngineError>)
    ensures
        match r@ {
            ResponseModel::OkVal(p) => match spec_hex_payload(p) {
                Some(x) => if x <= u32::MAX {
                    v matches Ok(n) && n == x
                } else {
                    v matches Err(e) && (e matches EngineError::BadPayload(q, f) && q@ == p && f
                        == PayloadFault::OutOfRange)
                },
                None => v matches Err(e) && (e matches EngineError::BadPayload(q, f) && q@ == p
                    && f == PayloadFault::NotNumeric),
            },
            _ => v matches Err(e) && e is UnexpectedResponse,
        },
{
    match decode_hex_value(r, u32::MAX as u64) {
        Ok(x) => Ok(x as u32),
        Err(e) => Err(e),
    }
}

/// Decodes the response to a 64-bit read (`readq`).
pub fn decode_hex_u64(r: &Response) -> (v: Result<u64, EngineError>)
    ensures
        match r@ {
            ResponseModel::OkVal(p) => match spec_hex_payload(p) {
                Some(x) => if x <= u64::MAX {
                    v matches Ok(n) && n == x
                } else {
                    v matches Err(e) && (e matches EngineError::BadPayload(q, f) && q@ == p && f
                        == PayloadFault::OutOfRange)
                },
                None => v matches Err(e) && (e matches EngineError::BadPayload(q, f) && q@ == p
                    && f == PayloadFault::NotNumeric),
            },
            _ => v matches Err(e) && e is UnexpectedResponse,
        },
{
    decode_hex_value(r, u64::MAX)
}

/// Decodes the response to a bulk `read`: the payload text, as received.
pub fn decode_read_payload(r: Response) -> (v: Result<String, EngineError>)
    ensures
        match r@ {
            ResponseModel::OkVal(p) => v matches Ok(t) && t@ == p,
            _ => v matches Err(e) && e is UnexpectedResponse,
        },
{
    match r {
        Response::OkVal(val) => Ok(val),
        _ => Err(EngineError::UnexpectedResponse),
    }
}

/// A hex payload written as `0x` before the hex digits of a value reads back
/// as exactly that value: the read decoders agree with the way values are
/// written on the wire (round trip).
pub proof fn lemma_hex_payload_round_trip(n: nat)
    ensures
        spec_hex_payload("0x"@ + hex_string_of(n)) == Some(n),
{
    lemma_hex_round_trip(n);
    reveal_strlit("0x");
    let p = "0x"@ + hex_string_of(n);
    let h = hex_string_of(n);
    assert(p.len() >= 2 && p[0] == '0' && p[1] == 'x');
    assert(p.skip(2) =~= h);
    // an `x` is not a hex digit, so the digits carry no further `0x` mark
    if h.len() >= 2 && h[1] == 'x' {
        assert(crate::num::is_hex_digit(h[1]));
        assert(false);
    }
    assert(spec_strip_0x(h) == h);
    // nor do they start with a plus sign
    assert(crate::num::is_hex_digit(h[0]));
    assert(h[0] != '+');
    assert(spec_strip_plus(h) == h);
}

/// A decimal payload written as the digits of a clock value reads back as
/// exactly that value (round trip).
pub proof fn lemma_dec_payload_round_trip(n: nat)
    ensures
        spec_dec_payload(dec_string_of(n)) == Some(n),
{
    lemma_dec_round_trip(n);
    // the digits do not start with a plus sign
    let d = dec_string_of(n);
    assert(crate::num::is_dec_digit(d[0]));
    assert(d[0] != '+');
    assert(spec_strip_plus(d) == d);
}

} // verus!
